//! Sample data derived from protocol definition texts: every message
//! declaration found becomes a resource holding one sample item.
use crate::json::{alist_has, find_entry, obj_view, Json, JsonV};
use vstd::prelude::*;

verus! {

/// The pattern a message declaration is recognised by.
pub const MESSAGE_PATTERN: &'static str = "message\\s+([A-Za-z][A-Za-z0-9_]*)\\s*\\{";

/// What searching a text for a pattern yields: capture group one of each
/// non-overlapping match, in text order. The result depends on the two
/// strings alone.
pub uninterp spec fn regex_group1_matches(pattern: Seq<char>, text: Seq<char>) -> Seq<Seq<char>>;

/// Relies on regex::Regex::new and Regex::captures_iter: a valid pattern
/// compiles and its iterator yields the non-overlapping matches in text
/// order; an invalid pattern fails to compile, and nothing is returned.
#[verifier::external_body]
fn regex_capture_group1(pattern: &str, text: &str) -> (r: Option<Vec<String>>)
    ensures
        match r {
            Some(v) => v@.map_values(|s: String| s@) == regex_group1_matches(pattern@, text@),
            None => true,
        },
{
    let re = match regex::Regex::new(pattern) {
        Ok(re) => re,
        Err(_) => return None,
    };
    Some(re.captures_iter(text).filter_map(|c| c.get(1).map(|m| m.as_str().to_string())).collect())
}

/// The sample item a message name generates.
pub open spec fn sample_item(name: Seq<char>) -> JsonV {
    JsonV::Obj(
        seq![
            ("id"@, JsonV::Int(1)),
            ("name"@, JsonV::Str("Sample "@ + name)),
            (
                "description"@,
                JsonV::Str("This is a sample item generated from proto definition"@),
            ),
        ],
    )
}

/// The schema the message names generate: one collection holding one
/// sample item per distinct name, in order of first appearance.
pub open spec fn spec_schema(names: Seq<Seq<char>>) -> Seq<(Seq<char>, JsonV)>
    decreases names.len(),
{
    if names.len() == 0 {
        Seq::empty()
    } else {
        let prev = spec_schema(names.drop_last());
        if alist_has(prev, names.last()) {
            prev
        } else {
            prev.push((names.last(), JsonV::Arr(seq![sample_item(names.last())])))
        }
    }
}

pub struct ProtoLoader;

impl ProtoLoader {
    /// Builds the sample item for one message name.
    fn make_sample_item(name: &str) -> (r: Json)
        ensures
            r@ == sample_item(name@),
    {
        let mut sample_name = String::from_str("Sample ");
        sample_name.append(name);
        let mut fields: Vec<(String, Json)> = Vec::new();
        fields.push((String::from_str("id"), Json::Int(1)));
        fields.push((String::from_str("name"), Json::Str(sample_name)));
        fields.push(
            (
                String::from_str("description"),
                Json::Str(
                    String::from_str("This is a sample item generated from proto definition"),
                ),
            ),
        );
        let r = Json::Obj(fields);
        proof {
            assert(obj_view(fields@) =~= seq![
                ("id"@, JsonV::Int(1)),
                ("name"@, JsonV::Str("Sample "@ + name@)),
                (
                    "description"@,
                    JsonV::Str("This is a sample item generated from proto definition"@),
                ),
            ]);
            assert(r@ == sample_item(name@));
        }
        r
    }

    /// Builds the sample schema for the message names, one collection per
    /// distinct name.
    #[verifier::loop_isolation(false)]
    pub fn schema_from_names(names: &Vec<String>) -> (r: Vec<(String, Json)>)
        ensures
            obj_view(r@) == spec_schema(names@.map_values(|s: String| s@)),
    {
        let ghost model = names@.map_values(|s: String| s@);
        let mut out: Vec<(String, Json)> = Vec::new();
        let mut k: usize = 0;
        while k < names.len()
            invariant
                k <= names@.len(),
                model == names@.map_values(|s: String| s@),
                obj_view(out@) == spec_schema(model.take(k as int)),
            decreases names@.len() - k,
        {
            proof {
                assert(model.take(k + 1).drop_last() =~= model.take(k as int));
                assert(model.take(k + 1).last() == model[k as int]);
            }
            let ghost before = obj_view(out@);
            match find_entry(&out, names[k].as_str()) {
                Some(_) => {},
                None => {
                    let mut items: Vec<Json> = Vec::new();
                    items.push(Self::make_sample_item(names[k].as_str()));
                    out.push((names[k].clone(), Json::Arr(items)));
                    proof {
                        assert(crate::json::arr_view(items@) =~= seq![sample_item(model[k as int])]);
                        assert(obj_view(out@) =~= before.push(
                            (model[k as int], JsonV::Arr(seq![sample_item(model[k as int])])),
                        ));
                    }
                },
            }
            k = k + 1;
        }
        proof {
            assert(model.take(names@.len() as int) =~= model);
        }
        out
    }

    /// The schema a protocol definition text derives: a sample collection
    /// per message declaration the pattern search finds. Nothing further
    /// is promised of what the search returns.
    pub fn schema_from_proto_text(content: &str) -> (r: Option<Vec<(String, Json)>>)
        ensures
            match r {
                Some(doc) => obj_view(doc@) == spec_schema(
                    regex_group1_matches(MESSAGE_PATTERN@, content@),
                ),
                None => true,
            },
    {
        match regex_capture_group1(MESSAGE_PATTERN, content) {
            Some(names) => Some(Self::schema_from_names(&names)),
            None => None,
        }
    }
}

} // verus!
