//! Identifier matching by textual representation: a stored `id` value
//! matches a requested identifier exactly when its string form equals the
//! requested string, regardless of whether the stored value is numeric or
//! textual.
use crate::json::{alist_lookup, obj_get, Json, JsonV, str_eq};
use vstd::prelude::*;

verus! {

/// The character for one decimal digit.
pub open spec fn digit_char(d: int) -> char {
    if d == 0 {
        '0'
    } else if d == 1 {
        '1'
    } else if d == 2 {
        '2'
    } else if d == 3 {
        '3'
    } else if d == 4 {
        '4'
    } else if d == 5 {
        '5'
    } else if d == 6 {
        '6'
    } else if d == 7 {
        '7'
    } else if d == 8 {
        '8'
    } else {
        '9'
    }
}

/// Decimal digits of a non-negative integer, most significant first.
pub open spec fn dec_digits(n: nat) -> Seq<char>
    decreases n,
{
    if n < 10 {
        seq![digit_char(n as int)]
    } else {
        dec_digits(n / 10).push(digit_char((n % 10) as int))
    }
}

/// The decimal string form of an integer, with a leading minus sign when
/// negative.
pub open spec fn dec_str(i: int) -> Seq<char> {
    if i < 0 {
        seq!['-'] + dec_digits((-i) as nat)
    } else {
        dec_digits(i as nat)
    }
}

/// The string form of a JSON value used for identifier comparison, where
/// one exists: integers render in decimal, strings stand for themselves,
/// booleans and null render as their JSON keywords. Arrays and objects
/// have no identifier form and can never be matched.
pub open spec fn id_render(v: JsonV) -> Option<Seq<char>> {
    match v {
        JsonV::Int(i) => Some(dec_str(i)),
        JsonV::Str(s) => Some(s),
        JsonV::Bool(b) => Some(if b {
            "true"@
        } else {
            "false"@
        }),
        JsonV::Null => Some("null"@),
        _ => None,
    }
}

/// Whether a stored identifier value matches a requested identifier string.
pub open spec fn matches_id(v: JsonV, id: Seq<char>) -> bool {
    id_render(v) == Some(id)
}

/// Appends the decimal digits of `n` to `out`.
fn append_dec(n: u64, out: &mut String)
    ensures
        final(out)@ == old(out)@ + dec_digits(n as nat),
    decreases n,
{
    if n >= 10 {
        append_dec(n / 10, out);
    }
    let d = n % 10;
    proof {
        reveal_strlit("0");
        reveal_strlit("1");
        reveal_strlit("2");
        reveal_strlit("3");
        reveal_strlit("4");
        reveal_strlit("5");
        reveal_strlit("6");
        reveal_strlit("7");
        reveal_strlit("8");
        reveal_strlit("9");
    }
    match d {
        0 => out.append("0"),
        1 => out.append("1"),
        2 => out.append("2"),
        3 => out.append("3"),
        4 => out.append("4"),
        5 => out.append("5"),
        6 => out.append("6"),
        7 => out.append("7"),
        8 => out.append("8"),
        _ => out.append("9"),
    }
    proof {
        assert(out@ =~= old(out)@ + dec_digits(n as nat));
    }
}

/// Renders an integer in decimal, as identifier comparison requires.
pub fn i64_to_string(i: i64) -> (r: String)
    ensures
        r@ == dec_str(i as int),
{
    let mut s = String::new();
    if i >= 0 {
        append_dec(i as u64, &mut s);
        proof {
            assert(s@ =~= dec_str(i as int));
        }
    } else {
        proof {
            reveal_strlit("-");
        }
        s.append("-");
        let m: u64 = (-(i as i128)) as u64;
        append_dec(m, &mut s);
        proof {
            assert(s@ =~= dec_str(i as int));
        }
    }
    s
}

/// Whether a stored identifier value matches the requested identifier
/// string, by textual representation.
pub fn id_value_matches(v: &Json, id: &str) -> (r: bool)
    ensures
        r == matches_id(v@, id@),
{
    match v {
        Json::Int(i) => {
            let s = i64_to_string(*i);
            str_eq(s.as_str(), id)
        },
        Json::Str(s) => str_eq(s.as_str(), id),
        Json::Bool(b) => {
            if *b {
                str_eq("true", id)
            } else {
                str_eq("false", id)
            }
        },
        Json::Null => str_eq("null", id),
        Json::Arr(_) => false,
        Json::Obj(_) => false,
    }
}

/// Renders a stored identifier value as a string, where one exists.
pub fn render_id(v: &Json) -> (r: Option<String>)
    ensures
        match r {
            Some(s) => id_render(v@) == Some(s@),
            None => id_render(v@) is None,
        },
{
    match v {
        Json::Int(i) => Some(i64_to_string(*i)),
        Json::Str(s) => Some(s.clone()),
        Json::Bool(b) => {
            if *b {
                Some(String::from_str("true"))
            } else {
                Some(String::from_str("false"))
            }
        },
        Json::Null => Some(String::from_str("null")),
        Json::Arr(_) => None,
        Json::Obj(_) => None,
    }
}

/// The string form of an item's `id` field, where the item is an object
/// carrying one that has a string form.
pub open spec fn item_id_render(item: JsonV) -> Option<Seq<char>> {
    match item {
        JsonV::Obj(fields) => match alist_lookup(fields, "id"@) {
            Some(v) => id_render(v),
            None => None,
        },
        _ => None,
    }
}

/// Whether an item is matched by the requested identifier string: the item
/// must be an object whose `id` field's string form equals the request.
pub open spec fn item_matches(item: JsonV, id: Seq<char>) -> bool {
    item_id_render(item) == Some(id)
}

/// Index of the first item matched by the identifier string, or -1 when
/// nothing matches.
pub open spec fn first_match(items: Seq<JsonV>, id: Seq<char>) -> int
    decreases items.len(),
{
    if items.len() == 0 {
        -1
    } else if item_matches(items[0], id) {
        0
    } else {
        let r = first_match(items.drop_first(), id);
        if r < 0 {
            -1
        } else {
            r + 1
        }
    }
}

/// `first_match` finds the first matching item: it lands on a match, and
/// nothing before it matches; when it reports absence, nothing matches.
pub proof fn lemma_first_match(items: Seq<JsonV>, id: Seq<char>)
    ensures
        first_match(items, id) >= 0 ==> {
            &&& first_match(items, id) < items.len()
            &&& item_matches(items[first_match(items, id)], id)
            &&& forall|j: int| 0 <= j < first_match(items, id) ==> !item_matches(items[j], id)
        },
        first_match(items, id) < 0 ==> forall|j: int|
            0 <= j < items.len() ==> !item_matches(items[j], id),
    decreases items.len(),
{
    if items.len() == 0 {
    } else if item_matches(items[0], id) {
    } else {
        lemma_first_match(items.drop_first(), id);
        let r = first_match(items.drop_first(), id);
        if r >= 0 {
            assert(items[r + 1] == items.drop_first()[r]);
            assert forall|j: int| 0 <= j < r + 1 implies !item_matches(items[j], id) by {
                if j > 0 {
                    assert(items[j] == items.drop_first()[j - 1]);
                }
            }
        } else {
            assert forall|j: int| 0 <= j < items.len() implies !item_matches(items[j], id) by {
                if j > 0 {
                    assert(items[j] == items.drop_first()[j - 1]);
                }
            }
        }
    }
}

/// The string form of an item's `id` field, executable form.
pub fn item_id_string(item: &Json) -> (r: Option<String>)
    ensures
        match r {
            Some(s) => item_id_render(item@) == Some(s@),
            None => item_id_render(item@) is None,
        },
{
    match item {
        Json::Obj(fields) => match obj_get(fields, "id") {
            Some(v) => render_id(v),
            None => None,
        },
        _ => None,
    }
}

/// Whether the item is matched by the requested identifier string.
pub fn matches_item(item: &Json, id: &str) -> (r: bool)
    ensures
        r == item_matches(item@, id@),
{
    match item_id_string(item) {
        Some(s) => str_eq(s.as_str(), id),
        None => false,
    }
}

} // verus!
