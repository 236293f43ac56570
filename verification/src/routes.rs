//! The home document: for each resource name, the routes the server
//! exposes over it.
use crate::json::{obj_view, arr_view, Json, JsonV};
use vstd::prelude::*;

verus! {

/// The collection URL of a resource: a slash followed by its name.
pub open spec fn collection_url(name: Seq<char>) -> Seq<char> {
    "/"@ + name
}

/// The item URL of a resource: its collection URL followed by an
/// identifier placeholder.
pub open spec fn item_url(name: Seq<char>) -> Seq<char> {
    "/"@ + name + "/:id"@
}

/// One endpoint description: an HTTP method and a URL.
pub open spec fn endpoint_entry(method: Seq<char>, url: Seq<char>) -> JsonV {
    JsonV::Obj(seq![("method"@, JsonV::Str(method)), ("url"@, JsonV::Str(url))])
}

/// The six endpoints every resource exposes.
pub open spec fn route_entry(name: Seq<char>) -> JsonV {
    JsonV::Obj(
        seq![
            ("resource"@, JsonV::Str(name)),
            (
                "endpoints"@,
                JsonV::Arr(
                    seq![
                        endpoint_entry("GET"@, collection_url(name)),
                        endpoint_entry("GET"@, item_url(name)),
                        endpoint_entry("POST"@, collection_url(name)),
                        endpoint_entry("PUT"@, item_url(name)),
                        endpoint_entry("PATCH"@, item_url(name)),
                        endpoint_entry("DELETE"@, item_url(name)),
                    ],
                ),
            ),
        ],
    )
}

/// The whole home document: the resource names, and one route entry per
/// resource.
pub open spec fn spec_home_document(names: Seq<Seq<char>>) -> JsonV {
    JsonV::Obj(
        seq![
            ("resources"@, JsonV::Arr(names.map_values(|n: Seq<char>| JsonV::Str(n)))),
            ("routes"@, JsonV::Arr(names.map_values(|n: Seq<char>| route_entry(n)))),
        ],
    )
}

/// The collection URL, executable form.
fn make_collection_url(name: &str) -> (r: String)
    ensures
        r@ == collection_url(name@),
{
    let mut url = String::from_str("/");
    url.append(name);
    url
}

/// The item URL, executable form.
fn make_item_url(name: &str) -> (r: String)
    ensures
        r@ == item_url(name@),
{
    let mut url = String::from_str("/");
    url.append(name);
    url.append("/:id");
    url
}

/// One endpoint description, executable form.
fn make_endpoint(method: &str, url: String) -> (r: Json)
    ensures
        r@ == endpoint_entry(method@, url@),
{
    let mut fields: Vec<(String, Json)> = Vec::new();
    fields.push((String::from_str("method"), Json::Str(String::from_str(method))));
    fields.push((String::from_str("url"), Json::Str(url)));
    let r = Json::Obj(fields);
    proof {
        assert(fields@.len() == 2);
        assert(obj_view(fields@)[0].0 =~= "method"@);
        assert(obj_view(fields@)[0].1 == JsonV::Str(method@));
        assert(obj_view(fields@)[1].0 =~= "url"@);
        assert(obj_view(fields@)[1].1 == JsonV::Str(url@));
        assert(obj_view(fields@) =~= seq![
            ("method"@, JsonV::Str(method@)),
            ("url"@, JsonV::Str(url@)),
        ]);
        assert(r@ == endpoint_entry(method@, url@));
    }
    r
}

/// One route entry, executable form.
fn make_route_entry(name: &str) -> (r: Json)
    ensures
        r@ == route_entry(name@),
{
    let mut endpoints: Vec<Json> = Vec::new();
    endpoints.push(make_endpoint("GET", make_collection_url(name)));
    endpoints.push(make_endpoint("GET", make_item_url(name)));
    endpoints.push(make_endpoint("POST", make_collection_url(name)));
    endpoints.push(make_endpoint("PUT", make_item_url(name)));
    endpoints.push(make_endpoint("PATCH", make_item_url(name)));
    endpoints.push(make_endpoint("DELETE", make_item_url(name)));
    let mut fields: Vec<(String, Json)> = Vec::new();
    fields.push((String::from_str("resource"), Json::Str(String::from_str(name))));
    fields.push((String::from_str("endpoints"), Json::Arr(endpoints)));
    let r = Json::Obj(fields);
    proof {
        assert(crate::json::arr_view(endpoints@)[0] == endpoint_entry("GET"@, collection_url(name@)));
        assert(crate::json::arr_view(endpoints@)[1] == endpoint_entry("GET"@, item_url(name@)));
        assert(crate::json::arr_view(endpoints@)[2] == endpoint_entry("POST"@, collection_url(name@)));
        assert(crate::json::arr_view(endpoints@)[3] == endpoint_entry("PUT"@, item_url(name@)));
        assert(crate::json::arr_view(endpoints@)[4] == endpoint_entry("PATCH"@, item_url(name@)));
        assert(crate::json::arr_view(endpoints@)[5] == endpoint_entry("DELETE"@, item_url(name@)));
        assert(obj_view(fields@)[0].0 =~= "resource"@);
        assert(obj_view(fields@)[0].1 == JsonV::Str(name@));
        assert(obj_view(fields@)[1].0 =~= "endpoints"@);
        assert(crate::json::arr_view(endpoints@) =~= seq![
            endpoint_entry("GET"@, collection_url(name@)),
            endpoint_entry("GET"@, item_url(name@)),
            endpoint_entry("POST"@, collection_url(name@)),
            endpoint_entry("PUT"@, item_url(name@)),
            endpoint_entry("PATCH"@, item_url(name@)),
            endpoint_entry("DELETE"@, item_url(name@)),
        ]);
        assert(obj_view(fields@) =~= seq![
            ("resource"@, JsonV::Str(name@)),
            ("endpoints"@, JsonV::Arr(crate::json::arr_view(endpoints@))),
        ]);
        assert(r@ == route_entry(name@));
    }
    r
}

/// Builds the home document for the given resource names.
#[verifier::loop_isolation(false)]
pub fn home_document(resources: &Vec<String>) -> (r: Json)
    ensures
        r@ == spec_home_document(resources@.map_values(|s: String| s@)),
{
    let ghost names = resources@.map_values(|s: String| s@);
    let mut name_values: Vec<Json> = Vec::new();
    let mut route_values: Vec<Json> = Vec::new();
    let mut k: usize = 0;
    while k < resources.len()
        invariant
            k <= resources@.len(),
            name_values@.len() == k,
            route_values@.len() == k,
            forall|i: int| 0 <= i < k ==> name_values@[i]@ == JsonV::Str(names[i]),
            forall|i: int| 0 <= i < k ==> route_values@[i]@ == route_entry(names[i]),
        decreases resources@.len() - k,
    {
        name_values.push(Json::Str(resources[k].clone()));
        route_values.push(make_route_entry(resources[k].as_str()));
        k = k + 1;
    }
    let mut fields: Vec<(String, Json)> = Vec::new();
    fields.push((String::from_str("resources"), Json::Arr(name_values)));
    fields.push((String::from_str("routes"), Json::Arr(route_values)));
    let r = Json::Obj(fields);
    proof {
        assert(arr_view(name_values@) =~= names.map_values(|n: Seq<char>| JsonV::Str(n)));
        assert(arr_view(route_values@) =~= names.map_values(|n: Seq<char>| route_entry(n)));
        assert(obj_view(fields@)[0].0 =~= "resources"@);
        assert(obj_view(fields@)[1].0 =~= "routes"@);
        assert(obj_view(fields@) =~= seq![
            ("resources"@, JsonV::Arr(arr_view(name_values@))),
            ("routes"@, JsonV::Arr(arr_view(route_values@))),
        ]);
        assert(r@ == spec_home_document(names));
    }
    r
}

} // verus!
