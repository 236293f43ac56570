//! The merge engine: reconciles several JSON source documents into one
//! dataset, matching array items by the string form of their `id`.
use crate::ids::{first_match, item_id_render, item_matches, lemma_first_match};
use crate::json::{
    alist_lookup, alist_update, arr_view, find_entry, lemma_alist_index, obj_view, str_eq, Json,
    JsonV,
};
use vstd::prelude::*;

verus! {

/// One merge step: an incoming item whose `id` string form matches an
/// item of the original array replaces the accumulator's item at that
/// original position; any other incoming item appends.
pub open spec fn merge_one(orig: Seq<JsonV>, acc: Seq<JsonV>, item: JsonV) -> Seq<JsonV> {
    match item_id_render(item) {
        Some(s) => {
            let j = first_match(orig, s);
            if j < 0 {
                acc.push(item)
            } else {
                acc.update(j, item)
            }
        },
        None => acc.push(item),
    }
}

/// Folds the incoming items into the accumulator, always matching against
/// the original array: items appended along the way are never overwritten
/// by later incoming items.
pub open spec fn merge_arrays_from(
    orig: Seq<JsonV>,
    acc: Seq<JsonV>,
    incoming: Seq<JsonV>,
) -> Seq<JsonV>
    decreases incoming.len(),
{
    if incoming.len() == 0 {
        acc
    } else {
        merge_arrays_from(orig, merge_one(orig, acc, incoming[0]), incoming.drop_first())
    }
}

/// Two arrays merged by identifier: matched incoming items overwrite in
/// place, the rest append in source order.
pub open spec fn merge_arrays(existing: Seq<JsonV>, incoming: Seq<JsonV>) -> Seq<JsonV> {
    merge_arrays_from(existing, existing, incoming)
}

/// Two resource values merged: arrays merge by identifier; any other
/// combination lets the incoming value replace the existing one.
pub open spec fn spec_merge_value(existing: JsonV, incoming: JsonV) -> JsonV {
    match (existing, incoming) {
        (JsonV::Arr(e), JsonV::Arr(n)) => JsonV::Arr(merge_arrays(e, n)),
        _ => incoming,
    }
}

/// Whether the slot holds an identifier string equal to `s`.
pub open spec fn id_slot_is(ids: Seq<Option<String>>, m: int, s: Seq<char>) -> bool {
    match ids[m] {
        Some(t) => t@ == s,
        None => false,
    }
}

/// The snapshot agrees with the original items' `id` string forms.
pub open spec fn ids_match(orig: Seq<JsonV>, ids: Seq<Option<String>>) -> bool {
    &&& ids.len() == orig.len()
    &&& forall|m: int|
        0 <= m < orig.len() ==> (match #[trigger] ids[m] {
            Some(t) => item_id_render(orig[m]) == Some(t@),
            None => item_id_render(orig[m]) is None,
        })
}

/// Index of the first snapshot slot holding the identifier string, if any.
#[verifier::loop_isolation(false)]
fn find_id_snapshot(ids: &Vec<Option<String>>, s: &String) -> (r: Option<usize>)
    ensures
        match r {
            Some(j) => j < ids@.len() && id_slot_is(ids@, j as int, s@) && forall|m: int|
                0 <= m < j ==> !id_slot_is(ids@, m, s@),
            None => forall|m: int| 0 <= m < ids@.len() ==> !id_slot_is(ids@, m, s@),
        },
{
    let mut j: usize = 0;
    while j < ids.len()
        invariant
            j <= ids@.len(),
            forall|m: int| 0 <= m < j ==> !id_slot_is(ids@, m, s@),
        decreases ids@.len() - j,
    {
        let hit = match &ids[j] {
            Some(t) => str_eq(t.as_str(), s.as_str()),
            None => false,
        };
        if hit {
            return Some(j);
        }
        j = j + 1;
    }
    None
}

/// Merges the incoming items into the existing array, matching by the
/// string form of item identifiers against the array as it stood before
/// the merge.
#[verifier::loop_isolation(false)]
fn merge_items(items: &mut Vec<Json>, new_items: Vec<Json>)
    ensures
        arr_view(final(items)@) == merge_arrays(arr_view(old(items)@), arr_view(new_items@)),
{
    let ghost orig = arr_view(old(items)@);
    let ghost incoming = arr_view(new_items@);
    let orig_len: usize = items.len();
    // snapshot the original items' id string forms, so that replacements
    // and appends never change what later incoming items can match
    let mut orig_ids: Vec<Option<String>> = Vec::new();
    let mut i: usize = 0;
    while i < orig_len
        invariant
            i <= orig_len,
            orig_len == items@.len(),
            items@ == old(items)@,
            orig_ids@.len() == i,
            forall|m: int|
                0 <= m < i ==> (match #[trigger] orig_ids@[m] {
                    Some(t) => item_id_render(orig[m]) == Some(t@),
                    None => item_id_render(orig[m]) is None,
                }),
        decreases orig_len - i,
    {
        proof {
            assert(orig[i as int] == items@[i as int]@);
        }
        orig_ids.push(crate::ids::item_id_string(&items[i]));
        i = i + 1;
    }
    proof {
        assert(ids_match(orig, orig_ids@));
        assert(incoming.skip(0) =~= incoming);
        assert(arr_view(items@) == orig);
    }
    let mut k: usize = 0;
    while k < new_items.len()
        invariant
            k <= new_items@.len(),
            orig_len == orig.len(),
            orig_len <= items@.len(),
            ids_match(orig, orig_ids@),
            incoming == arr_view(new_items@),
            merge_arrays_from(orig, arr_view(items@), incoming.skip(k as int)) == merge_arrays(
                orig,
                incoming,
            ),
        decreases new_items@.len() - k,
    {
        let item = new_items[k].clone();
        proof {
            assert(incoming.skip(k as int)[0] == incoming[k as int]);
            assert(incoming.skip(k as int).drop_first() =~= incoming.skip(k + 1));
            assert(incoming[k as int] == new_items@[k as int]@);
        }
        let ghost acc0 = arr_view(items@);
        let mid: Option<String> = crate::ids::item_id_string(&item);
        match mid {
            Some(s) => {
                match find_id_snapshot(&orig_ids, &s) {
                    Some(j) => {
                        proof {
                            assert forall|m: int| 0 <= m < orig.len() implies (id_slot_is(
                                orig_ids@,
                                m,
                                s@,
                            ) == item_matches(orig[m], s@)) by {
                                let slot = orig_ids@[m];
                                assert(0 <= m < orig_ids@.len());
                            }
                            assert(orig_ids@.len() == orig.len());
                            assert(id_slot_is(orig_ids@, j as int, s@));
                            assert(item_matches(orig[j as int], s@));
                            assert forall|m: int| 0 <= m < j implies !item_matches(
                                orig[m],
                                s@,
                            ) by {
                                assert(!id_slot_is(orig_ids@, m, s@));
                            }
                            lemma_first_match(orig, s@);
                            assert(first_match(orig, s@) == j);
                        }
                        let _replaced = items.remove(j);
                        items.insert(j, item);
                        proof {
                            assert(arr_view(items@) =~= acc0.update(j as int, incoming[k as int]));
                            assert(arr_view(items@) == merge_one(orig, acc0, incoming[k as int]));
                        }
                    },
                    None => {
                        proof {
                            assert forall|m: int| 0 <= m < orig.len() implies (id_slot_is(
                                orig_ids@,
                                m,
                                s@,
                            ) == item_matches(orig[m], s@)) by {
                                let slot = orig_ids@[m];
                                assert(0 <= m < orig_ids@.len());
                            }
                            assert(orig_ids@.len() == orig.len());
                            assert forall|m: int| 0 <= m < orig.len() implies !item_matches(
                                orig[m],
                                s@,
                            ) by {
                                assert(!id_slot_is(orig_ids@, m, s@));
                            }
                            lemma_first_match(orig, s@);
                            assert(first_match(orig, s@) < 0);
                        }
                        items.push(item);
                        proof {
                            assert(arr_view(items@) =~= acc0.push(incoming[k as int]));
                            assert(arr_view(items@) == merge_one(orig, acc0, incoming[k as int]));
                        }
                    },
                }
            },
            None => {
                items.push(item);
                proof {
                    assert(arr_view(items@) =~= acc0.push(incoming[k as int]));
                    assert(arr_view(items@) == merge_one(orig, acc0, incoming[k as int]));
                }
            },
        }
        k = k + 1;
    }
    proof {
        assert(incoming.skip(new_items@.len() as int) =~= Seq::<JsonV>::empty());
    }
}

/// Merges an incoming resource value into the existing one: two arrays
/// merge by identifier; otherwise the incoming value wholly replaces the
/// existing one.
pub fn merge_resource(existing: &mut Json, new_value: Json)
    ensures
        final(existing)@ == spec_merge_value(old(existing)@, new_value@),
{
    let ghost n0 = new_value@;
    match new_value {
        Json::Arr(new_items) => {
            match existing {
                Json::Arr(items) => {
                    merge_items(items, new_items);
                },
                _ => {
                    *existing = Json::Arr(new_items);
                },
            }
        },
        other => {
            *existing = other;
        },
    }
}

/// The dataset after one source entry is folded in: a new resource name
/// inserts as-is; an existing one merges by `spec_merge_value`.
pub open spec fn spec_merge_entry(
    acc: Seq<(Seq<char>, JsonV)>,
    entry: (Seq<char>, JsonV),
) -> Seq<(Seq<char>, JsonV)> {
    match alist_lookup(acc, entry.0) {
        Some(e) => alist_update(acc, entry.0, spec_merge_value(e, entry.1)),
        None => acc.push(entry),
    }
}

/// The dataset after a whole source document is folded in, entry by entry
/// in source order.
pub open spec fn spec_merge_document(
    acc: Seq<(Seq<char>, JsonV)>,
    src: Seq<(Seq<char>, JsonV)>,
) -> Seq<(Seq<char>, JsonV)>
    decreases src.len(),
{
    if src.len() == 0 {
        acc
    } else {
        spec_merge_entry(spec_merge_document(acc, src.drop_last()), src.last())
    }
}

/// Folds one source document into the accumulator dataset.
#[verifier::loop_isolation(false)]
pub fn merge_document(acc: &mut Vec<(String, Json)>, source: Vec<(String, Json)>)
    ensures
        obj_view(final(acc)@) == spec_merge_document(obj_view(old(acc)@), obj_view(source@)),
{
    let ghost src = obj_view(source@);
    let mut k: usize = 0;
    while k < source.len()
        invariant
            k <= source@.len(),
            src == obj_view(source@),
            obj_view(acc@) == spec_merge_document(obj_view(old(acc)@), src.take(k as int)),
        decreases source@.len() - k,
    {
        proof {
            assert(src.take(k + 1).drop_last() =~= src.take(k as int));
            assert(src.take(k + 1).last() == src[k as int]);
        }
        let key = source[k].0.clone();
        let value = source[k].1.clone();
        let ghost acc0 = obj_view(acc@);
        match find_entry(acc, key.as_str()) {
            Some(i) => {
                proof {
                    lemma_alist_index(acc0, key@);
                    assert(acc0[i as int] == (acc@[i as int].0@, acc@[i as int].1@));
                }
                let entry = acc.remove(i);
                let name = entry.0;
                let mut val = entry.1;
                merge_resource(&mut val, value);
                acc.insert(i, (name, val));
                proof {
                    assert(obj_view(acc@) =~= alist_update(
                        acc0,
                        key@,
                        spec_merge_value(acc0[i as int].1, src[k as int].1),
                    ));
                }
            },
            None => {
                acc.push((key, value));
                proof {
                    assert(obj_view(acc@) =~= acc0.push((key@, src[k as int].1)));
                }
            },
        }
        k = k + 1;
    }
    proof {
        assert(src.take(source@.len() as int) =~= src);
    }
}

/// The dataset all the sources merge to, starting from an empty
/// accumulator and folding the sources in order.
pub open spec fn spec_merge_sources(sources: Seq<Seq<(Seq<char>, JsonV)>>) -> Seq<
    (Seq<char>, JsonV),
>
    decreases sources.len(),
{
    if sources.len() == 0 {
        Seq::empty()
    } else {
        spec_merge_document(spec_merge_sources(sources.drop_last()), sources.last())
    }
}

/// Merges all source documents into one dataset, in order.
#[verifier::loop_isolation(false)]
pub fn merge_sources(sources: Vec<Vec<(String, Json)>>) -> (r: Vec<(String, Json)>)
    ensures
        obj_view(r@) == spec_merge_sources(
            sources@.map_values(|d: Vec<(String, Json)>| obj_view(d@)),
        ),
{
    let ghost all = sources@.map_values(|d: Vec<(String, Json)>| obj_view(d@));
    let mut rest = sources;
    let mut acc: Vec<(String, Json)> = Vec::new();
    let mut k: usize = 0;
    let n = rest.len();
    while k < n
        invariant
            k <= n,
            n == all.len(),
            rest@.len() == n - k,
            forall|m: int| 0 <= m < n - k ==> obj_view(rest@[m]@) == all[m + k],
            obj_view(acc@) == spec_merge_sources(all.take(k as int)),
        decreases n - k,
    {
        let doc = rest.remove(0);
        proof {
            assert(obj_view(doc@) == all[k as int]);
            assert(all.take(k + 1).drop_last() =~= all.take(k as int));
            assert(all.take(k + 1).last() == all[k as int]);
        }
        merge_document(&mut acc, doc);
        k = k + 1;
    }
    proof {
        assert(all.take(n as int) =~= all);
    }
    acc
}

} // verus!
