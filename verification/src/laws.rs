//! The laws the store and the merge engine obey, stated over the models
//! that the executable operations are specified against.
use crate::ids::{dec_str, first_match, item_id_render, item_matches, lemma_first_match};
use crate::json::{
    alist_has, alist_index, alist_lookup, alist_update, lemma_alist_index, lemma_alist_lookup_push,
    lemma_alist_update, unique_keys, JsonV,
};
use crate::merge::{
    merge_arrays, merge_arrays_from, merge_one, spec_merge_document, spec_merge_entry,
    spec_merge_sources, spec_merge_value,
};
use crate::store::{
    apply_patch_entries, clamp_id, int_id_of, spec_apply_patch, spec_create_counters,
    spec_create_doc, spec_created_item, spec_delete, spec_get_item, spec_max_id, spec_next_id,
    spec_seed_of, spec_update,
};
use vstd::prelude::*;

verus! {

/// Creating an object item assigns it the resource's next identifier, and
/// a second create on the same resource receives a strictly greater
/// identifier, so sequential creates yield distinct increasing
/// identifiers. (At the largest representable identifier the counter
/// saturates, so that case is excluded.)
pub proof fn lemma_create_ids_increase(
    counters: Seq<(Seq<char>, int)>,
    name: Seq<char>,
    item1: JsonV,
    item2: JsonV,
)
    requires
        item1 is Obj,
        item2 is Obj,
        spec_next_id(counters, name) < i64::MAX as int,
    ensures
        ({
            let id1 = spec_next_id(counters, name);
            let c1 = spec_create_counters(counters, name, item1);
            let id2 = spec_next_id(c1, name);
            &&& id2 == id1 + 1
            &&& int_id_of(spec_created_item(counters, name, item1)) == Some(id1)
            &&& int_id_of(spec_created_item(c1, name, item2)) == Some(id2)
        }),
{
    let id1 = spec_next_id(counters, name);
    let c0 = if alist_has(counters, name) {
        counters
    } else {
        counters.push((name, 1))
    };
    if !alist_has(counters, name) {
        lemma_alist_lookup_push(counters, (name, 1), name);
    }
    lemma_alist_update(c0, name, clamp_id(id1 + 1));
    match item1 {
        JsonV::Obj(fields) => {
            lemma_alist_update(fields, "id"@, JsonV::Int(id1));
        },
        _ => {},
    }
    let c1 = spec_create_counters(counters, name, item1);
    let id2 = spec_next_id(c1, name);
    match item2 {
        JsonV::Obj(fields) => {
            lemma_alist_update(fields, "id"@, JsonV::Int(id2));
        },
        _ => {},
    }
}

/// Fetching the assigned identifier right after a create returns an item
/// equal to the stored one, identifier included — provided no item the
/// resource already held answers to that identifier's string form.
pub proof fn lemma_get_after_create(
    doc: Seq<(Seq<char>, JsonV)>,
    counters: Seq<(Seq<char>, int)>,
    name: Seq<char>,
    item: JsonV,
)
    requires
        item is Obj,
        ({
            let id_str = dec_str(spec_next_id(counters, name));
            match alist_lookup(doc, name) {
                Some(JsonV::Arr(items)) => forall|m: int|
                    0 <= m < items.len() ==> !item_matches(#[trigger] items[m], id_str),
                Some(other) => !item_matches(other, id_str),
                None => true,
            }
        }),
    ensures
        ({
            let created = spec_created_item(counters, name, item);
            let doc2 = spec_create_doc(doc, name, created);
            spec_get_item(doc2, name, dec_str(spec_next_id(counters, name))) == Some(created)
        }),
{
    let id = spec_next_id(counters, name);
    let id_str = dec_str(id);
    let created = spec_created_item(counters, name, item);
    match item {
        JsonV::Obj(fields) => {
            lemma_alist_update(fields, "id"@, JsonV::Int(id));
            assert(item_id_render(created) == Some(id_str));
        },
        _ => {},
    }
    let doc2 = spec_create_doc(doc, name, created);
    match alist_lookup(doc, name) {
        Some(JsonV::Arr(items)) => {
            let grown = items.push(created);
            lemma_alist_update(doc, name, JsonV::Arr(grown));
            lemma_first_match(grown, id_str);
            assert(grown[items.len() as int] == created);
            assert forall|m: int| 0 <= m < items.len() implies !item_matches(
                #[trigger] grown[m],
                id_str,
            ) by {
                assert(grown[m] == items[m]);
            }
            assert(first_match(grown, id_str) == items.len());
        },
        Some(other) => {
            let grown = seq![other, created];
            lemma_alist_update(doc, name, JsonV::Arr(grown));
            lemma_first_match(grown, id_str);
            assert(grown[0] == other && grown[1] == created);
            assert(first_match(grown, id_str) == 1);
        },
        None => {
            let grown = seq![created];
            lemma_alist_lookup_push(doc, (name, JsonV::Arr(grown)), name);
            lemma_first_match(grown, id_str);
            assert(grown[0] == created);
            assert(first_match(grown, id_str) == 0);
        },
    }
}

/// The value the last patch entry carrying the key sets, if any entry
/// other than `id` does.
pub open spec fn last_patch_value(pf: Seq<(Seq<char>, JsonV)>, k: Seq<char>) -> Option<JsonV>
    decreases pf.len(),
{
    if pf.len() == 0 {
        None
    } else if pf.last().0 == k && k != "id"@ {
        Some(pf.last().1)
    } else {
        last_patch_value(pf.drop_last(), k)
    }
}

/// A patch never changes the `id` field; every other key ends up at the
/// value the patch last gave it, and keys the patch does not mention are
/// untouched.
pub proof fn lemma_patch_fields(fields: Seq<(Seq<char>, JsonV)>, pf: Seq<(Seq<char>, JsonV)>)
    ensures
        alist_lookup(apply_patch_entries(fields, pf), "id"@) == alist_lookup(fields, "id"@),
        forall|k: Seq<char>|
            k != "id"@ ==> alist_lookup(apply_patch_entries(fields, pf), k) == (
            match #[trigger] last_patch_value(pf, k) {
                Some(v) => Some(v),
                None => alist_lookup(fields, k),
            }),
    decreases pf.len(),
{
    if pf.len() != 0 {
        lemma_patch_fields(fields, pf.drop_last());
        let prev = apply_patch_entries(fields, pf.drop_last());
        if pf.last().0 != "id"@ {
            lemma_alist_update(prev, pf.last().0, pf.last().1);
        }
        assert forall|k: Seq<char>| k != "id"@ implies alist_lookup(
            apply_patch_entries(fields, pf),
            k,
        ) == (match last_patch_value(pf, k) {
            Some(v) => Some(v),
            None => alist_lookup(fields, k),
        }) by {
            if pf.last().0 == "id"@ {
                assert(apply_patch_entries(fields, pf) == prev);
                assert(last_patch_value(pf, k) == last_patch_value(pf.drop_last(), k));
            } else {
                assert(apply_patch_entries(fields, pf) == alist_update(
                    prev,
                    pf.last().0,
                    pf.last().1,
                ));
                if k == pf.last().0 {
                    assert(alist_lookup(apply_patch_entries(fields, pf), k) == Some(pf.last().1));
                } else {
                    assert(alist_lookup(apply_patch_entries(fields, pf), k) == alist_lookup(
                        prev,
                        k,
                    ));
                    assert(last_patch_value(pf, k) == last_patch_value(pf.drop_last(), k));
                }
            }
        }
    }
}

/// An updated item still answers to the identifier it was fetched by: the
/// stored `id` is immutable under updates.
pub proof fn lemma_update_keeps_id(
    doc: Seq<(Seq<char>, JsonV)>,
    name: Seq<char>,
    id: Seq<char>,
    patch: JsonV,
)
    ensures
        match spec_update(doc, name, id, patch).1 {
            Some(u) => item_matches(u, id),
            None => true,
        },
{
    match alist_lookup(doc, name) {
        Some(JsonV::Arr(items)) => {
            let j = first_match(items, id);
            if j >= 0 {
                lemma_first_match(items, id);
                lemma_keeps_id_one(items[j], id, patch);
            }
        },
        Some(JsonV::Obj(fields)) => {
            if item_matches(JsonV::Obj(fields), id) {
                lemma_keeps_id_one(JsonV::Obj(fields), id, patch);
            }
        },
        _ => {},
    }
}

/// One matched item keeps its identifier under a patch.
proof fn lemma_keeps_id_one(item: JsonV, id: Seq<char>, patch: JsonV)
    requires
        item_matches(item, id),
    ensures
        item_matches(spec_apply_patch(item, patch), id),
{
    match (item, patch) {
        (JsonV::Obj(fields), JsonV::Obj(pf)) => {
            lemma_patch_fields(fields, pf);
        },
        _ => {},
    }
}

/// After a deletion by identifier, fetching that identifier finds nothing
/// and a second deletion reports that nothing was removed — provided the
/// collection did not hold two items answering to the same identifier.
pub proof fn lemma_delete_then_get(doc: Seq<(Seq<char>, JsonV)>, name: Seq<char>, id: Seq<char>)
    requires
        match alist_lookup(doc, name) {
            Some(JsonV::Arr(items)) => forall|i: int, j: int|
                0 <= i < j < items.len() ==> !(item_matches(#[trigger] items[i], id)
                    && item_matches(#[trigger] items[j], id)),
            _ => true,
        },
    ensures
        ({
            let r = spec_delete(doc, name, id);
            r.1 ==> {
                &&& spec_get_item(r.0, name, id) is None
                &&& spec_delete(r.0, name, id).1 == false
            }
        }),
{
    match alist_lookup(doc, name) {
        Some(JsonV::Arr(items)) => {
            let j = first_match(items, id);
            if j >= 0 {
                lemma_first_match(items, id);
                let rest = items.remove(j);
                lemma_alist_update(doc, name, JsonV::Arr(rest));
                assert forall|m: int| 0 <= m < rest.len() implies !item_matches(
                    #[trigger] rest[m],
                    id,
                ) by {
                    if m < j {
                        assert(rest[m] == items[m]);
                    } else {
                        assert(rest[m] == items[m + 1]);
                    }
                }
                lemma_first_match(rest, id);
            }
        },
        Some(JsonV::Obj(fields)) => {
            if item_matches(JsonV::Obj(fields), id) {
                lemma_alist_update(doc, name, JsonV::Obj(Seq::empty()));
                assert(alist_lookup(Seq::<(Seq<char>, JsonV)>::empty(), "id"@) is None);
            }
        },
        _ => {},
    }
}

/// Every item carries an identifier, and no two items share its string
/// form.
pub open spec fn distinct_item_ids(items: Seq<JsonV>) -> bool {
    &&& forall|i: int| 0 <= i < items.len() ==> item_id_render(#[trigger] items[i]) is Some
    &&& forall|i: int, j: int|
        0 <= i < j < items.len() ==> item_id_render(#[trigger] items[i]) != item_id_render(
            #[trigger] items[j],
        )
}

/// Merging an array into itself changes nothing, provided its items carry
/// distinct identifiers: merging identical data twice produces the same
/// items, no duplicates.
pub proof fn lemma_merge_idempotent(items: Seq<JsonV>)
    requires
        distinct_item_ids(items),
    ensures
        merge_arrays(items, items) == items,
{
    lemma_merge_self_from(items, 0);
    assert(items.skip(0) =~= items);
}

/// Folding a suffix of an array into itself leaves the array unchanged.
proof fn lemma_merge_self_from(items: Seq<JsonV>, k: int)
    requires
        0 <= k <= items.len(),
        distinct_item_ids(items),
    ensures
        merge_arrays_from(items, items, items.skip(k)) == items,
    decreases items.len() - k,
{
    if k < items.len() {
        let suffix = items.skip(k);
        assert(suffix[0] == items[k]);
        let s = item_id_render(items[k])->0;
        assert(item_matches(items[k], s));
        assert forall|m: int| 0 <= m < k implies !item_matches(#[trigger] items[m], s) by {}
        lemma_first_match(items, s);
        assert(first_match(items, s) == k);
        assert(merge_one(items, items, items[k]) =~= items);
        assert(suffix.drop_first() =~= items.skip(k + 1));
        lemma_merge_self_from(items, k + 1);
    } else {
        assert(items.skip(k) =~= Seq::<JsonV>::empty());
    }
}

/// Merging a source document into a dataset already equal to it leaves
/// the dataset unchanged, provided resource names are unique and every
/// array resource's items carry distinct identifiers: merging identical
/// data twice produces the same dataset, no duplicates.
pub proof fn lemma_merge_document_idempotent(src: Seq<(Seq<char>, JsonV)>)
    requires
        unique_keys(src),
        forall|i: int|
            0 <= i < src.len() ==> (match #[trigger] src[i].1 {
                JsonV::Arr(items) => distinct_item_ids(items),
                _ => true,
            }),
    ensures
        spec_merge_document(src, src) == src,
{
    lemma_merge_document_idempotent_from(src, src.len() as int);
    assert(src.take(src.len() as int) =~= src);
}

/// Folding a prefix of a document into itself leaves it unchanged.
proof fn lemma_merge_document_idempotent_from(src: Seq<(Seq<char>, JsonV)>, k: int)
    requires
        0 <= k <= src.len(),
        unique_keys(src),
        forall|i: int|
            0 <= i < src.len() ==> (match #[trigger] src[i].1 {
                JsonV::Arr(items) => distinct_item_ids(items),
                _ => true,
            }),
    ensures
        spec_merge_document(src, src.take(k)) == src,
    decreases k,
{
    if k == 0 {
        assert(src.take(0) =~= Seq::<(Seq<char>, JsonV)>::empty());
    } else {
        lemma_merge_document_idempotent_from(src, k - 1);
        assert(src.take(k).drop_last() =~= src.take(k - 1));
        assert(src.take(k).last() == src[k - 1]);
        let key = src[k - 1].0;
        let v = src[k - 1].1;
        lemma_alist_index(src, key);
        let i0 = alist_index(src, key);
        assert(i0 >= 0);
        assert(i0 == k - 1);
        assert(alist_lookup(src, key) == Some(v));
        match v {
            JsonV::Arr(items) => {
                lemma_merge_idempotent(items);
                assert(spec_merge_value(v, v) == v);
            },
            _ => {
                assert(spec_merge_value(v, v) == v);
            },
        }
        assert(spec_merge_entry(src, src[k - 1]) =~= src.update(k - 1, (key, v)));
        assert(src.update(k - 1, (key, v)) =~= src);
    }
}

/// The largest integer identifier bounds every integer identifier the
/// items hold.
proof fn lemma_max_id_bound(items: Seq<JsonV>)
    ensures
        forall|i: int|
            0 <= i < items.len() ==> (match int_id_of(#[trigger] items[i]) {
                Some(id) => spec_max_id(items) matches Some(m) && id <= m,
                None => true,
            }),
    decreases items.len(),
{
    if items.len() != 0 {
        lemma_max_id_bound(items.drop_last());
        assert forall|i: int| 0 <= i < items.len() implies (match int_id_of(
            #[trigger] items[i],
        ) {
            Some(id) => spec_max_id(items) matches Some(m) && id <= m,
            None => true,
        }) by {
            if i < items.len() - 1 {
                assert(items.drop_last()[i] == items[i]);
            }
        }
    }
}

/// The counter a collection seeds lies strictly above every integer
/// identifier the collection already holds, up to the representable cap:
/// construction never hands out an identifier the data already uses.
pub proof fn lemma_seed_above_ids(items: Seq<JsonV>)
    ensures
        ({
            let c = spec_seed_of(JsonV::Arr(items))->0;
            forall|i: int|
                0 <= i < items.len() ==> (match int_id_of(#[trigger] items[i]) {
                    Some(id) => id < c || c == i64::MAX as int,
                    None => true,
                })
        }),
{
    lemma_max_id_bound(items);
}

/// An item created on a collection whose integer identifiers all lie
/// below the resource's next identifier receives an identifier distinct
/// from every one of them, and the new collection again lies below the
/// bumped counter: identifiers are never reused, and deletions, which
/// leave the counter untouched, cannot bring one back.
pub proof fn lemma_created_id_fresh(
    counters: Seq<(Seq<char>, int)>,
    name: Seq<char>,
    items: Seq<JsonV>,
    item: JsonV,
)
    requires
        item is Obj,
        spec_next_id(counters, name) < i64::MAX as int,
        forall|i: int|
            0 <= i < items.len() ==> (match int_id_of(#[trigger] items[i]) {
                Some(id) => id < spec_next_id(counters, name),
                None => true,
            }),
    ensures
        ({
            let next = spec_next_id(counters, name);
            let created = spec_created_item(counters, name, item);
            &&& int_id_of(created) == Some(next)
            &&& forall|i: int|
                0 <= i < items.len() ==> int_id_of(#[trigger] items[i]) != int_id_of(created)
            &&& forall|i: int|
                0 <= i < items.push(created).len() ==> (match int_id_of(
                    #[trigger] items.push(created)[i],
                ) {
                    Some(id) => id < next + 1,
                    None => true,
                })
        }),
{
    let next = spec_next_id(counters, name);
    match item {
        JsonV::Obj(fields) => {
            lemma_alist_update(fields, "id"@, JsonV::Int(next));
        },
        _ => {},
    }
    let created = spec_created_item(counters, name, item);
    assert forall|i: int| 0 <= i < items.push(created).len() implies (match int_id_of(
        #[trigger] items.push(created)[i],
    ) {
        Some(id) => id < next + 1,
        None => true,
    }) by {
        if i < items.len() {
            assert(items.push(created)[i] == items[i]);
        } else {
            assert(items.push(created)[i] == created);
        }
    }
}

/// Merging keeps resource names unique: a dataset built by the merge
/// engine never holds a resource name twice.
pub proof fn lemma_merge_document_unique(
    acc: Seq<(Seq<char>, JsonV)>,
    src: Seq<(Seq<char>, JsonV)>,
)
    requires
        unique_keys(acc),
    ensures
        unique_keys(spec_merge_document(acc, src)),
    decreases src.len(),
{
    if src.len() != 0 {
        lemma_merge_document_unique(acc, src.drop_last());
        let mid = spec_merge_document(acc, src.drop_last());
        let e = src.last();
        match alist_lookup(mid, e.0) {
            Some(v) => {
                lemma_alist_update(mid, e.0, spec_merge_value(v, e.1));
            },
            None => {
                assert(spec_merge_entry(mid, e) == alist_update(mid, e.0, e.1));
                lemma_alist_update(mid, e.0, e.1);
            },
        }
    }
}

/// A dataset merged from any list of sources has unique resource names.
pub proof fn lemma_merge_sources_unique(sources: Seq<Seq<(Seq<char>, JsonV)>>)
    ensures
        unique_keys(spec_merge_sources(sources)),
    decreases sources.len(),
{
    if sources.len() == 0 {
        assert(unique_keys(Seq::<(Seq<char>, JsonV)>::empty()));
    } else {
        lemma_merge_sources_unique(sources.drop_last());
        lemma_merge_document_unique(spec_merge_sources(sources.drop_last()), sources.last());
    }
}

} // verus!
