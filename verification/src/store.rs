//! The resource store: owns the dataset and the identifier counters,
//! assigns identifiers and performs the CRUD operations.
use crate::ids::{first_match, item_matches, lemma_first_match, matches_item};
use crate::json::{
    alist_has, alist_index, alist_lookup, alist_update, find_entry, lemma_alist_index,
    lemma_alist_update, obj_view, unique_keys, Json, JsonV,
};
use vstd::prelude::*;

verus! {

/// The dataset together with one identifier counter per resource name.
pub struct ResourceStore {
    data: Vec<(String, Json)>,
    id_counters: Vec<(String, i64)>,
}

/// Model of the counter table.
pub open spec fn counters_view(entries: Seq<(String, i64)>) -> Seq<(Seq<char>, int)> {
    Seq::new(entries.len(), |i: int| (entries[i].0@, entries[i].1 as int))
}

/// Caps a counter value at the largest representable identifier.
pub open spec fn clamp_id(x: int) -> int {
    if x > i64::MAX {
        i64::MAX as int
    } else {
        x
    }
}

/// The integer `id` field of an item, where the item is an object whose
/// `id` is an integer.
pub open spec fn int_id_of(item: JsonV) -> Option<int> {
    match item {
        JsonV::Obj(fields) => match alist_lookup(fields, "id"@) {
            Some(JsonV::Int(i)) => Some(i),
            _ => None,
        },
        _ => None,
    }
}

/// The largest integer `id` among the items, where any item carries one.
pub open spec fn spec_max_id(items: Seq<JsonV>) -> Option<int>
    decreases items.len(),
{
    if items.len() == 0 {
        None
    } else {
        let rest = spec_max_id(items.drop_last());
        match (rest, int_id_of(items.last())) {
            (Some(a), Some(b)) => Some(
                if a >= b {
                    a
                } else {
                    b
                },
            ),
            (Some(a), None) => Some(a),
            (None, b) => b,
        }
    }
}

/// The counter a resource value seeds at construction: for a collection,
/// one past the largest integer `id` found (one when none is found); for a
/// singleton object with an integer `id`, one past it; nothing otherwise.
pub open spec fn spec_seed_of(v: JsonV) -> Option<int> {
    match v {
        JsonV::Arr(items) => Some(
            clamp_id(
                (match spec_max_id(items) {
                    Some(m) => m,
                    None => 0,
                }) + 1,
            ),
        ),
        JsonV::Obj(fields) => match alist_lookup(fields, "id"@) {
            Some(JsonV::Int(i)) => Some(clamp_id(i + 1)),
            _ => None,
        },
        _ => None,
    }
}

/// The whole counter table seeded from a dataset, in resource order.
pub open spec fn spec_seed_counters(doc: Seq<(Seq<char>, JsonV)>) -> Seq<(Seq<char>, int)>
    decreases doc.len(),
{
    if doc.len() == 0 {
        Seq::empty()
    } else {
        let prev = spec_seed_counters(doc.drop_last());
        match spec_seed_of(doc.last().1) {
            Some(c) => prev.push((doc.last().0, c)),
            None => prev,
        }
    }
}

/// Every seeded counter carries the name of some resource of the dataset,
/// and seeding a dataset with unique names yields unique counter names.
pub proof fn lemma_seed_counters_unique(doc: Seq<(Seq<char>, JsonV)>)
    requires
        unique_keys(doc),
    ensures
        unique_keys(spec_seed_counters(doc)),
        forall|a: int|
            0 <= a < spec_seed_counters(doc).len() ==> exists|b: int|
                0 <= b < doc.len() && #[trigger] spec_seed_counters(doc)[a].0 == doc[b].0,
    decreases doc.len(),
{
    if doc.len() != 0 {
        assert(unique_keys(doc.drop_last()));
        lemma_seed_counters_unique(doc.drop_last());
        let prev = spec_seed_counters(doc.drop_last());
        assert(forall|b: int| 0 <= b < doc.drop_last().len() ==> doc.drop_last()[b] == doc[b]);
        match spec_seed_of(doc.last().1) {
            Some(c) => {
                let cur = prev.push((doc.last().0, c));
                assert forall|a: int| 0 <= a < cur.len() implies exists|b: int|
                    0 <= b < doc.len() && #[trigger] cur[a].0 == doc[b].0 by {
                    if a < prev.len() {
                        let b = choose|b: int|
                            0 <= b < doc.drop_last().len() && #[trigger] prev[a].0 == doc
                                .drop_last()[b].0;
                        assert(cur[a].0 == doc[b].0);
                    } else {
                        assert(cur[a].0 == doc[doc.len() - 1].0);
                    }
                }
                assert forall|a: int, b: int| 0 <= a < b < cur.len() implies cur[a].0
                    != cur[b].0 by {
                    if b < prev.len() {
                    } else {
                        let w = choose|w: int|
                            0 <= w < doc.drop_last().len() && #[trigger] prev[a].0 == doc
                                .drop_last()[w].0;
                        assert(doc[w].0 != doc[doc.len() - 1].0);
                        assert(cur[b].0 == doc[doc.len() - 1].0);
                    }
                }
            },
            None => {},
        }
    }
}

impl ResourceStore {
    /// Model of the dataset: resource name to resource value, in order.
    pub closed spec fn doc(&self) -> Seq<(Seq<char>, JsonV)> {
        obj_view(self.data@)
    }

    /// Model of the counter table: resource name to next identifier.
    pub closed spec fn counters(&self) -> Seq<(Seq<char>, int)> {
        counters_view(self.id_counters@)
    }

    /// Well-formedness: no resource name occurs twice in the dataset nor
    /// in the counter table.
    pub open spec fn wf(&self) -> bool {
        unique_keys(self.doc()) && unique_keys(self.counters())
    }

    /// Builds a store over the given dataset, seeding one identifier
    /// counter per resource from the largest integer `id` present.
    pub fn new(initial_data: Vec<(String, Json)>) -> (s: ResourceStore)
        ensures
            s.doc() == obj_view(initial_data@),
            s.counters() == spec_seed_counters(obj_view(initial_data@)),
            unique_keys(obj_view(initial_data@)) ==> s.wf(),
    {
        let mut id_counters: Vec<(String, i64)> = Vec::new();
        let doc = Ghost(obj_view(initial_data@));
        let mut k: usize = 0;
        while k < initial_data.len()
            invariant
                k <= initial_data@.len(),
                doc@ == obj_view(initial_data@),
                counters_view(id_counters@) =~= spec_seed_counters(doc@.take(k as int)),
            decreases initial_data@.len() - k,
        {
            let seed: Option<i64> = seed_of(&initial_data[k].1);
            proof {
                assert(doc@.take(k + 1).drop_last() =~= doc@.take(k as int));
                assert(doc@.take(k + 1).last() == doc@[k as int]);
            }
            match seed {
                Some(c) => {
                    let name = initial_data[k].0.clone();
                    id_counters.push((name, c));
                    proof {
                        assert(counters_view(id_counters@) =~= spec_seed_counters(
                            doc@.take(k + 1),
                        ));
                    }
                },
                None => {
                    proof {
                        assert(counters_view(id_counters@) =~= spec_seed_counters(
                            doc@.take(k + 1),
                        ));
                    }
                },
            }
            k = k + 1;
        }
        proof {
            assert(doc@.take(initial_data@.len() as int) =~= doc@);
            if unique_keys(obj_view(initial_data@)) {
                lemma_seed_counters_unique(obj_view(initial_data@));
            }
        }
        ResourceStore { data: initial_data, id_counters }
    }

    /// All resource names, in dataset order.
    pub fn get_resources(&self) -> (r: Vec<String>)
        ensures
            r@.len() == self.doc().len(),
            forall|i: int| 0 <= i < r@.len() ==> r@[i]@ == self.doc()[i].0,
    {
        let mut out: Vec<String> = Vec::new();
        let mut k: usize = 0;
        while k < self.data.len()
            invariant
                k <= self.data@.len(),
                out@.len() == k,
                forall|i: int| 0 <= i < k ==> out@[i]@ == self.doc()[i].0,
            decreases self.data@.len() - k,
        {
            out.push(self.data[k].0.clone());
            k = k + 1;
        }
        out
    }

    /// A snapshot of the full value stored under the resource name, if the
    /// resource exists.
    pub fn get_collection(&self, resource: &str) -> (r: Option<Json>)
        ensures
            match r {
                Some(v) => alist_lookup(self.doc(), resource@) == Some(v@),
                None => alist_lookup(self.doc(), resource@) is None,
            },
    {
        match find_entry(&self.data, resource) {
            Some(i) => Some(self.data[i].1.clone()),
            None => None,
        }
    }

    /// A snapshot of the item matched by the identifier string: the first
    /// match in a collection, or the singleton itself when its own `id`
    /// matches.
    #[verifier::loop_isolation(false)]
    pub fn get_item(&self, resource: &str, id: &str) -> (r: Option<Json>)
        ensures
            match r {
                Some(v) => spec_get_item(self.doc(), resource@, id@) == Some(v@),
                None => spec_get_item(self.doc(), resource@, id@) is None,
            },
    {
        let idx = match find_entry(&self.data, resource) {
            Some(i) => i,
            None => {
                return None;
            },
        };
        proof {
            assert(self.doc()[idx as int] == (self.data@[idx as int].0@, self.data@[idx as int].1@));
        }
        let value = &self.data[idx].1;
        match value {
            Json::Arr(items) => {
                match find_item(items, id) {
                    Some(j) => {
                        proof {
                            assert(crate::json::arr_view(items@)[j as int] == items@[j as int]@);
                        }
                        Some(items[j].clone())
                    },
                    None => None,
                }
            },
            Json::Obj(_) => {
                if matches_item(value, id) {
                    Some(value.clone())
                } else {
                    None
                }
            },
            _ => None,
        }
    }

    /// Stores a new item under the resource name: the next counter value
    /// becomes the item's `id`, overwriting any client-supplied one, the
    /// counter moves past it, and the item joins the resource as
    /// `spec_create_doc` describes. Always succeeds and returns the stored
    /// item.
    #[verifier::loop_isolation(false)]
    pub fn create_item(&mut self, resource: &str, item: Json) -> (r: Json)
        ensures
            final(self).doc() == spec_create_doc(
                old(self).doc(),
                resource@,
                spec_created_item(old(self).counters(), resource@, item@),
            ),
            final(self).counters() == spec_create_counters(
                old(self).counters(),
                resource@,
                item@,
            ),
            r@ == spec_created_item(old(self).counters(), resource@, item@),
            old(self).wf() ==> final(self).wf(),
    {
        let ghost counters0 = self.counters();
        let ghost doc0 = self.doc();
        let ghost c1 = if alist_has(counters0, resource@) {
            counters0
        } else {
            counters0.push((resource@, 1))
        };
        let ci: usize = match find_counter(&self.id_counters, resource) {
            Some(i) => i,
            None => {
                self.id_counters.push((String::from_str(resource), 1));
                proof {
                    crate::json::lemma_alist_index_push(counters0, (resource@, 1), resource@);
                    assert(self.counters() =~= c1);
                }
                self.id_counters.len() - 1
            },
        };
        proof {
            assert(self.counters() =~= c1);
            assert(alist_index(c1, resource@) == ci);
            lemma_alist_index(c1, resource@);
        }
        let next: i64 = self.id_counters[ci].1;
        proof {
            assert(next as int == spec_next_id(counters0, resource@));
        }
        let mut item = item;
        let ghost item0 = item@;
        if let Json::Obj(fields) = &mut item {
            crate::json::obj_set(fields, "id", Json::Int(next));
            let bumped: i64 = if next < i64::MAX {
                next + 1
            } else {
                i64::MAX
            };
            let centry = self.id_counters.remove(ci);
            self.id_counters.insert(ci, (centry.0, bumped));
            proof {
                assert(self.counters() =~= alist_update(
                    c1,
                    resource@,
                    clamp_id(spec_next_id(counters0, resource@) + 1),
                ));
            }
        }
        proof {
            assert(self.counters() == spec_create_counters(counters0, resource@, item0));
            assert(item@ == spec_created_item(counters0, resource@, item0));
            lemma_alist_update(c1, resource@, clamp_id(spec_next_id(counters0, resource@) + 1));
            lemma_alist_update(counters0, resource@, 1);
            if old(self).wf() {
                assert(unique_keys(self.counters()));
            }
        }
        let ghost item2 = item@;
        match find_entry(&self.data, resource) {
            Some(k) => {
                proof {
                    lemma_alist_index(doc0, resource@);
                    assert(doc0[k as int] == (self.data@[k as int].0@, self.data@[k as int].1@));
                }
                let entry = self.data.remove(k);
                let name = entry.0;
                match entry.1 {
                    Json::Arr(mut items) => {
                        let ghost items0 = crate::json::arr_view(items@);
                        items.push(item.clone());
                        proof {
                            assert(crate::json::arr_view(items@) =~= items0.push(item2));
                        }
                        self.data.insert(k, (name, Json::Arr(items)));
                        proof {
                            assert(self.doc() =~= alist_update(
                                doc0,
                                resource@,
                                JsonV::Arr(items0.push(item2)),
                            ));
                            lemma_alist_update(doc0, resource@, JsonV::Arr(items0.push(item2)));
                        }
                    },
                    other => {
                        let ghost old_value = other@;
                        let mut arr: Vec<Json> = Vec::new();
                        arr.push(other);
                        arr.push(item.clone());
                        proof {
                            assert(crate::json::arr_view(arr@) =~= seq![old_value, item2]);
                        }
                        self.data.insert(k, (name, Json::Arr(arr)));
                        proof {
                            assert(self.doc() =~= alist_update(
                                doc0,
                                resource@,
                                JsonV::Arr(seq![old_value, item2]),
                            ));
                            lemma_alist_update(
                                doc0,
                                resource@,
                                JsonV::Arr(seq![old_value, item2]),
                            );
                        }
                    },
                }
            },
            None => {
                let mut arr: Vec<Json> = Vec::new();
                arr.push(item.clone());
                self.data.push((String::from_str(resource), Json::Arr(arr)));
                proof {
                    assert(crate::json::arr_view(arr@) =~= seq![item2]);
                    assert(self.doc() =~= doc0.push((resource@, JsonV::Arr(seq![item2]))));
                    lemma_alist_update(doc0, resource@, JsonV::Arr(seq![item2]));
                    assert(doc0.push((resource@, JsonV::Arr(seq![item2]))) == alist_update(
                        doc0,
                        resource@,
                        JsonV::Arr(seq![item2]),
                    ));
                }
            },
        }
        item
    }

    /// Merges the patch into the item matched by the identifier string:
    /// every patch key except `id` overwrites or extends the item's
    /// fields; the stored `id` is immutable. Returns the updated item, or
    /// nothing when no item matches.
    #[verifier::loop_isolation(false)]
    pub fn update_item(&mut self, resource: &str, id: &str, updates: Json) -> (r: Option<Json>)
        ensures
            final(self).doc() == spec_update(old(self).doc(), resource@, id@, updates@).0,
            final(self).counters() == old(self).counters(),
            match r {
                Some(v) => spec_update(old(self).doc(), resource@, id@, updates@).1 == Some(v@),
                None => spec_update(old(self).doc(), resource@, id@, updates@).1 is None,
            },
            old(self).wf() ==> final(self).wf(),
    {
        let ghost doc0 = self.doc();
        let k = match find_entry(&self.data, resource) {
            Some(k) => k,
            None => {
                return None;
            },
        };
        proof {
            assert(doc0[k as int] == (self.data@[k as int].0@, self.data@[k as int].1@));
            lemma_alist_index(doc0, resource@);
        }
        let entry = self.data.remove(k);
        let name = entry.0;
        match entry.1 {
            Json::Arr(mut items) => {
                let ghost items0 = crate::json::arr_view(items@);
                match find_item(&items, id) {
                    None => {
                        self.data.insert(k, (name, Json::Arr(items)));
                        proof {
                            assert(self.doc() =~= doc0);
                        }
                        None
                    },
                    Some(j) => {
                        let mut target = items.remove(j);
                        if let Json::Obj(tf) = &mut target {
                            if let Json::Obj(pf) = &updates {
                                patch_fields(tf, pf);
                            }
                        }
                        proof {
                            assert(target@ == spec_apply_patch(items0[j as int], updates@));
                        }
                        let ret = target.clone();
                        items.insert(j, target);
                        proof {
                            assert(crate::json::arr_view(items@) =~= items0.update(
                                j as int,
                                spec_apply_patch(items0[j as int], updates@),
                            ));
                        }
                        self.data.insert(k, (name, Json::Arr(items)));
                        proof {
                            let newv = JsonV::Arr(
                                items0.update(
                                    j as int,
                                    spec_apply_patch(items0[j as int], updates@),
                                ),
                            );
                            assert(self.doc() =~= alist_update(doc0, resource@, newv));
                            lemma_alist_update(doc0, resource@, newv);
                        }
                        Some(ret)
                    },
                }
            },
            Json::Obj(mut fields) => {
                let is_match = match crate::json::obj_get(&fields, "id") {
                    Some(v) => crate::ids::id_value_matches(v, id),
                    None => false,
                };
                if is_match {
                    if let Json::Obj(pf) = &updates {
                        patch_fields(&mut fields, pf);
                    }
                    let stored = Json::Obj(fields);
                    proof {
                        assert(stored@ == spec_apply_patch(doc0[k as int].1, updates@));
                    }
                    let ret = stored.clone();
                    self.data.insert(k, (name, stored));
                    proof {
                        let newv = spec_apply_patch(doc0[k as int].1, updates@);
                        assert(self.doc() =~= alist_update(doc0, resource@, newv));
                        lemma_alist_update(doc0, resource@, newv);
                    }
                    Some(ret)
                } else {
                    self.data.insert(k, (name, Json::Obj(fields)));
                    proof {
                        assert(self.doc() =~= doc0);
                    }
                    None
                }
            },
            other => {
                self.data.insert(k, (name, other));
                proof {
                    assert(self.doc() =~= doc0);
                }
                None
            },
        }
    }

    /// Removes the item matched by the identifier string: the first match
    /// leaves a collection; a matched singleton is replaced by an empty
    /// object, the resource name staying present. Returns whether a
    /// removal occurred.
    #[verifier::loop_isolation(false)]
    pub fn delete_item(&mut self, resource: &str, id: &str) -> (r: bool)
        ensures
            final(self).doc() == spec_delete(old(self).doc(), resource@, id@).0,
            r == spec_delete(old(self).doc(), resource@, id@).1,
            final(self).counters() == old(self).counters(),
            old(self).wf() ==> final(self).wf(),
    {
        let ghost doc0 = self.doc();
        let k = match find_entry(&self.data, resource) {
            Some(k) => k,
            None => {
                return false;
            },
        };
        proof {
            assert(doc0[k as int] == (self.data@[k as int].0@, self.data@[k as int].1@));
            lemma_alist_index(doc0, resource@);
        }
        let entry = self.data.remove(k);
        let name = entry.0;
        match entry.1 {
            Json::Arr(mut items) => {
                let ghost items0 = crate::json::arr_view(items@);
                match find_item(&items, id) {
                    Some(j) => {
                        let _removed = items.remove(j);
                        proof {
                            assert(crate::json::arr_view(items@) =~= items0.remove(j as int));
                        }
                        self.data.insert(k, (name, Json::Arr(items)));
                        proof {
                            let newv = JsonV::Arr(items0.remove(j as int));
                            assert(self.doc() =~= alist_update(doc0, resource@, newv));
                            lemma_alist_update(doc0, resource@, newv);
                        }
                        true
                    },
                    None => {
                        self.data.insert(k, (name, Json::Arr(items)));
                        proof {
                            assert(self.doc() =~= doc0);
                        }
                        false
                    },
                }
            },
            Json::Obj(fields) => {
                let is_match = match crate::json::obj_get(&fields, "id") {
                    Some(v) => crate::ids::id_value_matches(v, id),
                    None => false,
                };
                if is_match {
                    let empty: Vec<(String, Json)> = Vec::new();
                    proof {
                        assert(obj_view(empty@) =~= Seq::<(Seq<char>, JsonV)>::empty());
                    }
                    self.data.insert(k, (name, Json::Obj(empty)));
                    proof {
                        let newv = JsonV::Obj(Seq::empty());
                        assert(self.doc() =~= alist_update(doc0, resource@, newv));
                        lemma_alist_update(doc0, resource@, newv);
                    }
                    true
                } else {
                    self.data.insert(k, (name, Json::Obj(fields)));
                    proof {
                        assert(self.doc() =~= doc0);
                    }
                    false
                }
            },
            other => {
                self.data.insert(k, (name, other));
                proof {
                    assert(self.doc() =~= doc0);
                }
                false
            },
        }
    }
}

/// The identifier the next item created under this resource name receives.
pub open spec fn spec_next_id(counters: Seq<(Seq<char>, int)>, name: Seq<char>) -> int {
    match alist_lookup(counters, name) {
        Some(c) => c,
        None => 1,
    }
}

/// An object item with its `id` field set; any other value is unchanged.
pub open spec fn spec_assign_id(item: JsonV, id: int) -> JsonV {
    match item {
        JsonV::Obj(fields) => JsonV::Obj(alist_update(fields, "id"@, JsonV::Int(id))),
        _ => item,
    }
}

/// The item `create_item` stores and returns.
pub open spec fn spec_created_item(
    counters: Seq<(Seq<char>, int)>,
    name: Seq<char>,
    item: JsonV,
) -> JsonV {
    spec_assign_id(item, spec_next_id(counters, name))
}

/// The counter table after a create: an absent counter first appears as
/// one, and an object item bumps the counter past the identifier it took
/// (capped at the largest representable identifier).
pub open spec fn spec_create_counters(
    counters: Seq<(Seq<char>, int)>,
    name: Seq<char>,
    item: JsonV,
) -> Seq<(Seq<char>, int)> {
    let c1 = if alist_has(counters, name) {
        counters
    } else {
        counters.push((name, 1))
    };
    if item is Obj {
        alist_update(c1, name, clamp_id(spec_next_id(counters, name) + 1))
    } else {
        c1
    }
}

/// The dataset after a create: the item appends to an existing collection;
/// any other existing value is promoted to a collection holding the old
/// value then the item; an absent resource becomes a new collection.
pub open spec fn spec_create_doc(
    doc: Seq<(Seq<char>, JsonV)>,
    name: Seq<char>,
    item2: JsonV,
) -> Seq<(Seq<char>, JsonV)> {
    match alist_lookup(doc, name) {
        Some(JsonV::Arr(items)) => alist_update(doc, name, JsonV::Arr(items.push(item2))),
        Some(old_value) => alist_update(doc, name, JsonV::Arr(seq![old_value, item2])),
        None => doc.push((name, JsonV::Arr(seq![item2]))),
    }
}

/// Object fields after a patch object is folded in: every patch key except
/// `id` overwrites or extends the fields, in patch order.
pub open spec fn apply_patch_entries(
    fields: Seq<(Seq<char>, JsonV)>,
    pf: Seq<(Seq<char>, JsonV)>,
) -> Seq<(Seq<char>, JsonV)>
    decreases pf.len(),
{
    if pf.len() == 0 {
        fields
    } else {
        let prev = apply_patch_entries(fields, pf.drop_last());
        if pf.last().0 == "id"@ {
            prev
        } else {
            alist_update(prev, pf.last().0, pf.last().1)
        }
    }
}

/// An item after a patch: a patch that is not an object changes nothing.
pub open spec fn spec_apply_patch(item: JsonV, patch: JsonV) -> JsonV {
    match (item, patch) {
        (JsonV::Obj(fields), JsonV::Obj(pf)) => JsonV::Obj(apply_patch_entries(fields, pf)),
        _ => item,
    }
}

/// What `update_item` does on the model: the new dataset and the updated
/// item, where one was matched.
pub open spec fn spec_update(
    doc: Seq<(Seq<char>, JsonV)>,
    name: Seq<char>,
    id: Seq<char>,
    patch: JsonV,
) -> (Seq<(Seq<char>, JsonV)>, Option<JsonV>) {
    match alist_lookup(doc, name) {
        Some(JsonV::Arr(items)) => {
            let j = first_match(items, id);
            if j < 0 {
                (doc, None)
            } else {
                let item2 = spec_apply_patch(items[j], patch);
                (alist_update(doc, name, JsonV::Arr(items.update(j, item2))), Some(item2))
            }
        },
        Some(JsonV::Obj(fields)) => {
            if item_matches(JsonV::Obj(fields), id) {
                let item2 = spec_apply_patch(JsonV::Obj(fields), patch);
                (alist_update(doc, name, item2), Some(item2))
            } else {
                (doc, None)
            }
        },
        _ => (doc, None),
    }
}

/// What `delete_item` does on the model: a matched collection item is
/// removed; a matched singleton is replaced by an empty object, the
/// resource name staying present.
pub open spec fn spec_delete(
    doc: Seq<(Seq<char>, JsonV)>,
    name: Seq<char>,
    id: Seq<char>,
) -> (Seq<(Seq<char>, JsonV)>, bool) {
    match alist_lookup(doc, name) {
        Some(JsonV::Arr(items)) => {
            let j = first_match(items, id);
            if j < 0 {
                (doc, false)
            } else {
                (alist_update(doc, name, JsonV::Arr(items.remove(j))), true)
            }
        },
        Some(JsonV::Obj(fields)) => {
            if item_matches(JsonV::Obj(fields), id) {
                (alist_update(doc, name, JsonV::Obj(Seq::empty())), true)
            } else {
                (doc, false)
            }
        },
        _ => (doc, false),
    }
}

/// What `get_item` yields on the model.
pub open spec fn spec_get_item(
    doc: Seq<(Seq<char>, JsonV)>,
    name: Seq<char>,
    id: Seq<char>,
) -> Option<JsonV> {
    match alist_lookup(doc, name) {
        Some(JsonV::Arr(items)) => {
            let j = first_match(items, id);
            if j < 0 {
                None
            } else {
                Some(items[j])
            }
        },
        Some(JsonV::Obj(fields)) => if item_matches(JsonV::Obj(fields), id) {
            Some(JsonV::Obj(fields))
        } else {
            None
        },
        _ => None,
    }
}

/// Index of the counter entry carrying the name, if any.
#[verifier::loop_isolation(false)]
fn find_counter(counters: &Vec<(String, i64)>, name: &str) -> (r: Option<usize>)
    ensures
        match r {
            Some(i) => i < counters@.len() && alist_index(counters_view(counters@), name@) == i,
            None => alist_index(counters_view(counters@), name@) < 0,
        },
{
    let mut k: usize = 0;
    while k < counters.len()
        invariant
            k <= counters@.len(),
            forall|j: int| 0 <= j < k ==> counters_view(counters@)[j].0 != name@,
        decreases counters@.len() - k,
    {
        if crate::json::str_eq(counters[k].0.as_str(), name) {
            proof {
                assert(counters_view(counters@)[k as int].0 == name@);
                lemma_alist_index(counters_view(counters@), name@);
                assert(alist_index(counters_view(counters@), name@) == k);
            }
            return Some(k);
        }
        k = k + 1;
    }
    proof {
        lemma_alist_index(counters_view(counters@), name@);
    }
    None
}

/// Index of the first item matched by the identifier string, if any.
#[verifier::loop_isolation(false)]
fn find_item(items: &Vec<Json>, id: &str) -> (r: Option<usize>)
    ensures
        match r {
            Some(j) => j < items@.len() && first_match(crate::json::arr_view(items@), id@) == j,
            None => first_match(crate::json::arr_view(items@), id@) < 0,
        },
{
    let ghost model = crate::json::arr_view(items@);
    let mut j: usize = 0;
    while j < items.len()
        invariant
            j <= items@.len(),
            forall|m: int| 0 <= m < j ==> !item_matches(model[m], id@),
        decreases items@.len() - j,
    {
        proof {
            assert(model[j as int] == items@[j as int]@);
        }
        if matches_item(&items[j], id) {
            proof {
                lemma_first_match(model, id@);
                assert(first_match(model, id@) == j);
            }
            return Some(j);
        }
        j = j + 1;
    }
    proof {
        lemma_first_match(model, id@);
    }
    None
}

/// Folds a patch object's fields into an item's fields, skipping `id`.
#[verifier::loop_isolation(false)]
fn patch_fields(fields: &mut Vec<(String, Json)>, pf: &Vec<(String, Json)>)
    ensures
        obj_view(final(fields)@) == apply_patch_entries(obj_view(old(fields)@), obj_view(pf@)),
{
    let mut p: usize = 0;
    while p < pf.len()
        invariant
            p <= pf@.len(),
            obj_view(fields@) == apply_patch_entries(
                obj_view(old(fields)@),
                obj_view(pf@).take(p as int),
            ),
        decreases pf@.len() - p,
    {
        proof {
            assert(obj_view(pf@).take(p + 1).drop_last() =~= obj_view(pf@).take(p as int));
            assert(obj_view(pf@).take(p + 1).last() == obj_view(pf@)[p as int]);
        }
        if !crate::json::str_eq(pf[p].0.as_str(), "id") {
            let val = pf[p].1.clone();
            crate::json::obj_set(fields, pf[p].0.as_str(), val);
        }
        p = p + 1;
    }
    proof {
        assert(obj_view(pf@).take(pf@.len() as int) =~= obj_view(pf@));
    }
}

/// The counter a resource value seeds, executable form.
#[verifier::loop_isolation(false)]
fn seed_of(value: &Json) -> (r: Option<i64>)
    ensures
        match r {
            Some(c) => spec_seed_of(value@) == Some(c as int),
            None => spec_seed_of(value@) is None,
        },
{
    match value {
        Json::Arr(items) => {
            let ghost model = crate::json::arr_view(items@);
            let mut m: Option<i64> = None;
            let mut j: usize = 0;
            while j < items.len()
                invariant
                    j <= items@.len(),
                    model == crate::json::arr_view(items@),
                    match m {
                        Some(x) => spec_max_id(model.take(j as int)) == Some(x as int),
                        None => spec_max_id(model.take(j as int)) is None,
                    },
                decreases items@.len() - j,
            {
                let idj: Option<i64> = match &items[j] {
                    Json::Obj(fields) => match crate::json::obj_get(fields, "id") {
                        Some(Json::Int(i)) => Some(*i),
                        _ => None,
                    },
                    _ => None,
                };
                proof {
                    assert(model.take(j + 1).drop_last() =~= model.take(j as int));
                    assert(model.take(j + 1).last() == model[j as int]);
                }
                m = match (m, idj) {
                    (Some(a), Some(b)) => Some(
                        if a >= b {
                            a
                        } else {
                            b
                        },
                    ),
                    (Some(a), None) => Some(a),
                    (None, b) => b,
                };
                j = j + 1;
            }
            proof {
                assert(model.take(items@.len() as int) =~= model);
            }
            match m {
                Some(x) => {
                    if x < i64::MAX {
                        Some(x + 1)
                    } else {
                        Some(i64::MAX)
                    }
                },
                None => Some(1),
            }
        },
        Json::Obj(fields) => match crate::json::obj_get(fields, "id") {
            Some(Json::Int(i)) => {
                if *i < i64::MAX {
                    Some(*i + 1)
                } else {
                    Some(i64::MAX)
                }
            },
            _ => None,
        },
        _ => None,
    }
}

} // verus!
