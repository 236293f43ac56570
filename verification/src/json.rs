//! The dynamically-typed JSON tree that the store and the merge engine
//! operate on, together with its mathematical model.
use vstd::prelude::*;

verus! {

/// A JSON value. Numbers are restricted to signed 64-bit integers, which
/// is what identifier assignment and counter seeding work with.
#[derive(Debug, PartialEq, Eq)]
pub enum Json {
    Null,
    Bool(bool),
    Int(i64),
    Str(String),
    Arr(Vec<Json>),
    Obj(Vec<(String, Json)>),
}

/// The mathematical model of a `Json` value: strings become character
/// sequences, arrays become sequences, objects become sequences of
/// key/value pairs (order and duplicates preserved).
#[verifier::ext_equal]
pub enum JsonV {
    Null,
    Bool(bool),
    Int(int),
    Str(Seq<char>),
    Arr(Seq<JsonV>),
    Obj(Seq<(Seq<char>, JsonV)>),
}

/// Model of a sequence of JSON array elements.
pub open spec fn arr_view(items: Seq<Json>) -> Seq<JsonV>
    decreases items,
{
    // the range guard gives the termination argument; `Seq::new` only
    // ever applies the closure in range
    Seq::new(
        items.len(),
        |i: int|
            if 0 <= i < items.len() {
                items[i]@
            } else {
                JsonV::Null
            },
    )
}

/// Model of a sequence of JSON object fields.
pub open spec fn obj_view(fields: Seq<(String, Json)>) -> Seq<(Seq<char>, JsonV)>
    decreases fields,
{
    Seq::new(
        fields.len(),
        |i: int|
            if 0 <= i < fields.len() {
                (fields[i].0@, fields[i].1@)
            } else {
                (Seq::empty(), JsonV::Null)
            },
    )
}

/// Index of the first entry with the given key, or -1 when absent.
pub open spec fn alist_index<V>(entries: Seq<(Seq<char>, V)>, key: Seq<char>) -> int
    decreases entries.len(),
{
    if entries.len() == 0 {
        -1
    } else if entries[0].0 == key {
        0
    } else {
        let r = alist_index(entries.drop_first(), key);
        if r < 0 {
            -1
        } else {
            r + 1
        }
    }
}

/// The value under the given key, going by the first matching entry.
pub open spec fn alist_lookup<V>(entries: Seq<(Seq<char>, V)>, key: Seq<char>) -> Option<V> {
    let i = alist_index(entries, key);
    if i < 0 {
        None
    } else {
        Some(entries[i].1)
    }
}

pub open spec fn alist_has<V>(entries: Seq<(Seq<char>, V)>, key: Seq<char>) -> bool {
    alist_index(entries, key) >= 0
}

/// Replaces the value of the first entry with the given key, or appends a
/// new entry at the end when the key is absent.
pub open spec fn alist_update<V>(entries: Seq<(Seq<char>, V)>, key: Seq<char>, v: V) -> Seq<
    (Seq<char>, V),
> {
    let i = alist_index(entries, key);
    if i < 0 {
        entries.push((key, v))
    } else {
        entries.update(i, (key, v))
    }
}

/// No two entries share a key.
pub open spec fn unique_keys<V>(entries: Seq<(Seq<char>, V)>) -> bool {
    forall|i: int, j: int|
        0 <= i < j < entries.len() ==> entries[i].0 != entries[j].0
}

/// `alist_index` finds the first matching entry: it lands on the key, and
/// nothing before it carries the key; when it reports absence, no entry
/// carries the key.
pub proof fn lemma_alist_index<V>(entries: Seq<(Seq<char>, V)>, key: Seq<char>)
    ensures
        alist_index(entries, key) >= 0 ==> {
            &&& alist_index(entries, key) < entries.len()
            &&& entries[alist_index(entries, key)].0 == key
            &&& forall|j: int| 0 <= j < alist_index(entries, key) ==> entries[j].0 != key
        },
        alist_index(entries, key) < 0 ==> forall|j: int|
            0 <= j < entries.len() ==> entries[j].0 != key,
    decreases entries.len(),
{
    if entries.len() == 0 {
    } else if entries[0].0 == key {
    } else {
        lemma_alist_index(entries.drop_first(), key);
        let r = alist_index(entries.drop_first(), key);
        if r >= 0 {
            assert(entries[r + 1] == entries.drop_first()[r]);
            assert forall|j: int| 0 <= j < r + 1 implies entries[j].0 != key by {
                if j > 0 {
                    assert(entries[j] == entries.drop_first()[j - 1]);
                }
            }
        } else {
            assert forall|j: int| 0 <= j < entries.len() implies entries[j].0 != key by {
                if j > 0 {
                    assert(entries[j] == entries.drop_first()[j - 1]);
                }
            }
        }
    }
}

/// Where a key first occurs in a list extended by one entry at the end.
pub proof fn lemma_alist_index_push<V>(entries: Seq<(Seq<char>, V)>, p: (Seq<char>, V), k: Seq<char>)
    ensures
        alist_index(entries.push(p), k) == if alist_has(entries, k) {
            alist_index(entries, k)
        } else if p.0 == k {
            entries.len() as int
        } else {
            -1
        },
    decreases entries.len(),
{
    if entries.len() == 0 {
        assert(entries.push(p)[0] == p);
        assert(entries.push(p).drop_first() =~= Seq::<(Seq<char>, V)>::empty());
        if p.0 == k {
            assert(alist_index(entries.push(p), k) == 0);
            assert(entries.len() as int == 0);
        } else {
            assert(alist_index(Seq::<(Seq<char>, V)>::empty(), k) == -1);
            assert(alist_index(entries.push(p), k) == -1);
        }
        assert(!alist_has(entries, k));
    } else {
        lemma_alist_index_push(entries.drop_first(), p, k);
        assert(entries.push(p).drop_first() =~= entries.drop_first().push(p));
        assert(entries.push(p)[0] == entries[0]);
        if entries[0].0 == k {
            assert(alist_index(entries.push(p), k) == 0);
            assert(alist_index(entries, k) == 0);
        } else {
            let r = alist_index(entries.drop_first().push(p), k);
            assert(alist_index(entries.push(p), k) == if r < 0 {
                -1
            } else {
                r + 1
            });
            let r0 = alist_index(entries.drop_first(), k);
            assert(alist_index(entries, k) == if r0 < 0 {
                -1
            } else {
                r0 + 1
            });
            if r0 >= 0 {
                assert(alist_has(entries, k));
                assert(r == r0);
                assert(alist_index(entries.push(p), k) == alist_index(entries, k));
            } else if p.0 == k {
                assert(!alist_has(entries, k));
                assert(r == entries.drop_first().len());
                assert(alist_index(entries.push(p), k) == entries.len() as int);
            } else {
                assert(!alist_has(entries, k));
                assert(r == -1);
                assert(alist_index(entries.push(p), k) == -1);
            }
        }
    }
}

/// Lookup in a list extended by one entry at the end.
pub proof fn lemma_alist_lookup_push<V>(entries: Seq<(Seq<char>, V)>, p: (Seq<char>, V), k: Seq<char>)
    ensures
        alist_lookup(entries.push(p), k) == if alist_has(entries, k) {
            alist_lookup(entries, k)
        } else if p.0 == k {
            Some(p.1)
        } else {
            None::<V>
        },
{
    lemma_alist_index_push(entries, p, k);
    lemma_alist_index(entries, k);
    assert(forall|m: int| 0 <= m < entries.len() ==> entries.push(p)[m] == entries[m]);
    assert(entries.push(p)[entries.len() as int] == p);
}

/// Two lists with the same keys at the same positions agree on where any
/// key first occurs.
pub proof fn lemma_alist_index_same_keys<V>(
    a: Seq<(Seq<char>, V)>,
    b: Seq<(Seq<char>, V)>,
    k: Seq<char>,
)
    requires
        a.len() == b.len(),
        forall|j: int| 0 <= j < a.len() ==> a[j].0 == b[j].0,
    ensures
        alist_index(a, k) == alist_index(b, k),
    decreases a.len(),
{
    if a.len() != 0 {
        lemma_alist_index_same_keys(a.drop_first(), b.drop_first(), k);
        assert(forall|j: int|
            0 <= j < a.drop_first().len() ==> a.drop_first()[j] == a[j + 1]
                && b.drop_first()[j] == b[j + 1]);
    }
}

/// After an update, looking the key up yields the new value, every other
/// key is untouched, and uniqueness of keys is preserved.
pub proof fn lemma_alist_update<V>(entries: Seq<(Seq<char>, V)>, key: Seq<char>, v: V)
    ensures
        alist_lookup(alist_update(entries, key, v), key) == Some(v),
        forall|k: Seq<char>|
            k != key ==> alist_lookup(alist_update(entries, key, v), k) == alist_lookup(
                entries,
                k,
            ),
        unique_keys(entries) ==> unique_keys(alist_update(entries, key, v)),
{
    lemma_alist_index(entries, key);
    let i = alist_index(entries, key);
    if i < 0 {
        let u = entries.push((key, v));
        lemma_alist_lookup_push(entries, (key, v), key);
        assert forall|k: Seq<char>| k != key implies alist_lookup(u, k) == alist_lookup(
            entries,
            k,
        ) by {
            lemma_alist_lookup_push(entries, (key, v), k);
        }
        if unique_keys(entries) {
            assert forall|a: int, b: int| 0 <= a < b < u.len() implies u[a].0 != u[b].0 by {
                if b < entries.len() {
                } else {
                    assert(u[b].0 == key);
                    assert(u[a].0 == entries[a].0);
                }
            }
        }
    } else {
        let u = entries.update(i, (key, v));
        assert(forall|m: int| 0 <= m < u.len() ==> u[m].0 == entries[m].0);
        lemma_alist_index_same_keys(u, entries, key);
        assert(alist_lookup(u, key) == Some(v));
        assert forall|k: Seq<char>| k != key implies alist_lookup(u, k) == alist_lookup(
            entries,
            k,
        ) by {
            lemma_alist_index_same_keys(u, entries, k);
            let j = alist_index(entries, k);
            if j >= 0 {
                lemma_alist_index(entries, k);
                assert(j != i);
            }
        }
    }
}

/// String equality on character sequences.
pub fn str_eq(a: &str, b: &str) -> (r: bool)
    ensures
        r == (a@ == b@),
{
    let sa = String::from_str(a);
    let sb = String::from_str(b);
    sa == sb
}

impl View for Json {
    type V = JsonV;

    open spec fn view(&self) -> JsonV
        decreases self,
    {
        match self {
            Json::Null => JsonV::Null,
            Json::Bool(b) => JsonV::Bool(*b),
            Json::Int(i) => JsonV::Int(*i as int),
            Json::Str(s) => JsonV::Str(s@),
            Json::Arr(items) => JsonV::Arr(arr_view(items@)),
            Json::Obj(fields) => JsonV::Obj(obj_view(fields@)),
        }
    }
}

/// The first value under `key` among an object's fields, if any.
#[verifier::loop_isolation(false)]
pub fn obj_get<'a>(fields: &'a Vec<(String, Json)>, key: &str) -> (r: Option<&'a Json>)
    ensures
        match r {
            Some(v) => alist_lookup(obj_view(fields@), key@) == Some(v@),
            None => alist_lookup(obj_view(fields@), key@) is None,
        },
{
    let mut k: usize = 0;
    while k < fields.len()
        invariant
            k <= fields@.len(),
            forall|j: int| 0 <= j < k ==> obj_view(fields@)[j].0 != key@,
        decreases fields@.len() - k,
    {
        if str_eq(fields[k].0.as_str(), key) {
            proof {
                assert(obj_view(fields@)[k as int].0 == key@);
                lemma_alist_index(obj_view(fields@), key@);
                assert(alist_index(obj_view(fields@), key@) == k);
            }
            return Some(&fields[k].1);
        }
        k = k + 1;
    }
    proof {
        lemma_alist_index(obj_view(fields@), key@);
    }
    None
}

/// Sets `key` to `val`: overwrites the first entry carrying `key`, or
/// appends a new entry when the key is absent.
#[verifier::loop_isolation(false)]
pub fn obj_set(fields: &mut Vec<(String, Json)>, key: &str, val: Json)
    ensures
        obj_view(final(fields)@) == alist_update(obj_view(old(fields)@), key@, val@),
{
    let mut k: usize = 0;
    while k < fields.len()
        invariant
            k <= fields@.len(),
            fields@ == old(fields)@,
            forall|j: int| 0 <= j < k ==> obj_view(fields@)[j].0 != key@,
        decreases fields@.len() - k,
    {
        if str_eq(fields[k].0.as_str(), key) {
            proof {
                assert(obj_view(fields@)[k as int].0 == key@);
                lemma_alist_index(obj_view(fields@), key@);
                assert(alist_index(obj_view(fields@), key@) == k);
            }
            let _replaced = fields.remove(k);
            fields.insert(k, (String::from_str(key), val));
            proof {
                assert(obj_view(fields@) =~= alist_update(obj_view(old(fields)@), key@, val@));
            }
            return;
        }
        k = k + 1;
    }
    proof {
        lemma_alist_index(obj_view(fields@), key@);
    }
    fields.push((String::from_str(key), val));
    proof {
        assert(obj_view(fields@) =~= alist_update(obj_view(old(fields)@), key@, val@));
    }
}

/// Index of the resource entry carrying the name, if any.
#[verifier::loop_isolation(false)]
pub fn find_entry(data: &Vec<(String, Json)>, name: &str) -> (r: Option<usize>)
    ensures
        match r {
            Some(i) => i < data@.len() && alist_index(obj_view(data@), name@) == i,
            None => alist_index(obj_view(data@), name@) < 0,
        },
{
    let mut k: usize = 0;
    while k < data.len()
        invariant
            k <= data@.len(),
            forall|j: int| 0 <= j < k ==> obj_view(data@)[j].0 != name@,
        decreases data@.len() - k,
    {
        if str_eq(data[k].0.as_str(), name) {
            proof {
                assert(obj_view(data@)[k as int].0 == name@);
                lemma_alist_index(obj_view(data@), name@);
                assert(alist_index(obj_view(data@), name@) == k);
            }
            return Some(k);
        }
        k = k + 1;
    }
    proof {
        lemma_alist_index(obj_view(data@), name@);
    }
    None
}

impl Clone for Json {
    /// A deep copy; the model of the copy is the model of the original.
    #[verifier::loop_isolation(false)]
    fn clone(&self) -> (r: Json)
        ensures
            r@ == self@,
        decreases self,
    {
        match self {
            Json::Null => Json::Null,
            Json::Bool(b) => Json::Bool(*b),
            Json::Int(i) => Json::Int(*i),
            Json::Str(s) => Json::Str(s.clone()),
            Json::Arr(items) => {
                let mut out: Vec<Json> = Vec::new();
                let mut k: usize = 0;
                while k < items.len()
                    invariant
                        k <= items@.len(),
                        out@.len() == k,
                        forall|j: int| 0 <= j < k ==> out@[j]@ == items@[j]@,
                    decreases items@.len() - k,
                {
                    out.push(items[k].clone());
                    k = k + 1;
                }
                proof {
                    assert(arr_view(out@) =~= arr_view(items@));
                }
                Json::Arr(out)
            },
            Json::Obj(fields) => {
                let mut out: Vec<(String, Json)> = Vec::new();
                let mut k: usize = 0;
                while k < fields.len()
                    invariant
                        k <= fields@.len(),
                        out@.len() == k,
                        forall|j: int|
                            0 <= j < k ==> out@[j].0@ == fields@[j].0@ && out@[j].1@
                                == fields@[j].1@,
                    decreases fields@.len() - k,
                {
                    let key = fields[k].0.clone();
                    let val = fields[k].1.clone();
                    out.push((key, val));
                    k = k + 1;
                }
                proof {
                    assert(obj_view(out@) =~= obj_view(fields@));
                }
                Json::Obj(out)
            },
        }
    }
}

} // verus!
