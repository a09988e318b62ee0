//! The decoded value tree: a tagged union over strings, integers,
//! lists, and insertion-ordered dictionaries, together with its
//! mathematical model and the dictionary insertion operation.

use vstd::prelude::*;

verus! {

broadcast use vstd::std_specs::vec::axiom_vec_index_decreases;

/// Mathematical model of a decoded bencode value.
pub enum SpecValue {
    Str(Seq<char>),
    Int(int),
    List(Seq<SpecValue>),
    Dict(Seq<(Seq<char>, SpecValue)>),
}

/// A decoded bencode value. Dictionaries keep their keys in insertion
/// order and hold each key at most once (a repeated key overwrites the
/// value already stored, keeping the key's original position).
#[derive(Debug, PartialEq, Eq)]
pub enum Value {
    Str(String),
    Int(i64),
    List(Vec<Value>),
    Dict(Vec<(String, Value)>),
}

impl Value {
    /// The mathematical value this tree stands for. (The index guards
    /// inside the closures only settle the termination check; the
    /// out-of-range branches are never reached.)
    pub open spec fn deep_view(self) -> SpecValue
        decreases self,
    {
        match self {
            Value::Str(s) => SpecValue::Str(s@),
            Value::Int(n) => SpecValue::Int(n as int),
            Value::List(vs) => SpecValue::List(
                Seq::new(
                    vs@.len(),
                    |k: int|
                        if 0 <= k < vs@.len() {
                            vs[k].deep_view()
                        } else {
                            SpecValue::Int(0)
                        },
                ),
            ),
            Value::Dict(ps) => SpecValue::Dict(
                Seq::new(
                    ps@.len(),
                    |k: int|
                        if 0 <= k < ps@.len() {
                            (ps[k].0@, ps[k].1.deep_view())
                        } else {
                            (Seq::empty(), SpecValue::Int(0))
                        },
                ),
            ),
        }
    }
}

/// The model of a vector of list elements.
pub open spec fn elems_view(vs: Seq<Value>) -> Seq<SpecValue> {
    Seq::new(vs.len(), |k: int| vs[k].deep_view())
}

/// The model of a vector of dictionary entries.
pub open spec fn pairs_view(ps: Seq<(String, Value)>) -> Seq<(Seq<char>, SpecValue)> {
    Seq::new(ps.len(), |k: int| (ps[k].0@, ps[k].1.deep_view()))
}

/// Whether some entry of `ps` carries the key `k`.
pub open spec fn dict_has_key(ps: Seq<(Seq<char>, SpecValue)>, k: Seq<char>) -> bool {
    exists|j: int| 0 <= j < ps.len() && ps[j].0 == k
}

/// Whether no two entries of `ps` carry the same key.
pub open spec fn dict_distinct_keys(ps: Seq<(Seq<char>, SpecValue)>) -> bool {
    forall|j1: int, j2: int| 0 <= j1 < j2 < ps.len() ==> ps[j1].0 != ps[j2].0
}

/// Insertion into a dictionary: a new key is appended, so iteration
/// order is insertion order; a repeated key keeps its original
/// position and the latest value wins.
pub open spec fn spec_dict_insert(
    ps: Seq<(Seq<char>, SpecValue)>,
    k: Seq<char>,
    v: SpecValue,
) -> Seq<(Seq<char>, SpecValue)> {
    if dict_has_key(ps, k) {
        let j = choose|j: int| 0 <= j < ps.len() && ps[j].0 == k;
        ps.update(j, (k, v))
    } else {
        ps.push((k, v))
    }
}

/// Inserting never breaks key distinctness.
pub proof fn lemma_dict_insert_distinct(
    ps: Seq<(Seq<char>, SpecValue)>,
    k: Seq<char>,
    v: SpecValue,
)
    requires
        dict_distinct_keys(ps),
    ensures
        dict_distinct_keys(spec_dict_insert(ps, k, v)),
{
}

/// A key not yet present is appended: dictionary decoding keeps key
/// insertion order.
pub proof fn lemma_dict_insert_new_key(
    ps: Seq<(Seq<char>, SpecValue)>,
    k: Seq<char>,
    v: SpecValue,
)
    requires
        !dict_has_key(ps, k),
    ensures
        spec_dict_insert(ps, k, v) == ps.push((k, v)),
{
}

/// Insert `(key, val)` into the entry vector: replace the value in
/// place when the key is already present, append otherwise.
pub fn dict_insert(items: &mut Vec<(String, Value)>, key: String, val: Value)
    requires
        dict_distinct_keys(pairs_view(old(items)@)),
    ensures
        pairs_view(final(items)@) == spec_dict_insert(
            pairs_view(old(items)@),
            key@,
            val.deep_view(),
        ),
        dict_distinct_keys(pairs_view(final(items)@)),
{
    proof {
        lemma_dict_insert_distinct(pairs_view(items@), key@, val.deep_view());
    }
    let n = items.len();
    let mut idx: usize = 0;
    while idx < n
        invariant
            idx <= n,
            n == items@.len(),
            *items == *old(items),
            dict_distinct_keys(pairs_view(items@)),
            forall|j: int| 0 <= j < idx ==> items@[j].0@ != key@,
        decreases n - idx,
    {
        if items[idx].0 == key {
            let ghost ps = pairs_view(items@);
            items[idx] = (key, val);
            proof {
                assert(ps[idx as int].0 == key@);
                assert(dict_has_key(ps, key@));
                let j = choose|j: int| 0 <= j < ps.len() && ps[j].0 == key@;
                assert(dict_distinct_keys(ps));
                assert(j == idx);
                assert(pairs_view(items@) =~= spec_dict_insert(ps, key@, val.deep_view()));
            }
            return;
        }
        idx += 1;
    }
    let ghost ps = pairs_view(items@);
    items.push((key, val));
    proof {
        assert(!dict_has_key(ps, key@));
        assert(pairs_view(items@) =~= spec_dict_insert(ps, key@, val.deep_view()));
    }
}

} // verus!
