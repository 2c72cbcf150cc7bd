//! The model index: for each model key ever looked up, the address
//! descriptors observed for it, in arrival order. Entries are kept strictly
//! sorted by key for deterministic serialization; the value lists only grow
//! during a run.

use vstd::prelude::*;
use vstd::string::StringExecFns;

use crate::assoc::{
    has_key, map_of, sorted_strict, lemma_map_of_index, lemma_map_insert_at, lemma_map_remove_at,
};
use crate::strorder::{str_lt, str_cmp, Cmp, lemma_lt_neq, lemma_lt_trans, lemma_cmp_eq,
    lemma_cmp_flip};

verus! {

/// One indexed model key with the descriptors observed for it so far.
pub struct IndexEntry {
    pub key: String,
    pub values: Vec<String>,
}

/// The model index.
pub struct ModelIndex {
    pub entries: Vec<IndexEntry>,
}

/// How one lookup result changes the index, at the specification level:
/// the descriptor is appended to the key's list, which starts empty for a
/// key not seen before. No other key is changed.
pub open spec fn index_step(
    m: Map<Seq<char>, Seq<Seq<char>>>,
    k: Seq<char>,
    v: Seq<char>,
) -> Map<Seq<char>, Seq<Seq<char>>> {
    m.insert(
        k,
        (if m.dom().contains(k) {
            m[k]
        } else {
            Seq::empty()
        }).push(v),
    )
}

impl ModelIndex {
    /// The index contents as an ordered association sequence.
    pub open spec fn entry_seq(self) -> Seq<(Seq<char>, Seq<Seq<char>>)> {
        self.entries@.map(|i: int, r: IndexEntry| (r.key@, r.values.deep_view()))
    }

    /// The index contents as a map from key to descriptor list.
    pub open spec fn as_map(self) -> Map<Seq<char>, Seq<Seq<char>>> {
        map_of(self.entry_seq())
    }

    /// The ordering invariant.
    pub open spec fn wf(self) -> bool {
        sorted_strict(self.entry_seq())
    }

    /// An empty index.
    pub fn new() -> (r: ModelIndex)
        ensures
            r.wf(),
            r.entry_seq() == Seq::<(Seq<char>, Seq<Seq<char>>)>::empty(),
            r.as_map() == Map::<Seq<char>, Seq<Seq<char>>>::empty(),
    {
        let r = ModelIndex { entries: Vec::new() };
        proof {
            assert(r.entry_seq() =~= Seq::<(Seq<char>, Seq<Seq<char>>)>::empty());
            assert(r.as_map() =~= Map::<Seq<char>, Seq<Seq<char>>>::empty());
        }
        r
    }

    /// The number of indexed keys.
    pub fn len(&self) -> (r: usize)
        ensures
            r == self.entry_seq().len(),
    {
        self.entries.len()
    }

    /// Record one lookup result: append `value` to the descriptor list of
    /// `key`, creating the entry if the key is new.
    pub fn record_result(&mut self, key: &str, value: &str)
        requires
            old(self).wf(),
        ensures
            final(self).wf(),
            final(self).as_map() == index_step(old(self).as_map(), key@, value@),
    {
        let ghost e = self.entry_seq();
        let (p, eq) = scan_idx(&self.entries, key);
        if eq {
            proof {
                lemma_map_of_index(e, p as int);
            }
            let mut entry = self.entries.remove(p);
            let ghost vals = entry.values.deep_view();
            entry.values.push(String::from_str(value));
            proof {
                assert(entry.values.deep_view() =~= vals.push(value@));
            }
            let ghost e1 = self.entry_seq();
            proof {
                assert(e1 =~= e.remove(p as int));
                lemma_map_remove_at(e, p as int);
            }
            self.entries.insert(p, entry);
            proof {
                assert(self.entry_seq() =~= e1.take(p as int).push((key@, vals.push(value@)))
                    + e1.skip(p as int));
                assert(forall|j: int| 0 <= j < p ==> #[trigger] e1[j] == e[j]);
                assert(forall|j: int| p <= j < e1.len() ==> #[trigger] e1[j] == e[j + 1]);
                assert(!has_key(e1, key@)) by {
                    if has_key(e1, key@) {
                        let j = choose|j: int| 0 <= j < e1.len() && e1[j].0 == key@;
                        if j < p {
                            crate::assoc::lemma_sorted_distinct(e, j, p as int);
                        } else {
                            crate::assoc::lemma_sorted_distinct(e, j + 1, p as int);
                        }
                    }
                }
                lemma_map_insert_at(e1, p as int, key@, vals.push(value@));
                assert(map_of(e1).insert(key@, vals.push(value@)) =~= index_step(
                    map_of(e),
                    key@,
                    value@,
                ));
            }
        } else {
            let entry = IndexEntry { key: String::from_str(key), values: vec![String::from_str(value)] };
            let ghost vals = entry.values.deep_view();
            proof {
                assert(vals =~= Seq::<Seq<char>>::empty().push(value@));
            }
            self.entries.insert(p, entry);
            proof {
                assert(self.entry_seq() =~= e.take(p as int).push((key@, vals)) + e.skip(p as int));
                assert forall|j: int| p <= j < e.len() implies str_lt(key@, #[trigger] e[j].0) by {
                    if j > p {
                        lemma_lt_trans(key@, e[p as int].0, e[j].0);
                    }
                }
                lemma_map_insert_at(e, p as int, key@, vals);
                assert(map_of(e).insert(key@, vals) =~= index_step(map_of(e), key@, value@));
            }
        }
    }

    /// Read access for serialization: the entry at a position.
    pub fn entry_at(&self, i: usize) -> (r: &IndexEntry)
        requires
            i < self.entry_seq().len(),
        ensures
            r.key@ == self.entry_seq()[i as int].0,
            r.values.deep_view() == self.entry_seq()[i as int].1,
    {
        &self.entries[i]
    }
}

/// Lookup results are order-preserving and independent across keys: a key
/// first resolved to `d1` and then to `d2` lists exactly `[d1, d2]`, and a
/// later result for a different key leaves that list unchanged.
pub proof fn lemma_lookup_order_preserving(
    m: Map<Seq<char>, Seq<Seq<char>>>,
    k: Seq<char>,
    d1: Seq<char>,
    d2: Seq<char>,
    k2: Seq<char>,
    d3: Seq<char>,
)
    requires
        !m.dom().contains(k),
        k2 != k,
    ensures
        index_step(index_step(m, k, d1), k, d2)[k] =~= seq![d1, d2],
        index_step(index_step(index_step(m, k, d1), k, d2), k2, d3)[k] =~= seq![d1, d2],
{
    assert(index_step(m, k, d1)[k] =~= seq![d1]);
}

/// The index is append-only during a run: a lookup result never drops a
/// key, and only ever extends the list it lands in.
pub proof fn lemma_index_append_only(
    m: Map<Seq<char>, Seq<Seq<char>>>,
    k: Seq<char>,
    v: Seq<char>,
    k2: Seq<char>,
)
    requires
        m.dom().contains(k2),
    ensures
        index_step(m, k, v).dom().contains(k2),
        m[k2].is_prefix_of(index_step(m, k, v)[k2]),
{
    if k2 == k {
        assert(m[k2] =~= m[k2].push(v).take(m[k2].len() as int));
    }
}

/// Find the insertion position for `key` among the index entries.
fn scan_idx(entries: &Vec<IndexEntry>, key: &str) -> (r: (usize, bool))
    requires
        sorted_strict(entries@.map(|i: int, r: IndexEntry| (r.key@, r.values.deep_view()))),
    ensures
        ({
            let e = entries@.map(|i: int, r: IndexEntry| (r.key@, r.values.deep_view()));
            let p = r.0 as int;
            &&& r.0 <= e.len()
            &&& forall|j: int| 0 <= j < p ==> str_lt(#[trigger] e[j].0, key@)
            &&& r.1 ==> p < e.len() && e[p].0 == key@ && has_key(e, key@)
            &&& !r.1 ==> !has_key(e, key@)
            &&& !r.1 && p < e.len() ==> str_lt(key@, e[p].0)
        }),
{
    let ghost e = entries@.map(|i: int, r: IndexEntry| (r.key@, r.values.deep_view()));
    let n: usize = entries.len();
    let mut p: usize = 0;
    while p < n
        invariant
            p <= n,
            n == e.len(),
            e == entries@.map(|i: int, r: IndexEntry| (r.key@, r.values.deep_view())),
            sorted_strict(e),
            forall|j: int| 0 <= j < p ==> str_lt(#[trigger] e[j].0, key@),
        decreases n - p,
    {
        match str_cmp(entries[p].key.as_str(), key) {
            Cmp::Less => {
                p = p + 1;
            },
            Cmp::Equal => {
                proof {
                    lemma_cmp_eq(e[p as int].0, key@);
                    assert(e[p as int].0 == key@);
                    assert(has_key(e, key@));
                }
                return (p, true);
            },
            Cmp::Greater => {
                proof {
                    lemma_cmp_flip(key@, e[p as int].0);
                    lemma_no_key_idx(e, key@, p as int);
                }
                return (p, false);
            },
        }
    }
    proof {
        lemma_no_key_idx(e, key@, p as int);
    }
    (p, false)
}

proof fn lemma_no_key_idx(e: Seq<(Seq<char>, Seq<Seq<char>>)>, key: Seq<char>, p: int)
    requires
        sorted_strict(e),
        0 <= p <= e.len(),
        forall|j: int| 0 <= j < p ==> str_lt(#[trigger] e[j].0, key),
        p < e.len() ==> str_lt(key, e[p].0),
    ensures
        !has_key(e, key),
{
    assert forall|j: int| 0 <= j < e.len() implies (#[trigger] e[j].0) != key by {
        if j < p {
            lemma_lt_neq(e[j].0, key);
        } else if j == p {
            lemma_lt_neq(key, e[j].0);
        } else {
            lemma_lt_trans(key, e[p].0, e[j].0);
            lemma_lt_neq(key, e[j].0);
        }
    }
}

} // verus!
