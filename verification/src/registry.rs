//! The peer registry: a table of known peers keyed by peer identity,
//! kept strictly ordered by identity for deterministic serialization.

use vstd::prelude::*;
use vstd::string::StringExecFns;

use crate::assoc::{
    has_key, map_of, sorted_strict, lemma_map_of_index, lemma_map_insert_at, lemma_map_update_at,
    lemma_map_remove_at,
};
use crate::strorder::{str_lt, str_cmp, Cmp, lemma_lt_neq, lemma_lt_trans, lemma_cmp_eq,
    lemma_cmp_flip};

verus! {

/// One known peer: a stable identity, the network address it was last seen
/// at, and the timestamp of the most recent event observed for it.
pub struct PeerRecord {
    pub peer_id: String,
    pub ip: String,
    pub last_seen: u64,
}

/// What the registry knows of one peer, at the specification level.
#[verifier::ext_equal]
pub struct RecData {
    pub ip: Seq<char>,
    pub last_seen: u64,
}

/// The peer registry. Records are kept strictly sorted by peer identity;
/// each identity occurs at most once.
pub struct PeerRegistry {
    pub recs: Vec<PeerRecord>,
}

impl PeerRegistry {
    /// The registry contents as an ordered association sequence.
    pub open spec fn entries(self) -> Seq<(Seq<char>, RecData)> {
        self.recs@.map(
            |i: int, r: PeerRecord| (r.peer_id@, RecData { ip: r.ip@, last_seen: r.last_seen }),
        )
    }

    /// The registry contents as a map from identity to record data.
    pub open spec fn as_map(self) -> Map<Seq<char>, RecData> {
        map_of(self.entries())
    }

    /// The ordering invariant.
    pub open spec fn wf(self) -> bool {
        sorted_strict(self.entries())
    }

    /// An empty registry.
    pub fn new() -> (r: PeerRegistry)
        ensures
            r.wf(),
            r.entries() == Seq::<(Seq<char>, RecData)>::empty(),
            r.as_map() == Map::<Seq<char>, RecData>::empty(),
    {
        let r = PeerRegistry { recs: Vec::new() };
        proof {
            assert(r.entries() =~= Seq::<(Seq<char>, RecData)>::empty());
            assert(r.as_map() =~= Map::<Seq<char>, RecData>::empty());
        }
        r
    }

    /// The number of known peers.
    pub fn len(&self) -> (r: usize)
        ensures
            r == self.entries().len(),
    {
        self.recs.len()
    }

    /// Whether an identity is known.
    pub fn contains(&self, id: &str) -> (r: bool)
        requires
            self.wf(),
        ensures
            r == self.as_map().dom().contains(id@),
    {
        let (p, eq) = scan(&self.recs, id);
        eq
    }

    /// Insert or fully replace the record for `id`, setting its address to
    /// `ip` and its last-seen time to `now`.
    pub fn upsert(&mut self, id: &str, ip: &str, now: u64)
        requires
            old(self).wf(),
        ensures
            final(self).wf(),
            final(self).as_map() == old(self).as_map().insert(
                id@,
                RecData { ip: ip@, last_seen: now },
            ),
    {
        let ghost e = self.entries();
        let ghost v = RecData { ip: ip@, last_seen: now };
        let (p, eq) = scan(&self.recs, id);
        let rec = PeerRecord { peer_id: String::from_str(id), ip: String::from_str(ip), last_seen: now };
        if eq {
            self.recs[p] = rec;
            proof {
                assert(self.entries() =~= e.update(p as int, (e[p as int].0, v)));
                lemma_map_update_at(e, p as int, v);
            }
        } else {
            self.recs.insert(p, rec);
            proof {
                assert(self.entries() =~= e.take(p as int).push((id@, v)) + e.skip(p as int));
                assert forall|j: int| p <= j < e.len() implies str_lt(id@, #[trigger] e[j].0) by {
                    if j > p {
                        lemma_lt_trans(id@, e[p as int].0, e[j].0);
                    }
                }
                lemma_map_insert_at(e, p as int, id@, v);
            }
        }
    }

    /// Update only the last-seen time of `id`. Unknown identities are left
    /// alone: a liveness signal never fabricates a record without an address.
    pub fn touch(&mut self, id: &str, now: u64)
        requires
            old(self).wf(),
        ensures
            final(self).wf(),
            old(self).as_map().dom().contains(id@) ==> final(self).as_map() == old(
                self,
            ).as_map().insert(
                id@,
                RecData { ip: old(self).as_map()[id@].ip, last_seen: now },
            ),
            !old(self).as_map().dom().contains(id@) ==> *final(self) == *old(self),
    {
        let ghost e = self.entries();
        let (p, eq) = scan(&self.recs, id);
        if eq {
            proof {
                lemma_map_of_index(e, p as int);
            }
            let ip_kept = self.recs[p].ip.clone();
            let ghost v = RecData { ip: ip_kept@, last_seen: now };
            let rec = PeerRecord { peer_id: String::from_str(id), ip: ip_kept, last_seen: now };
            self.recs[p] = rec;
            proof {
                assert(self.entries() =~= e.update(p as int, (e[p as int].0, v)));
                lemma_map_update_at(e, p as int, v);
            }
        }
    }

    /// Remove the record for `id`, if any. Removing an unknown identity is
    /// not an error and changes nothing.
    pub fn remove(&mut self, id: &str)
        requires
            old(self).wf(),
        ensures
            final(self).wf(),
            final(self).as_map() == old(self).as_map().remove(id@),
    {
        let ghost e = self.entries();
        let (p, eq) = scan(&self.recs, id);
        if eq {
            self.recs.remove(p);
            proof {
                assert(self.entries() =~= e.remove(p as int));
                lemma_map_remove_at(e, p as int);
            }
        } else {
            proof {
                assert(self.as_map() =~= old(self).as_map().remove(id@));
            }
        }
    }

    /// Read access for serialization: the record at a position.
    pub fn record_at(&self, i: usize) -> (r: &PeerRecord)
        requires
            i < self.entries().len(),
        ensures
            r.peer_id@ == self.entries()[i as int].0,
            r.ip@ == self.entries()[i as int].1.ip,
            r.last_seen == self.entries()[i as int].1.last_seen,
    {
        &self.recs[i]
    }
}

/// Find the insertion position for `id`: the first index whose key is not
/// below `id`. Reports whether the key at that position equals `id`.
fn scan(recs: &Vec<PeerRecord>, id: &str) -> (r: (usize, bool))
    requires
        sorted_strict(
            recs@.map(
                |i: int, r: PeerRecord| (r.peer_id@, RecData { ip: r.ip@, last_seen: r.last_seen }),
            ),
        ),
    ensures
        ({
            let e = recs@.map(
                |i: int, r: PeerRecord| (r.peer_id@, RecData { ip: r.ip@, last_seen: r.last_seen }),
            );
            let p = r.0 as int;
            &&& r.0 <= e.len()
            &&& forall|j: int| 0 <= j < p ==> str_lt(#[trigger] e[j].0, id@)
            &&& r.1 ==> p < e.len() && e[p].0 == id@ && has_key(e, id@)
            &&& !r.1 ==> !has_key(e, id@)
            &&& !r.1 && p < e.len() ==> str_lt(id@, e[p].0)
        }),
{
    let ghost e = recs@.map(
        |i: int, r: PeerRecord| (r.peer_id@, RecData { ip: r.ip@, last_seen: r.last_seen }),
    );
    let n: usize = recs.len();
    let mut p: usize = 0;
    while p < n
        invariant
            p <= n,
            n == e.len(),
            e == recs@.map(
                |i: int, r: PeerRecord| (r.peer_id@, RecData { ip: r.ip@, last_seen: r.last_seen }),
            ),
            sorted_strict(e),
            forall|j: int| 0 <= j < p ==> str_lt(#[trigger] e[j].0, id@),
        decreases n - p,
    {
        match str_cmp(recs[p].peer_id.as_str(), id) {
            Cmp::Less => {
                p = p + 1;
            },
            Cmp::Equal => {
                proof {
                    lemma_cmp_eq(e[p as int].0, id@);
                    assert(e[p as int].0 == id@);
                    assert(has_key(e, id@));
                }
                return (p, true);
            },
            Cmp::Greater => {
                proof {
                    lemma_cmp_flip(id@, e[p as int].0);
                    lemma_no_key(e, id@, p as int);
                }
                return (p, false);
            },
        }
    }
    proof {
        lemma_no_key(e, id@, p as int);
    }
    (p, false)
}

/// If every key before `p` is below `id` and the key at `p` (if any) is
/// above it, no entry carries `id`.
proof fn lemma_no_key(e: Seq<(Seq<char>, RecData)>, id: Seq<char>, p: int)
    requires
        sorted_strict(e),
        0 <= p <= e.len(),
        forall|j: int| 0 <= j < p ==> str_lt(#[trigger] e[j].0, id),
        p < e.len() ==> str_lt(id, e[p].0),
    ensures
        !has_key(e, id),
{
    assert forall|j: int| 0 <= j < e.len() implies (#[trigger] e[j].0) != id by {
        if j < p {
            lemma_lt_neq(e[j].0, id);
        } else if j == p {
            lemma_lt_neq(id, e[j].0);
        } else {
            lemma_lt_trans(id, e[p].0, e[j].0);
            lemma_lt_neq(id, e[j].0);
        }
    }
}

} // verus!
