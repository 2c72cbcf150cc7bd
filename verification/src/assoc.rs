//! Association sequences: sequences of key/value pairs with distinct,
//! strictly ordered string keys, and their interpretation as maps.
//!
//! Both the peer registry and the model index keep their entries in such a
//! sequence, so the lemmas here are shared between the two.

use vstd::prelude::*;

use crate::strorder::{str_lt, lemma_lt_neq, lemma_lt_trans};

verus! {

/// Some entry of `s` carries the key `k`.
pub open spec fn has_key<V>(s: Seq<(Seq<char>, V)>, k: Seq<char>) -> bool {
    exists|i: int| 0 <= i < s.len() && s[i].0 == k
}

/// The value at the (unique) entry carrying key `k`.
pub open spec fn value_at<V>(s: Seq<(Seq<char>, V)>, k: Seq<char>) -> V {
    s[choose|i: int| 0 <= i < s.len() && s[i].0 == k].1
}

/// The keys of `s` are strictly increasing, hence distinct.
pub open spec fn sorted_strict<V>(s: Seq<(Seq<char>, V)>) -> bool {
    forall|i: int, j: int| 0 <= i < j < s.len() ==> str_lt(#[trigger] s[i].0, #[trigger] s[j].0)
}

/// The map an association sequence stands for.
pub open spec fn map_of<V>(s: Seq<(Seq<char>, V)>) -> Map<Seq<char>, V> {
    Map::new(|k: Seq<char>| has_key(s, k), |k: Seq<char>| value_at(s, k))
}

/// In a strictly ordered sequence, entries at distinct positions carry
/// distinct keys.
pub proof fn lemma_sorted_distinct<V>(s: Seq<(Seq<char>, V)>, i: int, j: int)
    requires
        sorted_strict(s),
        0 <= i < s.len(),
        0 <= j < s.len(),
        i != j,
    ensures
        s[i].0 != s[j].0,
{
    if i < j {
        lemma_lt_neq(s[i].0, s[j].0);
    } else {
        lemma_lt_neq(s[j].0, s[i].0);
    }
}

/// With distinct keys, the map agrees with the sequence entry by entry.
pub proof fn lemma_map_of_index<V>(s: Seq<(Seq<char>, V)>, i: int)
    requires
        sorted_strict(s),
        0 <= i < s.len(),
    ensures
        map_of(s).dom().contains(s[i].0),
        map_of(s)[s[i].0] == s[i].1,
{
    assert(has_key(s, s[i].0));
    let j = choose|j: int| 0 <= j < s.len() && s[j].0 == s[i].0;
    if j != i {
        lemma_sorted_distinct(s, i, j);
    }
}

/// Inserting a fresh key at position `p` adds exactly that binding
/// to the map.
pub proof fn lemma_map_insert_at<V>(s: Seq<(Seq<char>, V)>, p: int, k: Seq<char>, v: V)
    requires
        sorted_strict(s),
        0 <= p <= s.len(),
        !has_key(s, k),
        forall|j: int| 0 <= j < p ==> str_lt(#[trigger] s[j].0, k),
        forall|j: int| p <= j < s.len() ==> str_lt(k, #[trigger] s[j].0),
    ensures
        sorted_strict(s.take(p).push((k, v)) + s.skip(p)),
        map_of(s.take(p).push((k, v)) + s.skip(p)) =~= map_of(s).insert(k, v),
{
    let t = s.take(p).push((k, v)) + s.skip(p);
    assert(t.len() == s.len() + 1);
    assert(forall|j: int| 0 <= j < p ==> t[j] == s[j]);
    assert(t[p] == (k, v));
    assert(forall|j: int| p < j < t.len() ==> t[j] == s[j - 1]);
    assert(sorted_strict(t)) by {
        assert forall|i: int, j: int| 0 <= i < j < t.len() implies str_lt(t[i].0, t[j].0) by {
            if i < p && j < p {
                assert(str_lt(s[i].0, s[j].0));
            } else if i < p && j == p {
                assert(str_lt(s[i].0, k));
            } else if i < p && j > p {
                assert(str_lt(s[i].0, s[j - 1].0));
            } else if i == p {
                assert(str_lt(k, s[j - 1].0));
            } else {
                assert(str_lt(s[i - 1].0, s[j - 1].0));
            }
        }
    }
    assert forall|kk: Seq<char>| #[trigger] has_key(t, kk) implies (kk == k || has_key(s, kk)) by {
        let j = choose|j: int| 0 <= j < t.len() && t[j].0 == kk;
        if j < p {
            assert(s[j].0 == kk);
        } else if j > p {
            assert(s[j - 1].0 == kk);
        }
    }
    assert(has_key(t, k));
    assert forall|kk: Seq<char>| #[trigger] has_key(s, kk) implies has_key(t, kk) by {
        let j = choose|j: int| 0 <= j < s.len() && s[j].0 == kk;
        if j < p {
            assert(t[j].0 == kk);
        } else {
            assert(t[j + 1].0 == kk);
        }
    }
    assert forall|kk: Seq<char>| #[trigger] map_of(t).dom().contains(kk) implies map_of(t)[kk]
        == map_of(s).insert(k, v)[kk] by {
        if kk == k {
            lemma_map_of_index(t, p);
        } else {
            let j = choose|j: int| 0 <= j < s.len() && s[j].0 == kk;
            lemma_map_of_index(s, j);
            if j < p {
                lemma_map_of_index(t, j);
            } else {
                lemma_map_of_index(t, j + 1);
            }
        }
    }
}

/// Replacing the value at position `i` (key unchanged) updates exactly
/// that binding.
pub proof fn lemma_map_update_at<V>(s: Seq<(Seq<char>, V)>, i: int, v: V)
    requires
        sorted_strict(s),
        0 <= i < s.len(),
    ensures
        sorted_strict(s.update(i, (s[i].0, v))),
        map_of(s.update(i, (s[i].0, v))) =~= map_of(s).insert(s[i].0, v),
{
    let t = s.update(i, (s[i].0, v));
    assert(forall|j: int| 0 <= j < t.len() ==> (#[trigger] t[j]).0 == s[j].0);
    assert(sorted_strict(t));
    assert forall|kk: Seq<char>| #[trigger] has_key(t, kk) implies has_key(s, kk) by {
        let j = choose|j: int| 0 <= j < t.len() && t[j].0 == kk;
        assert(s[j].0 == kk);
    }
    assert forall|kk: Seq<char>| #[trigger] has_key(s, kk) implies has_key(t, kk) by {
        let j = choose|j: int| 0 <= j < s.len() && s[j].0 == kk;
        assert(t[j].0 == kk);
    }
    assert(t[i].0 == s[i].0);
    assert(has_key(t, s[i].0));
    assert(has_key(s, s[i].0));
    lemma_map_of_index(s, i);
    assert forall|kk: Seq<char>| #[trigger] map_of(t).dom().contains(kk) implies map_of(t)[kk]
        == map_of(s).insert(s[i].0, v)[kk] by {
        assert(has_key(t, kk));
        assert(has_key(s, kk));
        let j = choose|j: int| 0 <= j < s.len() && s[j].0 == kk;
        assert(t[j].0 == s[j].0);
        lemma_map_of_index(t, j);
        if kk == s[i].0 {
            lemma_sorted_distinct_eq(s, i, j);
            assert(t[i].1 == v);
        } else {
            lemma_map_of_index(s, j);
            assert(t[j].1 == s[j].1);
        }
    }
}

proof fn lemma_sorted_distinct_eq<V>(s: Seq<(Seq<char>, V)>, i: int, j: int)
    requires
        sorted_strict(s),
        0 <= i < s.len(),
        0 <= j < s.len(),
        s[i].0 == s[j].0,
    ensures
        i == j,
{
    if i != j {
        lemma_sorted_distinct(s, i, j);
    }
}

/// A strictly ordered association sequence is determined by its map: the
/// ordering leaves exactly one way to lay the bindings out.
pub proof fn lemma_sorted_map_canonical<V>(s1: Seq<(Seq<char>, V)>, s2: Seq<(Seq<char>, V)>)
    requires
        sorted_strict(s1),
        sorted_strict(s2),
        map_of(s1) == map_of(s2),
    ensures
        s1 =~= s2,
    decreases s1.len(),
{
    if s1.len() == 0 {
        if s2.len() > 0 {
            lemma_map_of_index(s2, 0);
            assert(has_key(s1, s2[0].0));
            assert(false);
        }
    } else if s2.len() == 0 {
        lemma_map_of_index(s1, 0);
        assert(has_key(s2, s1[0].0));
        assert(false);
    } else {
        assert(s1[0].0 == s2[0].0) by {
            if s1[0].0 != s2[0].0 {
                lemma_map_of_index(s1, 0);
                assert(has_key(s2, s1[0].0));
                let j = choose|j: int| 0 <= j < s2.len() && s2[j].0 == s1[0].0;
                lemma_map_of_index(s2, 0);
                assert(has_key(s1, s2[0].0));
                let i = choose|i: int| 0 <= i < s1.len() && s1[i].0 == s2[0].0;
                assert(i > 0 && j > 0);
                assert(str_lt(s1[0].0, s1[i].0));
                assert(str_lt(s2[0].0, s2[j].0));
                lemma_lt_trans(s1[0].0, s2[0].0, s1[0].0);
                lemma_lt_neq(s1[0].0, s1[0].0);
            }
        }
        lemma_map_of_index(s1, 0);
        lemma_map_of_index(s2, 0);
        assert(s1[0].1 == s2[0].1);
        lemma_map_remove_at(s1, 0);
        lemma_map_remove_at(s2, 0);
        assert(s1.remove(0) =~= s1.drop_first());
        assert(s2.remove(0) =~= s2.drop_first());
        lemma_sorted_map_canonical(s1.drop_first(), s2.drop_first());
        assert forall|k: int| 0 <= k < s1.len() implies s1[k] == s2[k] by {
            if k > 0 {
                assert(s1.drop_first()[k - 1] == s2.drop_first()[k - 1]);
            }
        }
    }
}

/// Removing the entry at position `i` removes exactly its binding.
pub proof fn lemma_map_remove_at<V>(s: Seq<(Seq<char>, V)>, i: int)
    requires
        sorted_strict(s),
        0 <= i < s.len(),
    ensures
        sorted_strict(s.remove(i)),
        map_of(s.remove(i)) =~= map_of(s).remove(s[i].0),
{
    let t = s.remove(i);
    assert(t.len() == s.len() - 1);
    assert(forall|j: int| 0 <= j < i ==> t[j] == s[j]);
    assert(forall|j: int| i <= j < t.len() ==> t[j] == s[j + 1]);
    assert(sorted_strict(t));
    assert forall|kk: Seq<char>| #[trigger] has_key(t, kk) implies (has_key(s, kk) && kk != s[i].0) by {
        let j = choose|j: int| 0 <= j < t.len() && t[j].0 == kk;
        if j < i {
            assert(s[j].0 == kk);
            lemma_sorted_distinct(s, j, i);
        } else {
            assert(s[j + 1].0 == kk);
            lemma_sorted_distinct(s, j + 1, i);
        }
    }
    assert forall|kk: Seq<char>| has_key(s, kk) && kk != s[i].0 implies #[trigger] has_key(t, kk) by {
        let j = choose|j: int| 0 <= j < s.len() && s[j].0 == kk;
        if j < i {
            assert(t[j].0 == kk);
        } else {
            assert(t[j - 1].0 == kk);
        }
    }
    assert forall|kk: Seq<char>| #[trigger] map_of(t).dom().contains(kk) implies map_of(t)[kk]
        == map_of(s).remove(s[i].0)[kk] by {
        let j = choose|j: int| 0 <= j < t.len() && t[j].0 == kk;
        lemma_map_of_index(t, j);
        if j < i {
            lemma_map_of_index(s, j);
        } else {
            lemma_map_of_index(s, j + 1);
        }
    }
}

} // verus!
