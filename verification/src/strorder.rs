//! Lexicographic order on character sequences, used to keep the peer
//! registry and the model index deterministically ordered by key.

use vstd::prelude::*;

verus! {

/// Outcome of a three-way comparison.
#[derive(PartialEq, Eq, Structural, Clone, Copy, Debug)]
pub enum Cmp {
    Less,
    Equal,
    Greater,
}

/// Three-way lexicographic comparison of two character sequences,
/// by Unicode scalar value.
pub open spec fn cmp_chars(a: Seq<char>, b: Seq<char>) -> Cmp
    decreases a.len(),
{
    if a.len() == 0 && b.len() == 0 {
        Cmp::Equal
    } else if a.len() == 0 {
        Cmp::Less
    } else if b.len() == 0 {
        Cmp::Greater
    } else if (a[0] as u32) < (b[0] as u32) {
        Cmp::Less
    } else if (a[0] as u32) > (b[0] as u32) {
        Cmp::Greater
    } else {
        cmp_chars(a.drop_first(), b.drop_first())
    }
}

/// Strict lexicographic order.
pub open spec fn str_lt(a: Seq<char>, b: Seq<char>) -> bool {
    cmp_chars(a, b) is Less
}

/// Characters with the same scalar value are the same character.
pub proof fn lemma_char_inj(c: char, d: char)
    requires
        c as u32 == d as u32,
    ensures
        c == d,
{
    vstd::utf8::char_u32_cast(c, c as u32);
    vstd::utf8::char_u32_cast(d, c as u32);
}

/// The comparison reports `Equal` exactly on equal sequences.
pub proof fn lemma_cmp_eq(a: Seq<char>, b: Seq<char>)
    ensures
        (cmp_chars(a, b) is Equal) <==> a =~= b,
    decreases a.len(),
{
    if a.len() == 0 || b.len() == 0 {
    } else {
        lemma_cmp_eq(a.drop_first(), b.drop_first());
        if a =~= b {
            assert(a.drop_first() =~= b.drop_first());
        }
        if cmp_chars(a, b) is Equal {
            lemma_char_inj(a[0], b[0]);
            assert(a =~= b) by {
                assert forall|i: int| 0 <= i < a.len() implies a[i] == b[i] by {
                    if i > 0 {
                        assert(a.drop_first()[i - 1] == b.drop_first()[i - 1]);
                    }
                }
            }
        }
    }
}

/// Swapping the arguments swaps `Less` and `Greater`.
pub proof fn lemma_cmp_flip(a: Seq<char>, b: Seq<char>)
    ensures
        (cmp_chars(a, b) is Less) <==> (cmp_chars(b, a) is Greater),
    decreases a.len(),
{
    if a.len() == 0 || b.len() == 0 {
    } else {
        lemma_cmp_flip(a.drop_first(), b.drop_first());
    }
}

/// Strict lexicographic order is transitive.
pub proof fn lemma_lt_trans(a: Seq<char>, b: Seq<char>, c: Seq<char>)
    requires
        str_lt(a, b),
        str_lt(b, c),
    ensures
        str_lt(a, c),
    decreases a.len(),
{
    if a.len() == 0 {
    } else {
        if (a[0] as u32) == (b[0] as u32) && (b[0] as u32) == (c[0] as u32) {
            lemma_lt_trans(a.drop_first(), b.drop_first(), c.drop_first());
        }
    }
}

/// Strictly ordered keys are distinct.
pub proof fn lemma_lt_neq(a: Seq<char>, b: Seq<char>)
    requires
        str_lt(a, b),
    ensures
        a != b,
{
    lemma_cmp_eq(a, b);
}

fn cmp_from(a: &str, b: &str, i: usize) -> (r: Cmp)
    requires
        i <= a@.len(),
        i <= b@.len(),
    ensures
        r == cmp_chars(a@.skip(i as int), b@.skip(i as int)),
    decreases a@.len() - i,
{
    let alen: usize = a.unicode_len();
    let blen: usize = b.unicode_len();
    if i == alen && i == blen {
        Cmp::Equal
    } else if i == alen {
        Cmp::Less
    } else if i == blen {
        Cmp::Greater
    } else {
        let ca: char = a.get_char(i);
        let cb: char = b.get_char(i);
        proof {
            assert(a@.skip(i as int)[0] == a@[i as int]);
            assert(b@.skip(i as int)[0] == b@[i as int]);
        }
        if (ca as u32) < (cb as u32) {
            Cmp::Less
        } else if (ca as u32) > (cb as u32) {
            Cmp::Greater
        } else {
            let r = cmp_from(a, b, i + 1);
            proof {
                assert(a@.skip(i as int).drop_first() =~= a@.skip(i + 1));
                assert(b@.skip(i as int).drop_first() =~= b@.skip(i + 1));
            }
            r
        }
    }
}

/// Three-way comparison of two strings by their character sequences.
pub fn str_cmp(a: &str, b: &str) -> (r: Cmp)
    ensures
        r == cmp_chars(a@, b@),
{
    let r = cmp_from(a, b, 0);
    proof {
        assert(a@.skip(0) =~= a@);
        assert(b@.skip(0) =~= b@);
    }
    r
}

} // verus!
