//! Lexicographic ordering of strings by character code point.
//!
//! Table names, index names and content hashes are all kept and compared in
//! ascending string order; this module provides the ordering, its algebraic
//! laws, and executable comparisons proved against it.

use vstd::prelude::*;

verus! {

/// Strict lexicographic "less than" on character sequences, ordered by code
/// point. The empty sequence precedes every non-empty one.
pub open spec fn seq_char_lt(a: Seq<char>, b: Seq<char>) -> bool
    decreases a.len(),
{
    if b.len() == 0 {
        false
    } else if a.len() == 0 {
        true
    } else if (a[0] as u32) < (b[0] as u32) {
        true
    } else if a[0] != b[0] {
        false
    } else {
        seq_char_lt(a.skip(1), b.skip(1))
    }
}

/// The ordering is total: any two sequences are comparable.
pub proof fn lemma_seq_char_lt_total(a: Seq<char>, b: Seq<char>)
    ensures
        seq_char_lt(a, b) || seq_char_lt(b, a) || a == b,
    decreases a.len(),
{
    if a.len() == 0 && b.len() == 0 {
        assert(a =~= b);
    } else if a.len() != 0 && b.len() != 0 {
        if a[0] == b[0] {
            lemma_seq_char_lt_total(a.skip(1), b.skip(1));
            if !seq_char_lt(a, b) && !seq_char_lt(b, a) {
                assert(a.skip(1) == b.skip(1));
                assert forall|i: int| 0 <= i < a.len() implies a[i] == b[i] by {
                    if i >= 1 {
                        assert(a.skip(1)[i - 1] == a[i]);
                        assert(b.skip(1)[i - 1] == b[i]);
                    }
                }
                assert(a =~= b);
            }
        } else {
            // Distinct characters have distinct code points.
            vstd::utf8::char_u32_cast(a[0], a[0] as u32);
            vstd::utf8::char_u32_cast(b[0], b[0] as u32);
            assert(a[0] as u32 != b[0] as u32);
        }
    }
}

/// The ordering is irreflexive: no sequence is less than itself.
pub proof fn lemma_seq_char_lt_irreflexive(a: Seq<char>)
    ensures
        !seq_char_lt(a, a),
    decreases a.len(),
{
    if a.len() != 0 {
        lemma_seq_char_lt_irreflexive(a.skip(1));
    }
}

/// The ordering is asymmetric: at most one direction holds.
pub proof fn lemma_seq_char_lt_asymmetric(a: Seq<char>, b: Seq<char>)
    ensures
        !(seq_char_lt(a, b) && seq_char_lt(b, a)),
    decreases a.len(),
{
    if a.len() != 0 && b.len() != 0 && a[0] == b[0] {
        lemma_seq_char_lt_asymmetric(a.skip(1), b.skip(1));
    }
}

/// The ordering is transitive.
pub proof fn lemma_seq_char_lt_transitive(a: Seq<char>, b: Seq<char>, c: Seq<char>)
    ensures
        seq_char_lt(a, b) && seq_char_lt(b, c) ==> seq_char_lt(a, c),
    decreases a.len(),
{
    if seq_char_lt(a, b) && seq_char_lt(b, c) {
        if a.len() == 0 {
        } else {
            // b and c are non-empty since something is below each of them.
            if a[0] == b[0] && b[0] == c[0] {
                lemma_seq_char_lt_transitive(a.skip(1), b.skip(1), c.skip(1));
            }
        }
    }
}

/// Executable lexicographic comparison of two strings, proved to decide
/// `seq_char_lt` on their views.
pub fn str_lt(a: &str, b: &str) -> (r: bool)
    ensures
        r == seq_char_lt(a@, b@),
{
    let a_len = a.unicode_len();
    let b_len = b.unicode_len();
    let mut i: usize = 0;
    proof {
        assert(a@.skip(0) =~= a@);
        assert(b@.skip(0) =~= b@);
    }
    loop
        invariant
            i <= a_len,
            i <= b_len,
            a_len == a@.len(),
            b_len == b@.len(),
            a@.subrange(0, i as int) =~= b@.subrange(0, i as int),
            seq_char_lt(a@, b@) == seq_char_lt(a@.skip(i as int), b@.skip(i as int)),
        decreases a_len - i,
    {
        if i == b_len {
            // b is exhausted: a is not below b.
            assert(!seq_char_lt(a@.skip(i as int), b@.skip(i as int)));
            return false;
        }
        if i == a_len {
            // a is a strict prefix of b.
            assert(a@.skip(i as int).len() == 0);
            assert(b@.skip(i as int).len() > 0);
            return true;
        }
        let ca = a.get_char(i);
        let cb = b.get_char(i);
        let ghost sa = a@.skip(i as int);
        let ghost sb = b@.skip(i as int);
        assert(sa[0] == a@[i as int] && sb[0] == b@[i as int]);
        if (ca as u32) < (cb as u32) {
            assert(seq_char_lt(sa, sb));
            return true;
        }
        if ca != cb {
            assert(!seq_char_lt(sa, sb));
            return false;
        }
        assert(sa.skip(1) =~= a@.skip(i + 1) && sb.skip(1) =~= b@.skip(i + 1));
        assert(a@.subrange(0, i + 1) =~= b@.subrange(0, i + 1));
        i = i + 1;
    }
}

/// Executable equality of two strings, proved to decide view equality.
pub fn str_eq(a: &str, b: &str) -> (r: bool)
    ensures
        r == (a@ == b@),
{
    let a_len = a.unicode_len();
    let b_len = b.unicode_len();
    if a_len != b_len {
        return false;
    }
    let mut i: usize = 0;
    while i < a_len
        invariant
            i <= a_len,
            a_len == a@.len(),
            a_len == b@.len(),
            a@.subrange(0, i as int) =~= b@.subrange(0, i as int),
        decreases a_len - i,
    {
        let ca = a.get_char(i);
        let cb = b.get_char(i);
        if ca != cb {
            assert(a@[i as int] != b@[i as int]);
            return false;
        }
        assert(a@.subrange(0, i + 1) =~= b@.subrange(0, i + 1));
        i = i + 1;
    }
    proof {
        assert(a@ =~= a@.subrange(0, a_len as int));
        assert(b@ =~= b@.subrange(0, a_len as int));
    }
    true
}

} // verus!
