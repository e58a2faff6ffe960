//! Sorted merge comparison of two lists.
//!
//! Both the schema validator and the integrity engine walk two lists that are
//! kept in ascending key order and report the first (or every) divergence.
//! This module holds the generic first-divergence walk.

use vstd::prelude::*;
use crate::strutil::{seq_char_lt, lemma_seq_char_lt_total, lemma_seq_char_lt_irreflexive};

verus! {

/// An element of a list that is ordered by a string key and carries a value
/// that a comparison may check once the keys agree.
pub trait EntryModel: Sized {
    /// The sort key of this entry.
    spec fn key(&self) -> Seq<char>;

    /// Whether two entries with equal keys agree in their values.
    spec fn agrees(&self, other: &Self) -> bool;
}

/// An entry whose key order and value check can be decided at run time.
pub trait ListEntry: EntryModel {
    /// Decides the key order.
    fn key_lt(&self, other: &Self) -> (r: bool)
        ensures
            r == seq_char_lt(self.key(), other.key()),
    ;

    /// Decides the value check.
    fn check_agrees(&self, other: &Self) -> (r: bool)
        ensures
            r == self.agrees(other),
    ;
}

/// The outcome of comparing `list_a` against `list_b`.
#[derive(Debug, PartialEq)]
pub enum ListCompareResult<T> {
    /// This element of `list_b` has no counterpart in `list_a`.
    Missing(T),
    /// This element of `list_a` has no counterpart in `list_b`.
    Unexpected(T),
    /// This element of `list_b` shares its key with the corresponding element
    /// of `list_a`, but the value check failed.
    Unequal(T),
    /// The lists agree.
    Identical,
}

/// The first divergence of the positional walk over `a` and `b`: at each
/// position, a key on the `a` side that is larger means an expected element is
/// missing, a smaller one means an unexpected element is present, and equal
/// keys are checked for agreement.
pub open spec fn compare_lists_spec<T: EntryModel>(a: Seq<T>, b: Seq<T>) -> ListCompareResult<T>
    decreases a.len(),
{
    if a.len() == 0 && b.len() == 0 {
        ListCompareResult::Identical
    } else if a.len() == 0 {
        ListCompareResult::Missing(b[0])
    } else if b.len() == 0 {
        ListCompareResult::Unexpected(a[0])
    } else if seq_char_lt(b[0].key(), a[0].key()) {
        ListCompareResult::Missing(b[0])
    } else if seq_char_lt(a[0].key(), b[0].key()) {
        ListCompareResult::Unexpected(a[0])
    } else if !a[0].agrees(&b[0]) {
        ListCompareResult::Unequal(b[0])
    } else {
        compare_lists_spec(a.skip(1), b.skip(1))
    }
}

/// Relates an executable result, which borrows from the lists, to the
/// spec-level result, which holds the elements themselves.
pub open spec fn compare_result_is<T>(r: ListCompareResult<&T>, s: ListCompareResult<T>) -> bool {
    match r {
        ListCompareResult::Missing(x) => s == ListCompareResult::Missing(*x),
        ListCompareResult::Unexpected(x) => s == ListCompareResult::Unexpected(*x),
        ListCompareResult::Unequal(x) => s == ListCompareResult::Unequal(*x),
        ListCompareResult::Identical => s == ListCompareResult::<T>::Identical,
    }
}

/// Compare `list_a` against `list_b`, both sorted by key in ascending order.
///
/// If an item exists in `list_b` but not in `list_a`, returns
/// `ListCompareResult::Missing` with the missing item.
/// If an item exists in `list_a` but not in `list_b`, returns
/// `ListCompareResult::Unexpected`.
/// If an item exists in both but the value check fails, returns
/// `ListCompareResult::Unequal`, containing the item of `list_b`.
///
/// Only the first detected problem is returned.
pub fn compare_lists<'a, T: ListEntry>(list_a: &'a [T], list_b: &'a [T]) -> (r: ListCompareResult<
    &'a T,
>)
    ensures
        compare_result_is(r, compare_lists_spec(list_a@, list_b@)),
{
    proof {
        assert(list_a@.skip(0) =~= list_a@);
        assert(list_b@.skip(0) =~= list_b@);
    }
    let mut i: usize = 0;
    while i < list_a.len()
        invariant
            i <= list_a.len(),
            i <= list_b.len(),
            compare_lists_spec(list_a@, list_b@) == compare_lists_spec(
                list_a@.skip(i as int),
                list_b@.skip(i as int),
            ),
        decreases list_a.len() - i,
    {
        let ghost sa = list_a@.skip(i as int);
        let ghost sb = list_b@.skip(i as int);
        if i >= list_b.len() {
            assert(sb.len() == 0 && sa[0] == list_a@[i as int]);
            return ListCompareResult::Unexpected(&list_a[i]);
        }
        let item_a = &list_a[i];
        let item_b = &list_b[i];
        assert(sa[0] == list_a@[i as int] && sb[0] == list_b@[i as int]);
        if item_b.key_lt(item_a) {
            return ListCompareResult::Missing(item_b);
        }
        if item_a.key_lt(item_b) {
            return ListCompareResult::Unexpected(item_a);
        }
        if !item_a.check_agrees(item_b) {
            return ListCompareResult::Unequal(item_b);
        }
        proof {
            lemma_seq_char_lt_irreflexive(sa[0].key());
            assert(sa.skip(1) =~= list_a@.skip(i + 1));
            assert(sb.skip(1) =~= list_b@.skip(i + 1));
        }
        i = i + 1;
    }
    let ghost sa = list_a@.skip(i as int);
    let ghost sb = list_b@.skip(i as int);
    assert(sa.len() == 0);
    if list_a.len() < list_b.len() {
        assert(sb[0] == list_b@[i as int]);
        return ListCompareResult::Missing(&list_b[list_a.len()]);
    }
    assert(sb.len() == 0);
    ListCompareResult::Identical
}

/// The walk reports agreement exactly when the lists agree pointwise: same
/// length, equal keys at every position, and every value check passing.
pub proof fn lemma_compare_identical<T: EntryModel>(a: Seq<T>, b: Seq<T>)
    ensures
        compare_lists_spec(a, b) == ListCompareResult::<T>::Identical <==> (a.len() == b.len()
            && (forall|i: int|
            0 <= i < a.len() ==> #[trigger] a[i].key() == b[i].key() && a[i].agrees(&b[i]))),
    decreases a.len(),
{
    if a.len() != 0 && b.len() != 0 {
        lemma_seq_char_lt_total(a[0].key(), b[0].key());
        lemma_seq_char_lt_irreflexive(a[0].key());
        if !seq_char_lt(b[0].key(), a[0].key()) && !seq_char_lt(a[0].key(), b[0].key())
            && a[0].agrees(&b[0]) {
            lemma_compare_identical(a.skip(1), b.skip(1));
            assert forall|i: int| 1 <= i < a.len() implies a[i] == a.skip(1)[i - 1] && (i
                < b.len() ==> b[i] == b.skip(1)[i - 1]) by {}
            if compare_lists_spec(a, b) == ListCompareResult::<T>::Identical {
                assert forall|i: int|
                    0 <= i < a.len() implies #[trigger] a[i].key() == b[i].key() && a[i].agrees(
                    &b[i]) by {
                    if i >= 1 {
                        assert(a.skip(1)[i - 1].key() == b.skip(1)[i - 1].key());
                        assert(a.skip(1)[i - 1].agrees(&b.skip(1)[i - 1]));
                    }
                }
            } else {
                assert(!(a.skip(1).len() == b.skip(1).len() && (forall|i: int|
                    0 <= i < a.skip(1).len() ==> #[trigger] a.skip(1)[i].key()
                        == b.skip(1)[i].key() && a.skip(1)[i].agrees(&b.skip(1)[i]))));
                if a.len() == b.len() && (forall|i: int|
                    0 <= i < a.len() ==> #[trigger] a[i].key() == b[i].key() && a[i].agrees(
                        &b[i],
                    )) {
                    assert forall|i: int|
                        0 <= i < a.skip(1).len() implies #[trigger] a.skip(1)[i].key() == b.skip(
                        1,
                    )[i].key() && a.skip(1)[i].agrees(&b.skip(1)[i]) by {
                        assert(a[i + 1].key() == b[i + 1].key() && a[i + 1].agrees(&b[i + 1]));
                    }
                }
            }
        }
    }
}

} // verus!
