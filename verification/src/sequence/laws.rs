//! Property-checkable laws for any `Sequence` implementation.
//!
//! The `fn`s check a law at run time on a concrete sequence; the
//! `proof fn`s state the laws over the model that `Sequence`'s contract is
//! written in.

use super::Sequence;
use crate::mapping::eq_result;
use vstd::prelude::*;

verus! {

/// The elements after pushing every value of `values`, in order, onto `items`.
pub open spec fn push_all<T>(items: Seq<T>, values: Seq<T>) -> Seq<T>
    decreases values.len(),
{
    if values.len() == 0 {
        items
    } else {
        push_all(items, values.drop_last()).push(values.last())
    }
}

/// Pushing values one by one onto an empty sequence yields them in push
/// order: iteration order is push order, and the length is the number of
/// pushes.
pub proof fn push_order_law<T>(values: Seq<T>)
    ensures
        push_all(Seq::<T>::empty(), values) == values,
    decreases values.len(),
{
    if values.len() > 0 {
        push_order_law(values.drop_last());
        assert(values.drop_last().push(values.last()) =~= values);
    }
}

/// After `push(v)` the last element is `v`, the length grew by one and the
/// earlier elements are unchanged.
pub proof fn push_then_get_last_law<T>(items: Seq<T>, value: T)
    ensures
        items.push(value).len() == items.len() + 1,
        items.push(value)[items.len() as int] == value,
        forall|i: int| 0 <= i < items.len() ==> #[trigger] items.push(value)[i] == items[i],
{
}

/// After `push(v)`, `get(len - 1)` returns `Some` of a value equal to `v`.
/// Returns the outcome of comparing the last element, with `==`, with a
/// clone of `v`.
#[must_use]
pub fn push_then_get_last<S>(s: &mut S, value: S::Item) -> (holds: bool) where
    S: Sequence,
    S::Item: PartialEq + Clone,

    ensures
        final(s).items() == old(s).items().push(value),
        exists|expected: S::Item|
            #![trigger cloned(value, expected)]
            cloned(value, expected) && eq_result(value, expected, holds),
{
    let expected = value.clone();
    assert(cloned(value, expected));
    s.push(value);
    let last_idx = s.len().saturating_sub(1);
    match s.get(last_idx) {
        Some(last) => {
            let same = *last == expected;
            assert(eq_result(*last, expected, same));
            same
        },
        None => false,
    }
}

/// `push` increments `len` by exactly 1.
#[must_use]
pub fn push_increments_len<S>(s: &mut S, value: S::Item) -> (holds: bool) where S: Sequence
    requires
        old(s).items().len() < usize::MAX,
    ensures
        final(s).items() == old(s).items().push(value),
        holds,
{
    let before = s.len();
    s.push(value);
    s.len() == before + 1
}

/// `iter().count() == len()`.
#[must_use]
pub fn iter_count_matches_len<S>(s: &S) -> (holds: bool) where S: Sequence
    ensures
        holds,
{
    s.iter().len() == s.len()
}

/// `get(i)` for `i >= len` returns `None`.
#[must_use]
pub fn get_out_of_bounds_is_none<S>(s: &S) -> (holds: bool) where S: Sequence
    requires
        s.items().len() + 10 <= usize::MAX,
    ensures
        holds,
{
    s.get(s.len()).is_none() && s.get(s.len() + 10).is_none()
}

} // verus!
