//! Ordered element container trait shared across synthesizer ASTs.
//!
//! Each synthesizer's list or array literal is an ordered sequence with the
//! same operations; [`Sequence`] unifies them. Like
//! [`crate::mapping::Mapping`], this trait is ordered: iteration order is
//! push order.

use vstd::prelude::*;

pub mod laws;

verus! {

/// An ordered, indexable sequence of elements, modelled by `items`.
///
/// ## Contract
///
/// - `push(v)` appends to the end.
/// - `get(i)` returns `Some(&v)` for `i < len`, `None` otherwise.
/// - `iter` yields elements in push order.
pub trait Sequence {
    /// Element type.
    type Item;

    /// The elements, in push order.
    spec fn items(&self) -> Seq<Self::Item>;

    /// Append to the end.
    fn push(&mut self, value: Self::Item)
        ensures
            final(self).items() == old(self).items().push(value),
    ;

    /// Get element by index. `None` if out of bounds.
    fn get(&self, index: usize) -> (found: Option<&Self::Item>)
        ensures
            index < self.items().len() ==> (found matches Some(v) && *v == self.items()[index as int]),
            index >= self.items().len() ==> found is None,
    ;

    /// Number of elements.
    fn len(&self) -> (n: usize)
        ensures
            n == self.items().len(),
    ;

    /// True when `len() == 0`.
    fn is_empty(&self) -> (empty: bool)
        ensures
            empty == (self.items().len() == 0),
    {
        self.len() == 0
    }

    /// The elements in push order.
    fn iter(&self) -> (items: Vec<&Self::Item>)
        ensures
            items@.len() == self.items().len(),
            forall|i: int| 0 <= i < items@.len() ==> *items@[i] == self.items()[i],
    ;
}

/// `Vec<T>` is a sequence: the representation of list and array literals.
impl<T> Sequence for Vec<T> {
    type Item = T;

    open spec fn items(&self) -> Seq<T> {
        self@
    }

    fn push(&mut self, value: T) {
        Vec::push(self, value);
    }

    fn get(&self, index: usize) -> (found: Option<&T>) {
        if index < Vec::len(self) {
            Some(&self[index])
        } else {
            None
        }
    }

    fn len(&self) -> (n: usize) {
        Vec::len(self)
    }

    fn iter(&self) -> (items: Vec<&T>) {
        let n = Vec::len(self);
        let mut items: Vec<&T> = Vec::new();
        let mut i: usize = 0;
        while i < n
            invariant
                n == self@.len(),
                i <= n,
                items@.len() == i,
                forall|j: int| 0 <= j < i ==> *items@[j] == self@[j],
            decreases n - i,
        {
            items.push(&self[i]);
            i = i + 1;
        }
        items
    }
}

} // verus!
