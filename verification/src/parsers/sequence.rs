//! Read-only access to the input: a length, and the element at a position; and
//! what the elements must offer for a literal to match them.

use std::rc::Rc;
use std::sync::Arc;
use vstd::prelude::*;

verus! {

/// An element of an input: a value that can be compared with another and
/// copied.
pub trait Element: Sized {
    /// Whether the two elements count as equal; where an implementation does not
    /// say otherwise, whether they are equal.
    open spec fn same(&self, other: &Self) -> bool {
        *self == *other
    }

    /// Whether the two elements count as equal.
    fn matches(&self, other: &Self) -> (equal: bool)
        ensures
            equal == self.same(other),
    ;

    /// A copy of the element.
    fn duplicate(&self) -> (copy: Self)
        ensures
            copy == *self,
    ;
}

impl Element for char {
    fn matches(&self, other: &char) -> (equal: bool) {
        *self == *other
    }

    fn duplicate(&self) -> (copy: char) {
        *self
    }
}

impl Element for bool {
    fn matches(&self, other: &bool) -> (equal: bool) {
        *self == *other
    }

    fn duplicate(&self) -> (copy: bool) {
        *self
    }
}

impl Element for u8 {
    fn matches(&self, other: &u8) -> (equal: bool) {
        *self == *other
    }

    fn duplicate(&self) -> (copy: u8) {
        *self
    }
}

impl Element for u16 {
    fn matches(&self, other: &u16) -> (equal: bool) {
        *self == *other
    }

    fn duplicate(&self) -> (copy: u16) {
        *self
    }
}

impl Element for u32 {
    fn matches(&self, other: &u32) -> (equal: bool) {
        *self == *other
    }

    fn duplicate(&self) -> (copy: u32) {
        *self
    }
}

impl Element for u64 {
    fn matches(&self, other: &u64) -> (equal: bool) {
        *self == *other
    }

    fn duplicate(&self) -> (copy: u64) {
        *self
    }
}

impl Element for u128 {
    fn matches(&self, other: &u128) -> (equal: bool) {
        *self == *other
    }

    fn duplicate(&self) -> (copy: u128) {
        *self
    }
}

impl Element for usize {
    fn matches(&self, other: &usize) -> (equal: bool) {
        *self == *other
    }

    fn duplicate(&self) -> (copy: usize) {
        *self
    }
}

impl Element for i8 {
    fn matches(&self, other: &i8) -> (equal: bool) {
        *self == *other
    }

    fn duplicate(&self) -> (copy: i8) {
        *self
    }
}

impl Element for i16 {
    fn matches(&self, other: &i16) -> (equal: bool) {
        *self == *other
    }

    fn duplicate(&self) -> (copy: i16) {
        *self
    }
}

impl Element for i32 {
    fn matches(&self, other: &i32) -> (equal: bool) {
        *self == *other
    }

    fn duplicate(&self) -> (copy: i32) {
        *self
    }
}

impl Element for i64 {
    fn matches(&self, other: &i64) -> (equal: bool) {
        *self == *other
    }

    fn duplicate(&self) -> (copy: i64) {
        *self
    }
}

impl Element for i128 {
    fn matches(&self, other: &i128) -> (equal: bool) {
        *self == *other
    }

    fn duplicate(&self) -> (copy: i128) {
        *self
    }
}

impl Element for isize {
    fn matches(&self, other: &isize) -> (equal: bool) {
        *self == *other
    }

    fn duplicate(&self) -> (copy: isize) {
        *self
    }
}

impl Element for String {
    open spec fn same(&self, other: &String) -> bool {
        self@ == other@
    }

    fn matches(&self, other: &String) -> (equal: bool) {
        *self == *other
    }

    fn duplicate(&self) -> (copy: String) {
        self.clone()
    }
}

/// An ordered, read-only collection of elements of one type.
pub trait SequenceView {
    /// The type of the elements.
    type Output;

    /// The elements, in order. Where an implementation does not say what they
    /// are, nothing is known of them.
    open spec fn items(&self) -> Seq<Self::Output> {
        arbitrary()
    }

    /// The number of elements.
    fn len(&self) -> (n: usize)
        ensures
            n == self.items().len(),
    ;

    /// The element at `idx`.
    fn get(&self, idx: usize) -> (item: &Self::Output)
        requires
            idx < self.items().len(),
        ensures
            *item == self.items()[idx as int],
    ;
}

impl<T> SequenceView for [T] {
    type Output = T;

    open spec fn items(&self) -> Seq<T> {
        self@
    }

    fn len(&self) -> (n: usize) {
        <[T]>::len(self)
    }

    fn get(&self, idx: usize) -> (item: &T) {
        &self[idx]
    }
}

impl<T> SequenceView for Vec<T> {
    type Output = T;

    open spec fn items(&self) -> Seq<T> {
        self@
    }

    fn len(&self) -> (n: usize) {
        Vec::len(self)
    }

    fn get(&self, idx: usize) -> (item: &T) {
        &self[idx]
    }
}

impl<S: SequenceView + ?Sized> SequenceView for &S {
    type Output = S::Output;

    open spec fn items(&self) -> Seq<S::Output> {
        (**self).items()
    }

    fn len(&self) -> (n: usize) {
        (**self).len()
    }

    fn get(&self, idx: usize) -> (item: &S::Output) {
        (**self).get(idx)
    }
}

impl<S: SequenceView + ?Sized> SequenceView for Box<S> {
    type Output = S::Output;

    open spec fn items(&self) -> Seq<S::Output> {
        (**self).items()
    }

    fn len(&self) -> (n: usize) {
        (**self).len()
    }

    fn get(&self, idx: usize) -> (item: &S::Output) {
        (**self).get(idx)
    }
}

impl<S: SequenceView + ?Sized> SequenceView for Rc<S> {
    type Output = S::Output;

    open spec fn items(&self) -> Seq<S::Output> {
        (**self).items()
    }

    fn len(&self) -> (n: usize) {
        (**self).len()
    }

    fn get(&self, idx: usize) -> (item: &S::Output) {
        (**self).get(idx)
    }
}

impl<S: SequenceView + ?Sized> SequenceView for Arc<S> {
    type Output = S::Output;

    open spec fn items(&self) -> Seq<S::Output> {
        (**self).items()
    }

    fn len(&self) -> (n: usize) {
        (**self).len()
    }

    fn get(&self, idx: usize) -> (item: &S::Output) {
        (**self).get(idx)
    }
}

} // verus!
