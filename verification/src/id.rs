//! Typed identifiers.

use std::marker::PhantomData;
use vstd::prelude::*;

verus! {

/// A 64-bit identifier that belongs to one kind of object.
///
/// The type parameter only tells identifiers of different kinds apart; it carries no data.
#[derive(Debug, Hash)]
pub struct Id<T> {
    value: u64,
    marker: PhantomData<T>,
}

impl<T> Id<T> {
    /// The identifying number.
    pub closed spec fn spec_value(self) -> u64 {
        self.value
    }

    /// The identifier with the given number.
    pub closed spec fn of(value: u64) -> Self {
        Id { value, marker: PhantomData }
    }

    /// Creates an identifier from its number.
    pub fn new(value: u64) -> (id: Self)
        ensures
            id == Self::of(value),
            id.value() == value,
    {
        Id { value, marker: PhantomData }
    }

    /// Returns the identifying number.
    #[verifier::when_used_as_spec(spec_value)]
    pub fn value(self) -> (value: u64)
        ensures
            value == self.spec_value(),
    {
        self.value
    }
}

impl<T> Clone for Id<T> {
    fn clone(&self) -> (copy: Self)
        ensures
            copy == *self,
    {
        *self
    }
}

impl<T> Copy for Id<T> {

}

impl<T> PartialEq for Id<T> {
    fn eq(&self, other: &Self) -> (same: bool) {
        self.value == other.value
    }
}

impl<T> Eq for Id<T> {

}

impl<T> vstd::std_specs::cmp::PartialEqSpecImpl for Id<T> {
    open spec fn obeys_eq_spec() -> bool {
        true
    }

    open spec fn eq_spec(&self, other: &Self) -> bool {
        *self == *other
    }
}

/// Two identifiers of one kind are the same exactly when their numbers are, and every number
/// identifies one object.
pub proof fn id_is_its_number<T>(left: Id<T>, right: Id<T>, value: u64)
    ensures
        left == right <==> left.value() == right.value(),
        Id::<T>::of(value).value() == value,
        Id::<T>::of(left.value()) == left,
{
}

} // verus!
