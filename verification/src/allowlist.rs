//! Allowlists of identifiers.
use vstd::prelude::*;
use vstd::std_specs::cmp::PartialEqSpec;

verus! {

/// A list of allowed identifiers.
#[derive(Debug, Clone)]
pub struct Allowlist<T>(pub Vec<T>);

impl<T: PartialEq> Allowlist<T> {
    pub fn new(list: Vec<T>) -> (a: Self)
        ensures
            a.0@ == list@,
    {
        Allowlist(list)
    }

    /// Whether some entry of the list equals `identifier` by `==` (for a
    /// type whose `==` follows its specification, such as the integers and
    /// byte arrays that identify accounts).
    pub fn is_member(&self, identifier: &T) -> (b: bool)
        ensures
            T::obeys_eq_spec() ==> (b == exists|i: int|
                0 <= i < self.0@.len() && self.0@[i].eq_spec(identifier)),
    {
        let mut i: usize = 0;
        while i < self.0.len()
            invariant
                i <= self.0@.len(),
                T::obeys_eq_spec() ==> forall|j: int| 0 <= j < i ==> !self.0@[j].eq_spec(identifier),
            decreases self.0@.len() - i,
        {
            if self.0[i] == *identifier {
                return true;
            }
            i = i + 1;
        }
        false
    }
}

impl<T> From<Vec<T>> for Allowlist<T> {
    fn from(value: Vec<T>) -> (a: Self) {
        Allowlist(value)
    }
}

impl<T> vstd::std_specs::convert::FromSpecImpl<Vec<T>> for Allowlist<T> {
    open spec fn obeys_from_spec() -> bool {
        true
    }

    open spec fn from_spec(value: Vec<T>) -> Allowlist<T> {
        Allowlist(value)
    }
}

} // verus!
