//! A rectangle that can tell whether it fully contains another.

use vstd::prelude::*;

verus! {

/// A rectangle, by its side lengths.
#[derive(Debug)]
pub struct Rectangle {
    pub width: u32,
    pub height: u32,
}

impl Rectangle {
    /// Whether `other` fits strictly inside this rectangle.
    pub fn can_hold(&self, other: &Rectangle) -> (result: bool)
        ensures
            result == (self.width > other.width && self.height > other.height),
    {
        self.width > other.width && self.height > other.height
    }
}

impl PartialEq for Rectangle {
    fn eq(&self, other: &Rectangle) -> (result: bool) {
        self.width == other.width && self.height == other.height
    }
}

impl vstd::std_specs::cmp::PartialEqSpecImpl for Rectangle {
    open spec fn obeys_eq_spec() -> bool {
        true
    }

    open spec fn eq_spec(&self, other: &Rectangle) -> bool {
        self.width == other.width && self.height == other.height
    }
}

} // verus!
