//! A shirt inventory that gives shirts away: the preferred colour when one
//! is stated, otherwise the colour with the most stock.

use vstd::prelude::*;

verus! {

/// The colours a shirt comes in.
#[derive(Debug, PartialEq, Eq, Structural, Copy, Clone)]
pub enum ShirtColor {
    Red,
    Blue,
}

/// The number of times `value` occurs in `values`.
pub open spec fn count_in<T>(values: Seq<T>, value: T) -> nat
    decreases values.len(),
{
    if values.len() == 0 {
        0
    } else {
        count_in(values.drop_last(), value) + if values.last() == value {
            1nat
        } else {
            0nat
        }
    }
}

/// Counting how often a value occurs in a collection.
pub trait TotalOccurrences<T> {
    /// The number of occurrences, as a specification.
    spec fn occurrences(&self, value: T) -> nat;

    /// Count how often `value` occurs.
    fn total_occurrences(&self, value: T) -> (total: usize)
        ensures
            total == self.occurrences(value),
    ;
}

impl TotalOccurrences<i32> for Vec<i32> {
    open spec fn occurrences(&self, value: i32) -> nat {
        count_in(self@, value)
    }

    fn total_occurrences(&self, value: i32) -> (total: usize) {
        let mut total: usize = 0;
        let mut i: usize = 0;
        while i < self.len()
            invariant
                0 <= i <= self@.len(),
                total == count_in(self@.take(i as int), value),
                total <= i,
            decreases self@.len() - i,
        {
            assert(self@.take(i + 1).drop_last() =~= self@.take(i as int));
            assert(self@.take(i + 1).last() == self@[i as int]);
            if self[i] == value {
                total = total + 1;
            }
            i = i + 1;
        }
        assert(self@.take(self@.len() as int) =~= self@);
        total
    }
}

impl TotalOccurrences<ShirtColor> for Vec<ShirtColor> {
    open spec fn occurrences(&self, value: ShirtColor) -> nat {
        count_in(self@, value)
    }

    fn total_occurrences(&self, value: ShirtColor) -> (total: usize) {
        let mut total: usize = 0;
        let mut i: usize = 0;
        while i < self.len()
            invariant
                0 <= i <= self@.len(),
                total == count_in(self@.take(i as int), value),
                total <= i,
            decreases self@.len() - i,
        {
            assert(self@.take(i + 1).drop_last() =~= self@.take(i as int));
            assert(self@.take(i + 1).last() == self@[i as int]);
            if self[i] == value {
                total = total + 1;
            }
            i = i + 1;
        }
        assert(self@.take(self@.len() as int) =~= self@);
        total
    }
}

/// A store of shirts.
#[derive(Debug)]
pub struct ShirtsInventory {
    pub shirts: Vec<ShirtColor>,
}

/// The colour with the most stock: the first colour, in declaration
/// order, whose count no later colour exceeds.
pub open spec fn most_stocked_spec(shirts: Seq<ShirtColor>) -> ShirtColor {
    if count_in(shirts, ShirtColor::Blue) > count_in(shirts, ShirtColor::Red) {
        ShirtColor::Blue
    } else {
        ShirtColor::Red
    }
}

impl ShirtsInventory {
    /// Give away the preferred colour when one is stated, otherwise the
    /// most stocked colour.
    pub fn giveaway(&self, user_preference: Option<ShirtColor>) -> (shirt_color: ShirtColor)
        ensures
            (match user_preference {
                Some(color) => shirt_color == color,
                None => shirt_color == most_stocked_spec(self.shirts@),
            }),
    {
        match user_preference {
            Some(color) => color,
            None => self.most_stocked(),
        }
    }

    /// The colour that occurs the most in this inventory; the first in
    /// declaration order wins a tie.
    pub fn most_stocked(&self) -> (shirt_color: ShirtColor)
        ensures
            shirt_color == most_stocked_spec(self.shirts@),
            forall|color: ShirtColor|
                count_in(self.shirts@, shirt_color) >= #[trigger] count_in(self.shirts@, color),
    {
        let mut result = ShirtColor::Red;
        let mut result_total = self.shirts.total_occurrences(ShirtColor::Red);
        let blue_total = self.shirts.total_occurrences(ShirtColor::Blue);
        if blue_total > result_total {
            result = ShirtColor::Blue;
            result_total = blue_total;
        }
        result
    }
}

} // verus!
