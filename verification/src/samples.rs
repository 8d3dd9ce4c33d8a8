//! Small sample routines: rectangle containment, a guessing-game guard, and
//! two string helpers.

use vstd::prelude::*;

verus! {

/// A rectangle by its side lengths.
pub struct Rectangle {
    pub width: u32,
    pub height: u32,
}

impl Rectangle {
    /// Whether `other` fits strictly inside `self` in both dimensions.
    pub fn can_hold(&self, other: &Rectangle) -> (r: bool)
        ensures
            r == (self.width > other.width && self.height > other.height),
    {
        self.width > other.width && self.height > other.height
    }
}

/// Returns `a` plus two.
pub fn add_two(a: i32) -> (r: i32)
    requires
        a <= i32::MAX - 2,
    ensures
        r == a + 2,
{
    a + 2
}

/// Returns the greeting for `name`.
pub fn greeting(name: &str) -> (r: String)
    ensures
        r@ == "Hello "@ + name@ + "!"@,
{
    let mut r = String::from_str("Hello ");
    r.append(name);
    r.append("!");
    r
}

/// A guess in the guessing game, always between one and one hundred.
pub struct Guess {
    value: i32,
}

impl Guess {
    /// The number guessed.
    pub closed spec fn spec_value(&self) -> int {
        self.value as int
    }

    /// Wraps a guess; the bounds are the caller's obligation, and a caller
    /// outside them must be refused before this point.
    pub fn new(value: i32) -> (g: Guess)
        requires
            1 <= value <= 100,
        ensures
            g.spec_value() == value,
    {
        Guess { value }
    }
}

} // verus!
