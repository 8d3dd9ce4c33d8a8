//! The front-of-house call paths: joining the waitlist, three visits at a
//! time.

use vstd::prelude::*;

verus! {

/// Puts one party on the waitlist.
pub fn add_to_waitlist() {
}

/// Visits the restaurant, joining the waitlist three times over.
pub fn eat_at_restaurant() {
    add_to_waitlist();
    add_to_waitlist();
    add_to_waitlist();
}

/// The same visit, calling the waitlist directly.
pub fn eat_at_restaurant_2() {
    add_to_waitlist();
    add_to_waitlist();
    add_to_waitlist();
}

/// Puts one party on the second waitlist.
pub fn add_to_waitlist_2() {
}

/// Visits the second front of house, joining its waitlist three times.
pub fn eat_at_restaurant_3() {
    add_to_waitlist_2();
    add_to_waitlist_2();
    add_to_waitlist_2();
}

} // verus!
