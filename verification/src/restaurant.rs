//! The back-of-house menu items: a breakfast whose toast the customer
//! picks, and the fixed appetizer choices.

use vstd::prelude::*;

verus! {

/// A breakfast order. The toast is the customer's to change; the seasonal
/// fruit is the kitchen's choice alone.
pub struct Breakfast {
    pub toast: String,
    seasonal_fruit: String,
}

impl Breakfast {
    /// The toast as ordered.
    pub closed spec fn toast_view(&self) -> Seq<char> {
        self.toast@
    }

    /// The fruit the kitchen chose.
    pub closed spec fn fruit(&self) -> Seq<char> {
        self.seasonal_fruit@
    }

    /// The summer breakfast: the requested toast, served with peaches.
    pub fn summer(toast: &str) -> (b: Breakfast)
        ensures
            b.toast_view() == toast@,
            b.fruit() == "peaches"@,
    {
        Breakfast { toast: String::from_str(toast), seasonal_fruit: String::from_str("peaches") }
    }
}

/// The appetizers on offer.
pub enum Appetizer {
    Soup,
    Salad,
}

/// Orders one appetizer of each kind.
pub fn eat_at_restaurant_2() {
    let _order1 = Appetizer::Soup;
    let _order2 = Appetizer::Salad;
}

} // verus!
