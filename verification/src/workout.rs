//! Choosing a workout from the user's intensity and a random draw.
//!
//! The choice is pure; performing it — the expensive plan calculation and
//! the printing — stays with the caller, which hands in the random number.

use vstd::prelude::*;

verus! {

/// What the user is told to do today.
pub enum WorkoutPlan {
    /// Low intensity: pushups, then situps.
    Pushups,
    /// A rest day, drawn by luck.
    Rest,
    /// A run.
    Run,
}

/// The plan owed to the given intensity and random draw.
pub open spec fn spec_workout(intensity: u32, random_number: u32) -> WorkoutPlan {
    if intensity < 25 {
        WorkoutPlan::Pushups
    } else if random_number == 3 {
        WorkoutPlan::Rest
    } else {
        WorkoutPlan::Run
    }
}

/// Picks the workout: low intensity means pushups and situps, and otherwise
/// the random draw decides between a lucky rest and a run.
pub fn generate_workout(intensity: u32, random_number: u32) -> (p: WorkoutPlan)
    ensures
        p == spec_workout(intensity, random_number),
{
    if intensity < 25 {
        WorkoutPlan::Pushups
    } else if random_number == 3 {
        WorkoutPlan::Rest
    } else {
        WorkoutPlan::Run
    }
}

} // verus!
