//! The per-tick reward of an agent.
use vstd::prelude::*;

verus! {

/// A reward: a starvation penalty, never positive when made from counts.
#[derive(Debug, Clone, Copy, PartialEq, Eq, Structural)]
pub struct Reward {
    pub val: i32,
}

/// The linear starvation penalty: the sum of the negative counts, saturated
/// at `i32::MIN`.
pub open spec fn starvation_penalty(food: int, water: int) -> int {
    let p = (if food < 0 { food } else { 0 }) + (if water < 0 { water } else { 0 });
    if p < i32::MIN { i32::MIN as int } else { p }
}

impl Reward {
    pub fn new(val: i32) -> (r: Reward)
        ensures
            r.val == val,
    {
        Reward { val }
    }

    /// Receives a negative reward when resource counts are below zero,
    /// linearly proportional to the counts.
    pub fn from_inv_count_linear(food_count: i32, water_count: i32) -> (r: Reward)
        ensures
            r.val == starvation_penalty(food_count as int, water_count as int),
            r.val <= 0,
            food_count >= 0 && water_count >= 0 ==> r.val == 0,
    {
        let food_reward: i64 = if food_count < 0 { food_count as i64 } else { 0 };
        let water_reward: i64 = if water_count < 0 { water_count as i64 } else { 0 };
        let p = food_reward + water_reward;
        let val: i32 = if p < i32::MIN as i64 { i32::MIN } else { p as i32 };
        Reward::new(val)
    }
}

} // verus!
