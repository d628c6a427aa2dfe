//! Run parameters, as one value handed to every component.
//!
//! Rates and probabilities are integers in parts per million
//! ([`RATE_SCALE`]); Q values are integers in thousandths of a reward unit
//! ([`Q_PER_REWARD`]).
use vstd::prelude::*;

verus! {

/// The denominator of every rate and probability.
pub const RATE_SCALE: u32 = 1000000;

/// Q values are kept in this many parts of one unit of reward.
pub const Q_PER_REWARD: i64 = 1000;

/// Parameters of a single agent: inventory, trading lots and the thresholds
/// by which observations are put into levels.
#[allow(non_snake_case)]
#[derive(PartialEq, Eq, Structural, Debug, Clone, Copy)]
pub struct AgentConfig {
    pub INIT_FOOD: i32,
    pub INIT_WATER: i32,
    pub FOOD_ACQUIRE_RATE: i32,
    pub WATER_ACQUIRE_RATE: i32,
    pub FOOD_CONSUME_RATE: u32,
    pub WATER_CONSUME_RATE: u32,
    pub FOOD_MAX_INVENTORY: i32,
    pub WATER_MAX_INVENTORY: i32,
    pub FOOD_LOT_SIZE: u32,
    pub WATER_LOT_SIZE: u32,
    pub MAX_TRADE_LOTS: u32,
    pub INVENTORY_LEVEL_CRITICAL_LOW: i32,
    pub INVENTORY_LEVEL_LOW_MEDIUM: i32,
    pub INVENTORY_LEVEL_MEDIUM_HIGH: i32,
    pub DISTANCE_LEVEL_CRITICAL_LOW: u32,
    pub DISTANCE_LEVEL_LOW_MEDIUM: u32,
    pub DISTANCE_LEVEL_MEDIUM_HIGH: u32,
}

/// Parameters of the world: its size, population and resource layout.
/// Probabilities are in parts per million.
#[allow(non_snake_case)]
#[derive(PartialEq, Eq, Structural, Debug, Clone, Copy)]
pub struct WorldConfig {
    pub N_STEPS: i32,
    pub RANDOM_SEED: u64,
    pub LAND_PROP: u32,
    pub FOOD_ABUNDANCE: u32,
    pub WATER_ABUNDANCE: u32,
    pub WIDTH: u16,
    pub HEIGHT: u16,
    pub N_AGENTS: u8,
    pub HAS_TRADING: bool,
}

/// Parameters of n-step SARSA. `GAMMA`, `ALPHA` and `EPSILON` are in parts
/// per million, `INIT_Q_VALUES` in thousandths of a reward unit.
#[allow(non_snake_case)]
#[derive(PartialEq, Eq, Structural, Debug, Clone, Copy)]
pub struct RLConfig {
    pub INIT_Q_VALUES: i64,
    pub SARSA_N: u8,
    pub GAMMA: u32,
    pub ALPHA: u32,
    pub EPSILON: u32,
    pub MULTI_POLICY: bool,
}

/// Parameters of trading: how far apart two traders may be, the inventory
/// floor that an offer may not breach, and the lot sizes of offer actions.
#[allow(non_snake_case)]
#[derive(PartialEq, Eq, Structural, Debug, Clone, Copy)]
pub struct TradeConfig {
    pub MAX_TRADE_DISTANCE: u32,
    pub MIN_INVENTORY_LEVEL: i32,
    pub LOW_LOT_SIZE: i32,
    pub MEDIUM_LOT_SIZE: i32,
    pub HIGH_LOT_SIZE: i32,
}

#[allow(non_snake_case)]
#[derive(PartialEq, Eq, Structural, Debug, Clone, Copy)]
pub struct SimulationConfig {
    pub VERBOSITY: u32,
}

/// All parameters of a run.
#[derive(PartialEq, Eq, Structural, Debug, Clone, Copy)]
pub struct Config {
    pub simulation: SimulationConfig,
    pub agent: AgentConfig,
    pub world: WorldConfig,
    pub trade: TradeConfig,
    pub rl: RLConfig,
}

impl RLConfig {
    /// Rates that are probabilities or factors lie in `[0, 1]`.
    pub open spec fn wf(self) -> bool {
        &&& self.GAMMA <= RATE_SCALE
        &&& self.ALPHA <= RATE_SCALE
        &&& self.EPSILON <= RATE_SCALE
    }
}

} // verus!
