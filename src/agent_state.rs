//! Raw observations of an agent and their discretisation into levels.
use vstd::prelude::*;
use crate::config::AgentConfig;

verus! {

/// An ordered level into which an observation is bucketed.
#[derive(Debug, Clone, Copy, PartialEq, Eq, Structural, Hash)]
pub enum InvLevel {
    Critical,
    Low,
    Medium,
    High,
}

/// The items of an agent's state, in the order of its representation.
#[derive(Debug, Clone, Copy, PartialEq, Eq, Structural, Hash)]
pub enum AgentStateItems {
    Food,
    Water,
    MinStepsToFood,
    MinStepsToWater,
    MinStepsToTrader,
}

/// What an agent observes: its inventory and the step counts to the nearest
/// food, water and counterparty (`None` where there is none).
#[derive(Debug, Clone, Copy, PartialEq, Eq, Structural)]
pub struct AgentState {
    pub food: i32,
    pub water: i32,
    pub min_steps_to_food: Option<u32>,
    pub min_steps_to_water: Option<u32>,
    pub min_steps_to_trader: Option<u32>,
}

/// An agent state with every item put into its level.
#[derive(Debug, Clone, Copy, PartialEq, Eq, Structural)]
pub struct AgentStateDiscrete {
    pub food: InvLevel,
    pub water: InvLevel,
    pub min_steps_to_food: InvLevel,
    pub min_steps_to_water: InvLevel,
    pub min_steps_to_trader: InvLevel,
}

/// The level of `v` under thresholds `c`, `l`, `m`: a value on a threshold
/// belongs to the level above it.
pub open spec fn level_of(v: int, c: int, l: int, m: int) -> InvLevel {
    if v < c {
        InvLevel::Critical
    } else if v < l {
        InvLevel::Low
    } else if v < m {
        InvLevel::Medium
    } else {
        InvLevel::High
    }
}

/// The level of an inventory count.
pub open spec fn inventory_level(v: int, cfg: AgentConfig) -> InvLevel {
    level_of(
        v,
        cfg.INVENTORY_LEVEL_CRITICAL_LOW as int,
        cfg.INVENTORY_LEVEL_LOW_MEDIUM as int,
        cfg.INVENTORY_LEVEL_MEDIUM_HIGH as int,
    )
}

/// The level of a step count; an absent target counts as far away.
pub open spec fn distance_level(d: Option<u32>, cfg: AgentConfig) -> InvLevel {
    match d {
        None => InvLevel::High,
        Some(d) => level_of(
            d as int,
            cfg.DISTANCE_LEVEL_CRITICAL_LOW as int,
            cfg.DISTANCE_LEVEL_LOW_MEDIUM as int,
            cfg.DISTANCE_LEVEL_MEDIUM_HIGH as int,
        ),
    }
}

pub open spec fn discrete_of(s: AgentState, cfg: AgentConfig) -> AgentStateDiscrete {
    AgentStateDiscrete {
        food: inventory_level(s.food as int, cfg),
        water: inventory_level(s.water as int, cfg),
        min_steps_to_food: distance_level(s.min_steps_to_food, cfg),
        min_steps_to_water: distance_level(s.min_steps_to_water, cfg),
        min_steps_to_trader: distance_level(s.min_steps_to_trader, cfg),
    }
}

/// The representation of a state as (item, level) pairs, in item order.
pub open spec fn representation_of(s: AgentState, cfg: AgentConfig) -> Seq<
    (AgentStateItems, InvLevel),
> {
    let d = discrete_of(s, cfg);
    seq![
        (AgentStateItems::Food, d.food),
        (AgentStateItems::Water, d.water),
        (AgentStateItems::MinStepsToFood, d.min_steps_to_food),
        (AgentStateItems::MinStepsToWater, d.min_steps_to_water),
        (AgentStateItems::MinStepsToTrader, d.min_steps_to_trader),
    ]
}

/// Every state item, in order.
pub open spec fn all_items() -> Seq<AgentStateItems> {
    seq![
        AgentStateItems::Food,
        AgentStateItems::Water,
        AgentStateItems::MinStepsToFood,
        AgentStateItems::MinStepsToWater,
        AgentStateItems::MinStepsToTrader,
    ]
}

/// Every level, from lowest to highest.
pub open spec fn all_levels() -> Seq<InvLevel> {
    seq![InvLevel::Critical, InvLevel::Low, InvLevel::Medium, InvLevel::High]
}

impl AgentStateItems {
    /// The position of this item among all items.
    pub fn index(&self) -> (r: u8)
        ensures
            r < 5,
            all_items()[r as int] == *self,
    {
        match self {
            AgentStateItems::Food => 0,
            AgentStateItems::Water => 1,
            AgentStateItems::MinStepsToFood => 2,
            AgentStateItems::MinStepsToWater => 3,
            AgentStateItems::MinStepsToTrader => 4,
        }
    }

    /// The item at position `k`, if there is one.
    pub fn from_index(k: u8) -> (r: Option<AgentStateItems>)
        ensures
            r is Some <==> k < 5,
            r matches Some(i) ==> i == all_items()[k as int],
    {
        match k {
            0 => Some(AgentStateItems::Food),
            1 => Some(AgentStateItems::Water),
            2 => Some(AgentStateItems::MinStepsToFood),
            3 => Some(AgentStateItems::MinStepsToWater),
            4 => Some(AgentStateItems::MinStepsToTrader),
            _ => None,
        }
    }

    /// Every state item, in order.
    pub fn all() -> (r: Vec<AgentStateItems>)
        ensures
            r@ == all_items(),
    {
        let r = vec![
            AgentStateItems::Food,
            AgentStateItems::Water,
            AgentStateItems::MinStepsToFood,
            AgentStateItems::MinStepsToWater,
            AgentStateItems::MinStepsToTrader,
        ];
        assert(r@ =~= all_items());
        r
    }
}

impl InvLevel {
    /// The position of this level among all levels, lowest first.
    pub fn index(&self) -> (r: u8)
        ensures
            r < 4,
            all_levels()[r as int] == *self,
    {
        match self {
            InvLevel::Critical => 0,
            InvLevel::Low => 1,
            InvLevel::Medium => 2,
            InvLevel::High => 3,
        }
    }

    /// The level at position `k`, if there is one.
    pub fn from_index(k: u8) -> (r: Option<InvLevel>)
        ensures
            r is Some <==> k < 4,
            r matches Some(l) ==> l == all_levels()[k as int],
    {
        match k {
            0 => Some(InvLevel::Critical),
            1 => Some(InvLevel::Low),
            2 => Some(InvLevel::Medium),
            3 => Some(InvLevel::High),
            _ => None,
        }
    }

    /// Every level, from lowest to highest.
    pub fn all() -> (r: Vec<InvLevel>)
        ensures
            r@ == all_levels(),
    {
        let r = vec![InvLevel::Critical, InvLevel::Low, InvLevel::Medium, InvLevel::High];
        assert(r@ =~= all_levels());
        r
    }
}

/// Buckets a value under thresholds `c`, `l`, `m`.
pub fn level(v: i64, c: i64, l: i64, m: i64) -> (r: InvLevel)
    ensures
        r == level_of(v as int, c as int, l as int, m as int),
{
    if v < c {
        InvLevel::Critical
    } else if v < l {
        InvLevel::Low
    } else if v < m {
        InvLevel::Medium
    } else {
        InvLevel::High
    }
}

fn distance_level_of(d: Option<u32>, cfg: &AgentConfig) -> (r: InvLevel)
    ensures
        r == distance_level(d, *cfg),
{
    match d {
        None => InvLevel::High,
        Some(d) => level(
            d as i64,
            cfg.DISTANCE_LEVEL_CRITICAL_LOW as i64,
            cfg.DISTANCE_LEVEL_LOW_MEDIUM as i64,
            cfg.DISTANCE_LEVEL_MEDIUM_HIGH as i64,
        ),
    }
}

/// A state that can be represented as (item, level) pairs.
pub trait DiscrRep {
    spec fn rep_view(&self, cfg: AgentConfig) -> Seq<(AgentStateItems, InvLevel)>;

    fn representation(&self, cfg: &AgentConfig) -> (r: Vec<(AgentStateItems, InvLevel)>)
        ensures
            r@ == self.rep_view(*cfg),
    ;
}

impl AgentState {
    pub fn discretise(&self, cfg: &AgentConfig) -> (r: AgentStateDiscrete)
        ensures
            r == discrete_of(*self, *cfg),
    {
        AgentStateDiscrete {
            food: level(
                self.food as i64,
                cfg.INVENTORY_LEVEL_CRITICAL_LOW as i64,
                cfg.INVENTORY_LEVEL_LOW_MEDIUM as i64,
                cfg.INVENTORY_LEVEL_MEDIUM_HIGH as i64,
            ),
            water: level(
                self.water as i64,
                cfg.INVENTORY_LEVEL_CRITICAL_LOW as i64,
                cfg.INVENTORY_LEVEL_LOW_MEDIUM as i64,
                cfg.INVENTORY_LEVEL_MEDIUM_HIGH as i64,
            ),
            min_steps_to_food: distance_level_of(self.min_steps_to_food, cfg),
            min_steps_to_water: distance_level_of(self.min_steps_to_water, cfg),
            min_steps_to_trader: distance_level_of(self.min_steps_to_trader, cfg),
        }
    }
}

impl DiscrRep for AgentState {
    open spec fn rep_view(&self, cfg: AgentConfig) -> Seq<(AgentStateItems, InvLevel)> {
        representation_of(*self, cfg)
    }

    fn representation(&self, cfg: &AgentConfig) -> (r: Vec<(AgentStateItems, InvLevel)>) {
        let d = self.discretise(cfg);
        let r = vec![
            (AgentStateItems::Food, d.food),
            (AgentStateItems::Water, d.water),
            (AgentStateItems::MinStepsToFood, d.min_steps_to_food),
            (AgentStateItems::MinStepsToWater, d.min_steps_to_water),
            (AgentStateItems::MinStepsToTrader, d.min_steps_to_trader),
        ];
        assert(r@ =~= representation_of(*self, *cfg));
        r
    }
}

/// With ordered thresholds `c <= l <= m`, a value is Critical below `c`, Low
/// from `c` up to `l`, Medium from `l` up to `m` and High from `m` on; a
/// value equal to a threshold falls in the higher level.
pub proof fn lemma_level_boundaries(v: int, c: int, l: int, m: int)
    requires
        c <= l <= m,
    ensures
        level_of(v, c, l, m) == InvLevel::Critical <==> v < c,
        level_of(v, c, l, m) == InvLevel::Low <==> c <= v < l,
        level_of(v, c, l, m) == InvLevel::Medium <==> l <= v < m,
        level_of(v, c, l, m) == InvLevel::High <==> m <= v,
        v == c && c < l ==> level_of(v, c, l, m) == InvLevel::Low,
        v == l && l < m ==> level_of(v, c, l, m) == InvLevel::Medium,
        v == m ==> level_of(v, c, l, m) == InvLevel::High,
{
}

} // verus!
