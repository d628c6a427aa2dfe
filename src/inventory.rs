//! Per-agent resource counters and the forager that holds them.
use vstd::prelude::*;
use crate::config::AgentConfig;
use crate::environment::Resource;
use crate::routing::ClammsInt2D;

verus! {

/// `v` saturated to the range of `i32`.
pub open spec fn sat_i32(v: int) -> int {
    if v < i32::MIN { i32::MIN as int } else if v > i32::MAX { i32::MAX as int } else { v }
}

/// A count after `quantity` is added: saturated, then clamped to `max`.
pub open spec fn after_acquire(count: int, quantity: int, max: int) -> int {
    let v = sat_i32(count + quantity);
    if v > max { max } else { v }
}

/// The configured inventory maximum of a resource.
pub open spec fn max_inventory(cfg: AgentConfig, r: Resource) -> int {
    match r {
        Resource::Food => cfg.FOOD_MAX_INVENTORY as int,
        Resource::Water => cfg.WATER_MAX_INVENTORY as int,
    }
}

/// Adds `quantity` to `count`, saturating, and clamps the result to `max`.
pub fn add_clamped(count: i32, quantity: i64, max: i32) -> (r: i32)
    ensures
        r == after_acquire(count as int, quantity as int, max as int),
{
    let s: i128 = count as i128 + quantity as i128;
    let v: i32 = if s < i32::MIN as i128 {
        i32::MIN
    } else if s > i32::MAX as i128 {
        i32::MAX
    } else {
        s as i32
    };
    if v > max {
        max
    } else {
        v
    }
}

/// Counters of tradeable resources with clamped acquisition.
pub trait Inventory {
    spec fn stock(&self, resource: Resource) -> int;

    /// What the counters do not cover: the holder's id and position.
    spec fn holder(&self) -> (u32, ClammsInt2D);

    /// Returns the amount of a given resource in the inventory.
    fn count(&self, resource: &Resource) -> (r: i32)
        ensures
            r == self.stock(*resource),
    ;

    /// Adds `quantity` of a resource, clamped to its configured maximum.
    fn acquire(&mut self, resource: &Resource, quantity: i32, cfg: &AgentConfig)
        ensures
            final(self).stock(*resource) == after_acquire(
                old(self).stock(*resource),
                quantity as int,
                max_inventory(*cfg, *resource),
            ),
            forall|r: Resource| r != *resource ==> final(self).stock(r) == old(self).stock(r),
            final(self).holder() == old(self).holder(),
    ;

    /// Takes `quantity` of a resource away; counts may go negative.
    fn consume(&mut self, resource: &Resource, quantity: u32, cfg: &AgentConfig)
        ensures
            final(self).stock(*resource) == after_acquire(
                old(self).stock(*resource),
                -(quantity as int),
                max_inventory(*cfg, *resource),
            ),
            forall|r: Resource| r != *resource ==> final(self).stock(r) == old(self).stock(r),
            final(self).holder() == old(self).holder(),
    ;
}

/// A foraging agent: a stable identity, a position and an inventory.
/// Two foragers with the same id are the same agent: equality is by id.
#[derive(Clone, Copy, Debug)]
pub struct Forager {
    id: u32,
    pos: ClammsInt2D,
    food: i32,
    water: i32,
}

impl Forager {
    pub open spec fn spec_id(&self) -> u32 {
        self.holder().0
    }

    pub open spec fn spec_pos(&self) -> ClammsInt2D {
        self.holder().1
    }

    pub fn position(&self) -> (r: ClammsInt2D)
        ensures
            r == self.spec_pos(),
    {
        self.pos
    }

    /// Moves the forager; its id and inventory are kept.
    pub fn set_position(&mut self, pos: ClammsInt2D)
        ensures
            final(self).spec_pos() == pos,
            final(self).spec_id() == old(self).spec_id(),
            forall|r: Resource| final(self).stock(r) == old(self).stock(r),
    {
        self.pos = pos;
    }

    /// A forager starting from empty counters that acquires `food` and `water`.
    pub fn new(id: u32, pos: ClammsInt2D, food: i32, water: i32, cfg: &AgentConfig) -> (r: Forager)
        ensures
            r.spec_id() == id,
            r.spec_pos() == pos,
            r.stock(Resource::Food) == after_acquire(0, food as int, cfg.FOOD_MAX_INVENTORY as int),
            r.stock(Resource::Water) == after_acquire(
                0,
                water as int,
                cfg.WATER_MAX_INVENTORY as int,
            ),
    {
        Forager {
            id,
            pos,
            food: add_clamped(0, food as i64, cfg.FOOD_MAX_INVENTORY),
            water: add_clamped(0, water as i64, cfg.WATER_MAX_INVENTORY),
        }
    }

    pub fn id(&self) -> (r: u32)
        ensures
            r == self.spec_id(),
    {
        self.id
    }

    /// A forager that stands only for its id.
    pub fn dummy(id: u32) -> (r: Forager)
        ensures
            r.spec_id() == id,
            r.spec_pos() == (ClammsInt2D { x: 0, y: 0 }),
            r.stock(Resource::Food) == 0,
            r.stock(Resource::Water) == 0,
    {
        Forager { id, pos: ClammsInt2D { x: 0, y: 0 }, food: 0, water: 0 }
    }
}

impl PartialEq for Forager {
    fn eq(&self, other: &Forager) -> (r: bool) {
        self.id == other.id
    }
}

impl Eq for Forager {}

impl vstd::std_specs::cmp::PartialEqSpecImpl for Forager {
    open spec fn obeys_eq_spec() -> bool {
        true
    }

    open spec fn eq_spec(&self, other: &Forager) -> bool {
        self.spec_id() == other.spec_id()
    }
}

impl Inventory for Forager {
    closed spec fn holder(&self) -> (u32, ClammsInt2D) {
        (self.id, self.pos)
    }

    closed spec fn stock(&self, resource: Resource) -> int {
        match resource {
            Resource::Food => self.food as int,
            Resource::Water => self.water as int,
        }
    }

    fn count(&self, resource: &Resource) -> (r: i32) {
        match resource {
            Resource::Food => self.food,
            Resource::Water => self.water,
        }
    }

    fn acquire(&mut self, resource: &Resource, quantity: i32, cfg: &AgentConfig) {
        match resource {
            Resource::Food => {
                self.food = add_clamped(self.food, quantity as i64, cfg.FOOD_MAX_INVENTORY);
            },
            Resource::Water => {
                self.water = add_clamped(self.water, quantity as i64, cfg.WATER_MAX_INVENTORY);
            },
        }
    }

    fn consume(&mut self, resource: &Resource, quantity: u32, cfg: &AgentConfig) {
        let q: i64 = -(quantity as i64);
        match resource {
            Resource::Food => {
                self.food = add_clamped(self.food, q, cfg.FOOD_MAX_INVENTORY);
            },
            Resource::Water => {
                self.water = add_clamped(self.water, q, cfg.WATER_MAX_INVENTORY);
            },
        }
    }
}

} // verus!
