//! The board: grid fields, agents, histories and the learning model, driven
//! through the per-tick lifecycle (trade, agent steps, backup, commit).
use vstd::prelude::*;
use krabmaga::engine::fields::dense_object_grid_2d::DenseGrid2D;
use rand::rngs::StdRng;
use crate::action::Action;
use crate::agent_state::{AgentState, DiscrRep, all_levels, all_items, representation_of};
use crate::config::{Config, RATE_SCALE, WorldConfig};
use crate::environment::{EnvItem, Patch, Resource};
use crate::grid::{
    others_in,
    cells_with_others, field_commit, field_new, field_read, field_set, field_write, in_rect, key,
};
use crate::history::{History, SAR};
use crate::inventory::{after_acquire, Forager, Inventory};
use crate::random::{draw_below, rng_from_entropy, rng_from_seed, shuffle};
use crate::reward::{Reward, starvation_penalty};
use crate::routing::{
    find_nearest, min_steps_to, move_towards, random_direction, step_in_bounds, ClammsInt2D,
    Direction, moved_clamped, nearest_steps, capped, manhattan, direction_towards, is_nearest_index,
};
use crate::tabular_rl::SARSAModel;
use crate::trader::{match_trades, AgentOffer, Offer, Trade, Trader};

verus! {

/// The terrain item drawn for a patch: food below the food abundance, water
/// below food plus water abundance, otherwise land or bush by the second
/// draw (all in parts per million).
pub open spec fn env_item_of(pick: int, land_draw: int, world: WorldConfig) -> EnvItem {
    if pick < world.FOOD_ABUNDANCE {
        EnvItem::Resource(Resource::Food)
    } else if pick < world.FOOD_ABUNDANCE + world.WATER_ABUNDANCE {
        EnvItem::Resource(Resource::Water)
    } else if land_draw < world.LAND_PROP {
        EnvItem::Land
    } else {
        EnvItem::Bush
    }
}

/// The terrain item for the given draws.
pub fn env_item_from_draws(pick: u32, land_draw: u32, world: &WorldConfig) -> (r: EnvItem)
    ensures
        r == env_item_of(pick as int, land_draw as int, *world),
{
    if (pick as u64) < world.FOOD_ABUNDANCE as u64 {
        EnvItem::Resource(Resource::Food)
    } else if (pick as u64) < world.FOOD_ABUNDANCE as u64 + world.WATER_ABUNDANCE as u64 {
        EnvItem::Resource(Resource::Water)
    } else if land_draw < world.LAND_PROP {
        EnvItem::Land
    } else {
        EnvItem::Bush
    }
}

/// The cell of index `k` in a row-major field of the given height.
pub open spec fn cell_at(k: int, height: int) -> ClammsInt2D {
    ClammsInt2D { x: (k / height) as i32, y: (k % height) as i32 }
}

/// The cells among the first `n` patches of a row-major field that hold
/// resource `r`, in field order.
pub open spec fn resource_cells(field: Seq<Patch>, height: int, r: Resource, n: int) -> Seq<ClammsInt2D>
    decreases n,
{
    if n <= 0 {
        Seq::empty()
    } else {
        let prev = resource_cells(field, height, r, n - 1);
        if field[n - 1].env_item == EnvItem::Resource(r) {
            prev.push(cell_at(n - 1, height))
        } else {
            prev
        }
    }
}

/// Whether `item` is what some pair of draws below `RATE_SCALE` gives.
pub open spec fn drawn_item(item: EnvItem, world: WorldConfig) -> bool {
    exists|pick: int, land: int|
        0 <= pick < RATE_SCALE && 0 <= land < RATE_SCALE && item == #[trigger] env_item_of(pick, land, world)
}

/// A randomly drawn resource field: every patch is a possible draw, and the
/// food and water lists are exactly the food and water cells, in field order.
pub open spec fn random_field_ok(
    field: Seq<Patch>,
    height: int,
    food: Seq<ClammsInt2D>,
    water: Seq<ClammsInt2D>,
    world: WorldConfig,
) -> bool {
    &&& forall|p: int| 0 <= p < field.len() ==> drawn_item((#[trigger] field[p]).env_item, world)
    &&& food == resource_cells(field, height, Resource::Food, field.len() as int)
    &&& water == resource_cells(field, height, Resource::Water, field.len() as int)
}

/// With no food or water abundance, a drawn field holds no resource and
/// both location lists are empty.
pub proof fn lemma_zero_abundance(
    field: Seq<Patch>,
    height: int,
    food: Seq<ClammsInt2D>,
    water: Seq<ClammsInt2D>,
    world: WorldConfig,
)
    requires
        random_field_ok(field, height, food, water, world),
        world.FOOD_ABUNDANCE == 0,
        world.WATER_ABUNDANCE == 0,
    ensures
        food.len() == 0,
        water.len() == 0,
        forall|p: int| 0 <= p < field.len() ==> !((#[trigger] field[p]).env_item is Resource),
{
    assert forall|p: int| 0 <= p < field.len() implies !((#[trigger] field[p]).env_item is Resource) by {
        assert(drawn_item(field[p].env_item, world));
    }
    lemma_no_resource_cells(field, height, Resource::Food, field.len() as int);
    lemma_no_resource_cells(field, height, Resource::Water, field.len() as int);
}

proof fn lemma_no_resource_cells(field: Seq<Patch>, height: int, r: Resource, n: int)
    requires
        0 <= n <= field.len(),
        forall|p: int| 0 <= p < field.len() ==> !((#[trigger] field[p]).env_item is Resource),
    ensures
        resource_cells(field, height, r, n).len() == 0,
    decreases n,
{
    if n > 0 {
        lemma_no_resource_cells(field, height, r, n - 1);
        assert(!(field[n - 1].env_item is Resource));
    }
}

proof fn lemma_resource_cells_prefix(f1: Seq<Patch>, f2: Seq<Patch>, height: int, r: Resource, n: int)
    requires
        0 <= n <= f1.len(),
        n <= f2.len(),
        forall|k: int| 0 <= k < n ==> f1[k] == f2[k],
    ensures
        resource_cells(f1, height, r, n) == resource_cells(f2, height, r, n),
    decreases n,
{
    if n > 0 {
        lemma_resource_cells_prefix(f1, f2, height, r, n - 1);
    }
}

proof fn lemma_cleared_rect(a: Map<(int, int), Seq<u32>>, b: Map<(int, int), Seq<u32>>, w: int, h: int)
    requires
        forall|c: (int, int)| #[trigger] a.dom().contains(c) <==> in_rect(c, w, h),
        forall|c: (int, int)| #[trigger] b.dom().contains(c) <==> in_rect(c, w, h),
    ensures
        crate::grid::cleared(a) == crate::grid::cleared(b),
{
    assert(crate::grid::cleared(a) =~= crate::grid::cleared(b));
}

/// Whether `p` is one of `locs`.
fn listed(locs: &Vec<ClammsInt2D>, p: ClammsInt2D) -> (r: bool)
    ensures
        r == locs@.contains(p),
{
    let mut i: usize = 0;
    while i < locs.len()
        invariant
            i <= locs@.len(),
            forall|k: int| 0 <= k < i ==> locs@[k] != p,
        decreases locs@.len() - i,
    {
        if locs[i] == p {
            return true;
        }
        i += 1;
    }
    false
}

/// Whether cell (`x`, `y`) of a resource field seeded from a map holds what
/// the map says: water where water is listed, else food where food is
/// listed, else land or bush.
pub open spec fn map_cell_ok(
    field: Seq<Patch>,
    height: int,
    food: Seq<ClammsInt2D>,
    water: Seq<ClammsInt2D>,
    x: int,
    y: int,
) -> bool {
    let p = ClammsInt2D { x: x as i32, y: y as i32 };
    let item = item_at(field, height, p);
    &&& water.contains(p) ==> item == Some(EnvItem::Resource(Resource::Water))
    &&& !water.contains(p) && food.contains(p) ==> item == Some(EnvItem::Resource(Resource::Food))
    &&& !water.contains(p) && !food.contains(p) ==> item == Some(EnvItem::Land) || item == Some(EnvItem::Bush)
}

/// The food an agent starts with: its given inventory, else the configured one.
pub open spec fn start_food(inventories: Option<&Vec<(i32, i32)>>, k: int, cfg: Config) -> i32 {
    match inventories {
        Some(v) => v@[k].0,
        None => cfg.agent.INIT_FOOD,
    }
}

/// The water an agent starts with: its given inventory, else the configured one.
pub open spec fn start_water(inventories: Option<&Vec<(i32, i32)>>, k: int, cfg: Config) -> i32 {
    match inventories {
        Some(v) => v@[k].1,
        None => cfg.agent.INIT_WATER,
    }
}

/// The agent's counter after a tick: the settled trade delta, the per-tick
/// consumption, then what the patch under the new position yields.
pub open spec fn counter_after_tick(
    count: int,
    trade_delta: Option<int>,
    consume: int,
    gain: Option<int>,
    max: int,
) -> int {
    let settled = settled_count(count, trade_delta, max);
    let consumed = after_acquire(settled, -consume, max);
    match gain {
        Some(g) => after_acquire(consumed, g, max),
        None => consumed,
    }
}

/// What one tick does to an agent: it moves at most one step (clamped to
/// the board edges) and its counters change by the settled trade, the
/// consumption and what the patch under its new position yields.
pub open spec fn tick_effect(
    a0: Trader,
    a1: Trader,
    trade: Option<AgentOffer>,
    field: Seq<Patch>,
    dim: (u16, u16),
    cfg: Config,
) -> bool {
    let from = a0.forager.spec_pos();
    let to = a1.forager.spec_pos();
    let c = cfg.agent;
    let h = dim.1 as int;
    &&& a1.forager.spec_id() == a0.forager.spec_id()
    &&& to == from || exists|d: Direction| (to.x as int, to.y as int) == moved_clamped(from, d, dim.0 as int, h)
    &&& a1.stock(Resource::Food) == counter_after_tick(
        a0.stock(Resource::Food),
        match trade { Some(ao) => Some(ao.offer.food()), None => None },
        c.FOOD_CONSUME_RATE as int,
        gain_at(field, h, to, Resource::Food, c.FOOD_ACQUIRE_RATE as int),
        c.FOOD_MAX_INVENTORY as int,
    )
    &&& a1.stock(Resource::Water) == counter_after_tick(
        a0.stock(Resource::Water),
        match trade { Some(ao) => Some(ao.offer.water()), None => None },
        c.WATER_CONSUME_RATE as int,
        gain_at(field, h, to, Resource::Water, c.WATER_ACQUIRE_RATE as int),
        c.WATER_MAX_INVENTORY as int,
    )
}

/// Whether an action is a movement intent.
pub open spec fn is_move(a: Action) -> bool {
    a == Action::ToFood || a == Action::ToWater || a == Action::ToAgent
}

/// The grid position of a cell key.
pub open spec fn cell_of(c: (int, int)) -> ClammsInt2D {
    ClammsInt2D { x: c.0 as i32, y: c.1 as i32 }
}

/// Whether `d` is the reported step count from `p` to the nearest cell of
/// the read buffer holding an agent other than `me` (`None` if there is none).
pub open spec fn steps_to_others(
    d: Option<u32>,
    p: ClammsInt2D,
    read: Map<(int, int), Seq<u32>>,
    w: int,
    h: int,
    me: u32,
) -> bool {
    &&& d is None <==> forall|c: (int, int)| in_rect(c, w, h) ==> !others_in(#[trigger] read[c], me)
    &&& d matches Some(v) ==> {
        &&& exists|c: (int, int)|
            in_rect(c, w, h) && others_in(#[trigger] read[c], me) && v == capped(manhattan(p, cell_of(c)))
        &&& forall|c: (int, int)|
            in_rect(c, w, h) && others_in(#[trigger] read[c], me) ==> v <= capped(manhattan(p, cell_of(c)))
    }
}

/// What an agent's step records: the state observed after settling its
/// trade and before moving, and an action that keeps it in place unless it
/// is a movement intent.
pub open spec fn recorded_ok(
    a0: Trader,
    a1: Trader,
    trade: Option<AgentOffer>,
    sar: SAR,
    food_locs: Seq<ClammsInt2D>,
    water_locs: Seq<ClammsInt2D>,
    read: Map<(int, int), Seq<u32>>,
    dim: (u16, u16),
    cfg: Config,
) -> bool {
    let from = a0.forager.spec_pos();
    let me = a0.forager.spec_id();
    &&& !is_move(sar.action) ==> a1.forager.spec_pos() == from
    &&& sar.state.food == settled_count(
        a0.stock(Resource::Food),
        match trade { Some(ao) => Some(ao.offer.food()), None => None },
        cfg.agent.FOOD_MAX_INVENTORY as int,
    )
    &&& sar.state.water == settled_count(
        a0.stock(Resource::Water),
        match trade { Some(ao) => Some(ao.offer.water()), None => None },
        cfg.agent.WATER_MAX_INVENTORY as int,
    )
    &&& sar.state.min_steps_to_food == nearest_steps(from, food_locs)
    &&& sar.state.min_steps_to_water == nearest_steps(from, water_locs)
    &&& steps_to_others(sar.state.min_steps_to_trader, from, read, dim.0 as int, dim.1 as int, me)
}

/// A counter after the settled trade delta, if any.
pub open spec fn settled_count(count: int, trade_delta: Option<int>, max: int) -> int {
    match trade_delta {
        Some(d) => after_acquire(count, d, max),
        None => count,
    }
}

proof fn lemma_steps_to_others(
    d: Option<u32>,
    p: ClammsInt2D,
    others: Seq<ClammsInt2D>,
    read: Map<(int, int), Seq<u32>>,
    w: int,
    h: int,
    me: u32,
)
    requires
        0 <= w <= 0x1_0000,
        0 <= h <= 0x1_0000,
        d is None <==> others.len() == 0,
        d matches Some(v) ==> {
            &&& exists|k: int| 0 <= k < others.len() && v == capped(manhattan(p, others[k]))
            &&& forall|k: int| 0 <= k < others.len() ==> v <= capped(manhattan(p, others[k]))
        },
        forall|k: int|
            0 <= k < others.len() ==> in_rect(key(others[k]), w, h) && others_in(read[key(others[k])], me),
        forall|c: (int, int)|
            in_rect(c, w, h) && others_in(#[trigger] read[c], me) ==> exists|k: int|
                0 <= k < others.len() && key(others[k]) == c,
    ensures
        steps_to_others(d, p, read, w, h, me),
{
    if others.len() > 0 {
        assert(in_rect(key(others[0]), w, h) && others_in(read[key(others[0])], me));
    }
    match d {
        None => {},
        Some(v) => {
            let k = choose|k: int| 0 <= k < others.len() && v == capped(manhattan(p, others[k]));
            let c = key(others[k]);
            assert(cell_of(c) == others[k]);
            assert(in_rect(c, w, h) && others_in(read[c], me) && v == capped(manhattan(p, cell_of(c))));
            assert forall|c2: (int, int)|
                in_rect(c2, w, h) && others_in(#[trigger] read[c2], me) implies v <= capped(manhattan(p, cell_of(c2))) by {
                let k2 = choose|k2: int| 0 <= k2 < others.len() && key(others[k2]) == c2;
                assert(cell_of(c2) == others[k2]);
            }
        },
    }
}

/// The item of the cell at `p` in a row-major resource field of the given height.
pub open spec fn item_at(field: Seq<Patch>, height: int, p: ClammsInt2D) -> Option<EnvItem> {
    let i = p.x * height + p.y;
    if 0 <= p.y < height && 0 <= p.x && 0 <= i < field.len() {
        Some(field[i].env_item)
    } else {
        None
    }
}

/// What a resource patch under `p` yields of resource `r` per tick.
pub open spec fn gain_at(field: Seq<Patch>, height: int, p: ClammsInt2D, r: Resource, rate: int) -> Option<int> {
    if item_at(field, height, p) == Some(EnvItem::Resource(r)) {
        Some(rate)
    } else {
        None
    }
}

/// The board state.
pub struct Board {
    step: u64,
    agent_grid: DenseGrid2D<u32>,
    resource_field: Vec<Patch>,
    dim: (u16, u16),
    num_agents: u8,
    agents: Vec<Trader>,
    agent_histories: Vec<History>,
    food_locations: Vec<ClammsInt2D>,
    water_locations: Vec<ClammsInt2D>,
    rng: StdRng,
    model: SARSAModel,
    loaded_map: bool,
    has_trading: bool,
    traded: Vec<Option<AgentOffer>>,
    cfg: Config,
}

/// What a board needs of its parameters: a grid of at least 2 x 2 whose
/// cell count fits the field, and a model that has a complete table for
/// every agent.
pub open spec fn board_params_ok(dim: (u16, u16), num_agents: u8, model: SARSAModel) -> bool {
    &&& dim.0 >= 2
    &&& dim.1 >= 2
    &&& dim.0 * dim.1 <= i32::MAX
    &&& model.wf()
    &&& model.complete()
    &&& forall|id: u32| id < num_agents ==> #[trigger] model.has_policy(id)
}

impl Board {
    pub closed spec fn tick(&self) -> u64 {
        self.step
    }

    pub closed spec fn dims(&self) -> (u16, u16) {
        self.dim
    }

    pub closed spec fn agents(&self) -> Seq<Trader> {
        self.agents@
    }

    pub closed spec fn histories(&self) -> Seq<History> {
        self.agent_histories@
    }

    pub closed spec fn field(&self) -> Seq<Patch> {
        self.resource_field@
    }

    pub closed spec fn trades(&self) -> Seq<Option<AgentOffer>> {
        self.traded@
    }

    pub closed spec fn config(&self) -> Config {
        self.cfg
    }

    pub closed spec fn food_locs(&self) -> Seq<ClammsInt2D> {
        self.food_locations@
    }

    pub closed spec fn water_locs(&self) -> Seq<ClammsInt2D> {
        self.water_locations@
    }

    /// Whether a field was seeded from a map rather than drawn.
    pub closed spec fn map_loaded(&self) -> bool {
        self.loaded_map
    }

    /// The actions of the table that agent `id` follows.
    pub closed spec fn policy_actions(&self, id: u32) -> Seq<Action> {
        self.model.tables()[self.model.table_of(id)].actions()
    }

    pub closed spec fn trading(&self) -> bool {
        self.has_trading
    }

    pub closed spec fn agent_count(&self) -> nat {
        self.num_agents as nat
    }

    /// The read buffer of the agent field.
    pub closed spec fn located(&self) -> Map<(int, int), Seq<u32>> {
        field_read(self.agent_grid)
    }

    /// The pending buffer of the agent field.
    pub closed spec fn pending(&self) -> Map<(int, int), Seq<u32>> {
        field_write(self.agent_grid)
    }

    /// The board is well formed and, as between ticks, nothing is pending.
    pub closed spec fn wf(&self) -> bool {
        &&& self.wf_core()
        &&& field_write(self.agent_grid) == crate::grid::cleared(field_read(self.agent_grid))
    }

    pub closed spec fn wf_core(&self) -> bool {
        let w = self.dim.0 as int;
        let h = self.dim.1 as int;
        &&& board_params_ok(self.dim, self.num_agents, self.model)
        &&& forall|c: (int, int)| #[trigger] field_read(self.agent_grid).dom().contains(c) <==> in_rect(c, w, h)
        &&& forall|c: (int, int)| #[trigger] field_write(self.agent_grid).dom().contains(c) <==> in_rect(c, w, h)
        &&& self.agents@.len() == self.agent_histories@.len()
        &&& self.agents@.len() <= self.num_agents
        &&& self.traded@.len() == self.agents@.len()
        &&& forall|i: int| 0 <= i < self.agents@.len() ==> {
            let a = #[trigger] self.agents@[i];
            &&& a.forager.spec_id() == i
            &&& 1 <= a.forager.spec_pos().x < w
            &&& 1 <= a.forager.spec_pos().y < h
        }
        &&& forall|i: int| 0 <= i < self.agent_histories@.len() ==> {
            let hst = #[trigger] self.agent_histories@[i];
            &&& hst.wf()
            &&& hst.trajectory@.len() == self.step
        }
    }

    /// The board part way through a tick: agents before `done` have taken
    /// their step (their histories are one longer), the rest have not.
    pub closed spec fn wf_mid(&self, done: int) -> bool {
        let w = self.dim.0 as int;
        let h = self.dim.1 as int;
        &&& board_params_ok(self.dim, self.num_agents, self.model)
        &&& forall|c: (int, int)| #[trigger] field_read(self.agent_grid).dom().contains(c) <==> in_rect(c, w, h)
        &&& forall|c: (int, int)| #[trigger] field_write(self.agent_grid).dom().contains(c) <==> in_rect(c, w, h)
        &&& self.agents@.len() == self.agent_histories@.len()
        &&& self.agents@.len() <= self.num_agents
        &&& self.traded@.len() == self.agents@.len()
        &&& 0 <= done <= self.agents@.len()
        &&& self.step < u64::MAX
        &&& forall|i: int| 0 <= i < self.agents@.len() ==> {
            let a = #[trigger] self.agents@[i];
            &&& a.forager.spec_id() == i
            &&& 1 <= a.forager.spec_pos().x < w
            &&& 1 <= a.forager.spec_pos().y < h
        }
        &&& forall|i: int| 0 <= i < self.agent_histories@.len() ==> {
            let hst = #[trigger] self.agent_histories@[i];
            &&& hst.wf()
            &&& hst.trajectory@.len() == if i < done { self.step + 1 } else { self.step as int }
        }
        &&& forall|c: (int, int), id: u32|
            field_write(self.agent_grid).dom().contains(c) && #[trigger] field_write(self.agent_grid)[c].contains(id)
                ==> (id as int) < done && id < self.agents@.len() && c == key(self.agents@[id as int].forager.spec_pos())
    }

    fn construct(
        dim: (u16, u16),
        num_agents: u8,
        rng: StdRng,
        model: SARSAModel,
        has_trading: bool,
        food_locations: Vec<ClammsInt2D>,
        water_locations: Vec<ClammsInt2D>,
        loaded_map: bool,
        cfg: &Config,
    ) -> (r: Board)
        requires
            board_params_ok(dim, num_agents, model),
        ensures
            r.wf(),
            r.tick() == 0,
            r.agents().len() == 0,
            r.dims() == dim,
            r.agent_count() == num_agents,
            r.config() == *cfg,
    {
        let agent_grid = field_new(dim.0 as i32, dim.1 as i32);
        assert(crate::grid::cleared(field_read(agent_grid)) =~= field_write(agent_grid));
        Board {
            step: 0,
            agent_grid,
            resource_field: Vec::new(),
            dim,
            num_agents,
            agents: Vec::new(),
            agent_histories: Vec::new(),
            food_locations,
            water_locations,
            rng,
            model,
            loaded_map,
            has_trading,
            traded: Vec::new(),
            cfg: *cfg,
        }
    }

    /// A board whose random draws are seeded by the system.
    pub fn new(dim: (u16, u16), num_agents: u8, model: SARSAModel, has_trading: bool, cfg: &Config) -> (r: Board)
        requires
            board_params_ok(dim, num_agents, model),
        ensures
            r.wf(),
            r.tick() == 0,
            r.agents().len() == 0,
            r.dims() == dim,
            r.config() == *cfg,
    {
        Board::construct(dim, num_agents, rng_from_entropy(), model, has_trading, Vec::new(), Vec::new(), false, cfg)
    }

    /// A board whose random draws are fixed by `seed`.
    pub fn new_with_seed(
        dim: (u16, u16),
        num_agents: u8,
        seed: u64,
        model: SARSAModel,
        has_trading: bool,
        cfg: &Config,
    ) -> (r: Board)
        requires
            board_params_ok(dim, num_agents, model),
        ensures
            r.wf(),
            r.tick() == 0,
            r.agents().len() == 0,
            r.dims() == dim,
            r.config() == *cfg,
    {
        Board::construct(dim, num_agents, rng_from_seed(seed), model, has_trading, Vec::new(), Vec::new(), false, cfg)
    }

    /// A seeded board whose resources are placed from a map of food and
    /// water locations instead of at random.
    pub fn new_with_seed_resources(
        dim: (u16, u16),
        num_agents: u8,
        seed: u64,
        food_locations: Vec<ClammsInt2D>,
        water_locations: Vec<ClammsInt2D>,
        model: SARSAModel,
        has_trading: bool,
        cfg: &Config,
    ) -> (r: Board)
        requires
            board_params_ok(dim, num_agents, model),
        ensures
            r.wf(),
            r.tick() == 0,
            r.agents().len() == 0,
            r.dims() == dim,
            r.config() == *cfg,
    {
        Board::construct(dim, num_agents, rng_from_seed(seed), model, has_trading, food_locations, water_locations, true, cfg)
    }

    /// Adds agent `id` at `pos` with the configured starting inventory, an
    /// empty history, and its location written to the pending buffer.
    fn place_agent(&mut self, pos: ClammsInt2D, food: i32, water: i32)
        requires
            old(self).wf_core(),
            old(self).agents@.len() < old(self).num_agents,
            old(self).step == 0,
            1 <= pos.x < old(self).dim.0,
            1 <= pos.y < old(self).dim.1,
        ensures
            final(self).wf_core(),
            final(self).agents@.len() == old(self).agents@.len() + 1,
            final(self).agents@.last().forager.spec_pos() == pos,
            final(self).agents@.last().stock(Resource::Food) == after_acquire(0, food as int, old(self).cfg.agent.FOOD_MAX_INVENTORY as int),
            final(self).agents@.last().stock(Resource::Water) == after_acquire(0, water as int, old(self).cfg.agent.WATER_MAX_INVENTORY as int),
            forall|i: int| 0 <= i < old(self).agents@.len() ==> final(self).agents@[i] == old(self).agents@[i],
            final(self).step == old(self).step,
            final(self).dim == old(self).dim,
            final(self).num_agents == old(self).num_agents,
            final(self).cfg == old(self).cfg,
            final(self).resource_field == old(self).resource_field,
            final(self).loaded_map == old(self).loaded_map,
            final(self).food_locations == old(self).food_locations,
            final(self).water_locations == old(self).water_locations,
            field_read(final(self).agent_grid) == field_read(old(self).agent_grid),
            field_write(final(self).agent_grid) == field_write(old(self).agent_grid).insert(
                key(pos),
                crate::grid::placed(field_write(old(self).agent_grid)[key(pos)], old(self).agents@.len() as u32),
            ),
            final(self).agent_histories@.len() == final(self).agents@.len(),
    {
        let id = self.agents.len() as u32;
        let agent = Trader::new(Forager::new(id, pos, food, water, &self.cfg.agent));
        self.agents.push(agent);
        self.agent_histories.push(History::new());
        self.traded.push(None);
        assert(field_write(self.agent_grid).dom().contains(key(pos)));
        field_set(&mut self.agent_grid, id, pos);
        proof {
            assert forall|c: (int, int)| #[trigger] field_write(self.agent_grid).dom().contains(c) <==> in_rect(c, self.dim.0 as int, self.dim.1 as int) by {
                assert(field_write(old(self).agent_grid).dom().contains(c) <==> in_rect(c, self.dim.0 as int, self.dim.1 as int));
            }
            assert forall|i: int| 0 <= i < self.agents@.len() implies {
                let a = #[trigger] self.agents@[i];
                &&& a.forager.spec_id() == i
                &&& 1 <= a.forager.spec_pos().x < self.dim.0
                &&& 1 <= a.forager.spec_pos().y < self.dim.1
            } by {
                if i < old(self).agents@.len() {
                    assert(self.agents@[i] == old(self).agents@[i]);
                }
            }
            assert forall|i: int| 0 <= i < self.agent_histories@.len() implies {
                let hst = #[trigger] self.agent_histories@[i];
                &&& hst.wf()
                &&& hst.trajectory@.len() == self.step
            } by {
                if i < old(self).agent_histories@.len() {
                    assert(self.agent_histories@[i] == old(self).agent_histories@[i]);
                }
            }
        }
    }

    /// The patch ids and items of a fresh resource field, drawn at random.
    fn set_resources_random(&mut self)
        requires
            old(self).wf_core(),
        ensures
            final(self).wf_core(),
            final(self).resource_field@.len() == final(self).dim.0 * final(self).dim.1,
            forall|p: int| 0 <= p < final(self).resource_field@.len() ==> (#[trigger] final(self).resource_field@[p]).id == p,
            random_field_ok(final(self).resource_field@, final(self).dim.1 as int, final(self).food_locations@, final(self).water_locations@, final(self).cfg.world),
            final(self).agents == old(self).agents,
            final(self).agent_histories == old(self).agent_histories,
            final(self).agent_grid == old(self).agent_grid,
            final(self).step == old(self).step,
            final(self).dim == old(self).dim,
            final(self).num_agents == old(self).num_agents,
            final(self).cfg == old(self).cfg,
            final(self).traded == old(self).traded,
    {
        let w = self.dim.0;
        let h = self.dim.1;
        let mut field: Vec<Patch> = Vec::new();
        let mut food: Vec<ClammsInt2D> = Vec::new();
        let mut water: Vec<ClammsInt2D> = Vec::new();
        let mut x: u16 = 0;
        while x < w
            invariant
                self.wf_core(),
                w == self.dim.0,
                h == self.dim.1,
                x <= w,
                field@.len() == x * h,
                forall|p: int| 0 <= p < field@.len() ==> (#[trigger] field@[p]).id == p,
                random_field_ok(field@, h as int, food@, water@, self.cfg.world),
                self.agents == old(self).agents,
                self.agent_histories == old(self).agent_histories,
                self.agent_grid == old(self).agent_grid,
                self.step == old(self).step,
                self.dim == old(self).dim,
                self.num_agents == old(self).num_agents,
                self.cfg == old(self).cfg,
                self.traded == old(self).traded,
            decreases w - x,
        {
            let mut y: u16 = 0;
            while y < h
                invariant
                    self.wf_core(),
                    w == self.dim.0,
                    h == self.dim.1,
                    x < w,
                    y <= h,
                    field@.len() == x * h + y,
                    w * h <= i32::MAX,
                    forall|p: int| 0 <= p < field@.len() ==> (#[trigger] field@[p]).id == p,
                    random_field_ok(field@, h as int, food@, water@, self.cfg.world),
                    self.agents == old(self).agents,
                    self.agent_histories == old(self).agent_histories,
                    self.agent_grid == old(self).agent_grid,
                    self.step == old(self).step,
                    self.dim == old(self).dim,
                    self.num_agents == old(self).num_agents,
                    self.cfg == old(self).cfg,
                    self.traded == old(self).traded,
                decreases h - y,
            {
                proof {
                    assert(x * h + y < w * h) by (nonlinear_arith) requires x < w, y < h;
                }
                let pick = draw_below(&mut self.rng, RATE_SCALE);
                let land = if (pick as u64) < self.cfg.world.FOOD_ABUNDANCE as u64 + self.cfg.world.WATER_ABUNDANCE as u64 {
                    0
                } else {
                    draw_below(&mut self.rng, RATE_SCALE)
                };
                let item = env_item_from_draws(pick, land, &self.cfg.world);
                let id: u32 = (x as u32) * (h as u32) + y as u32;
                let pos = ClammsInt2D { x: x as i32, y: y as i32 };
                let ghost before = field@;
                field.push(Patch::new(id, item));
                proof {
                    let n = before.len() as int;
                    assert(n == x * h + y);
                    vstd::arithmetic::div_mod::lemma_fundamental_div_mod_converse(n, h as int, x as int, y as int);
                    assert(cell_at(n, h as int) == pos);
                    lemma_resource_cells_prefix(field@, before, h as int, Resource::Food, n);
                    lemma_resource_cells_prefix(field@, before, h as int, Resource::Water, n);
                    assert(drawn_item(item, self.cfg.world)) by {
                        assert(item == env_item_of(pick as int, land as int, self.cfg.world));
                    }
                    assert forall|p: int| 0 <= p < field@.len() implies drawn_item((#[trigger] field@[p]).env_item, self.cfg.world) by {
                        if p < n {
                            assert(field@[p] == before[p]);
                        }
                    }
                }
                match item {
                    EnvItem::Resource(Resource::Food) => {
                        food.push(pos);
                    },
                    EnvItem::Resource(Resource::Water) => {
                        water.push(pos);
                    },
                    _ => {},
                }
                y += 1;
            }
            proof {
                assert((x + 1) * h == x * h + h) by (nonlinear_arith);
            }
            x += 1;
        }
        self.resource_field = field;
        self.food_locations = food;
        self.water_locations = water;
    }
}


/// Applies the trade recorded for an agent, if any.
fn settle(agent: &mut Trader, trade: Option<AgentOffer>, cfg: &crate::config::AgentConfig)
    ensures
        final(agent).holder() == old(agent).holder(),
        final(agent).stock(Resource::Food) == match trade {
            Some(ao) => after_acquire(old(agent).stock(Resource::Food), ao.offer.food(), cfg.FOOD_MAX_INVENTORY as int),
            None => old(agent).stock(Resource::Food),
        },
        final(agent).stock(Resource::Water) == match trade {
            Some(ao) => after_acquire(old(agent).stock(Resource::Water), ao.offer.water(), cfg.WATER_MAX_INVENTORY as int),
            None => old(agent).stock(Resource::Water),
        },
{
    match trade {
        Some(ao) => {
            agent.apply_offer(&ao.offer, cfg);
        },
        None => {},
    }
}

/// The per-tick consumption, then what the patch underneath yields.
fn forage(agent: &mut Trader, item: Option<EnvItem>, cfg: &crate::config::AgentConfig)
    ensures
        final(agent).holder() == old(agent).holder(),
        final(agent).stock(Resource::Food) == counter_after_tick(
            old(agent).stock(Resource::Food),
            None,
            cfg.FOOD_CONSUME_RATE as int,
            if item == Some(EnvItem::Resource(Resource::Food)) { Some(cfg.FOOD_ACQUIRE_RATE as int) } else { None },
            cfg.FOOD_MAX_INVENTORY as int,
        ),
        final(agent).stock(Resource::Water) == counter_after_tick(
            old(agent).stock(Resource::Water),
            None,
            cfg.WATER_CONSUME_RATE as int,
            if item == Some(EnvItem::Resource(Resource::Water)) { Some(cfg.WATER_ACQUIRE_RATE as int) } else { None },
            cfg.WATER_MAX_INVENTORY as int,
        ),
{
    agent.consume(&Resource::Food, cfg.FOOD_CONSUME_RATE, cfg);
    agent.consume(&Resource::Water, cfg.WATER_CONSUME_RATE, cfg);
    match item {
        Some(EnvItem::Resource(Resource::Food)) => {
            agent.acquire(&Resource::Food, cfg.FOOD_ACQUIRE_RATE, cfg);
        },
        Some(EnvItem::Resource(Resource::Water)) => {
            agent.acquire(&Resource::Water, cfg.WATER_ACQUIRE_RATE, cfg);
        },
        _ => {},
    }
}

proof fn lemma_representation_is_state(state: AgentState, cfg: crate::config::AgentConfig)
    ensures
        crate::q_table::is_state(all_items(), all_levels(), representation_of(state, cfg)),
{
    let r = representation_of(state, cfg);
    assert forall|k: int| 0 <= k < r.len() implies (#[trigger] r[k]).0 == all_items()[k] && all_levels().contains(r[k].1) by {
        let lv = r[k].1;
        match lv {
            crate::agent_state::InvLevel::Critical => { assert(all_levels()[0] == lv); },
            crate::agent_state::InvLevel::Low => { assert(all_levels()[1] == lv); },
            crate::agent_state::InvLevel::Medium => { assert(all_levels()[2] == lv); },
            crate::agent_state::InvLevel::High => { assert(all_levels()[3] == lv); },
        }
    }
}

/// The direction to take towards the nearest of `targets` (none when
/// already there), or a random one when there are no targets.
fn route_to(pos: &ClammsInt2D, targets: &Vec<ClammsInt2D>, rng: &mut StdRng) -> (r: Option<Direction>)
    ensures
        targets@.len() == 0 ==> r is Some,
        targets@.len() > 0 ==> exists|k: int|
            is_nearest_index(*pos, targets@, None, k) && (r == direction_towards(*pos, targets@[k], true)
                || r == direction_towards(*pos, targets@[k], false)),
{
    let nearest = find_nearest(pos, targets, None);
    proof {
        if targets@.len() > 0 {
            assert(crate::routing::in_sight(*pos, targets@[0], None));
        }
    }
    match nearest {
        None => Some(random_direction(rng)),
        Some(t) => {
            let ghost k = choose|k: int| is_nearest_index(*pos, targets@, None, k) && targets@[k] == t;
            let r = move_towards(pos, &t, rng);
            assert(is_nearest_index(*pos, targets@, None, k) && (r == direction_towards(*pos, targets@[k], true)
                || r == direction_towards(*pos, targets@[k], false)));
            r
        },
    }
}

impl Board {
    /// Stores agent `i` after its step and appends the step to its history.
    fn record(&mut self, i: usize, agent: Trader, sar: SAR, pos: ClammsInt2D, trade: Option<AgentOffer>)
        requires
            i < old(self).agents@.len(),
            old(self).agents@.len() == old(self).agent_histories@.len(),
        ensures
            final(self).agents@ == old(self).agents@.update(i as int, agent),
            final(self).agent_histories@.len() == old(self).agent_histories@.len(),
            forall|j: int| 0 <= j < final(self).agent_histories@.len() && j != i ==> final(self).agent_histories@[j] == old(self).agent_histories@[j],
            final(self).agent_histories@[i as int].trajectory@ == old(self).agent_histories@[i as int].trajectory@.push(sar),
            final(self).agent_histories@[i as int].times@ == old(self).agent_histories@[i as int].times@.push(old(self).step),
            final(self).agent_histories@[i as int].positions@ == old(self).agent_histories@[i as int].positions@.push(pos),
            final(self).agent_histories@[i as int].trades@ == old(self).agent_histories@[i as int].trades@.push(trade),
            old(self).agent_histories@[i as int].wf() ==> final(self).agent_histories@[i as int].wf(),
            final(self).step == old(self).step,
            final(self).dim == old(self).dim,
            final(self).num_agents == old(self).num_agents,
            final(self).cfg == old(self).cfg,
            final(self).traded == old(self).traded,
            final(self).resource_field == old(self).resource_field,
            final(self).food_locations == old(self).food_locations,
            final(self).water_locations == old(self).water_locations,
            final(self).model == old(self).model,
            final(self).has_trading == old(self).has_trading,
            final(self).agent_grid == old(self).agent_grid,
    {
        let mut hst = self.agent_histories.remove(i);
        hst.push(sar, self.step, pos, trade);
        self.agent_histories.insert(i, hst);
        self.agents.set(i, agent);
        assert forall|j: int| 0 <= j < self.agent_histories@.len() && j != i implies self.agent_histories@[j] == old(self).agent_histories@[j] by {
            if j < i {
            } else {
            }
        }
    }

    /// The item of the resource field under `p`, if `p` is on it.
    fn item_under(&self, p: &ClammsInt2D) -> (r: Option<EnvItem>)
        ensures
            r == item_at(self.resource_field@, self.dim.1 as int, *p),
    {
        let h: i64 = self.dim.1 as i64;
        if p.y < 0 || p.y as i64 >= h || p.x < 0 {
            return None;
        }
        proof {
            assert(0 <= p.x * h <= 0x8000_0000i64 * 0x1_0000i64) by (nonlinear_arith)
                requires 0 <= p.x <= 0x8000_0000i64, 0 <= h <= 0x1_0000i64;
        }
        let idx: i64 = p.x as i64 * h + p.y as i64;
        if idx as u64 >= self.resource_field.len() as u64 {
            return None;
        }
        Some(self.resource_field[idx as usize].env_item)
    }

    /// One agent's step: settle the trade recorded for it, observe, choose an
    /// action, move, consume, gather from the patch underneath, write the new
    /// location to the pending buffer and append the tick to its history.
    fn step_agent(&mut self, i: usize)
        requires
            old(self).wf_mid(i as int),
            i < old(self).agents@.len(),
        ensures
            final(self).wf_mid(i + 1),
            final(self).agents@.len() == old(self).agents@.len(),
            forall|j: int| 0 <= j < final(self).agents@.len() && j != i ==> final(self).agents@[j] == old(self).agents@[j],
            forall|j: int| 0 <= j < final(self).agents@.len() && j != i ==> final(self).agent_histories@[j] == old(self).agent_histories@[j],
            final(self).step == old(self).step,
            final(self).dim == old(self).dim,
            final(self).num_agents == old(self).num_agents,
            final(self).cfg == old(self).cfg,
            final(self).traded == old(self).traded,
            final(self).resource_field == old(self).resource_field,
            final(self).food_locations == old(self).food_locations,
            final(self).water_locations == old(self).water_locations,
            final(self).model == old(self).model,
            final(self).has_trading == old(self).has_trading,
            field_read(final(self).agent_grid) == field_read(old(self).agent_grid),
            ({
                let a0 = old(self).agents@[i as int];
                let a1 = final(self).agents@[i as int];
                let from = a0.forager.spec_pos();
                let to = a1.forager.spec_pos();
                let c = old(self).cfg.agent;
                let t = old(self).traded@[i as int];
                let h = old(self).dim.1 as int;
                let field = old(self).resource_field@;
                let sar = final(self).agent_histories@[i as int].trajectory@.last();
                &&& to == from || exists|d: Direction| (to.x as int, to.y as int) == moved_clamped(from, d, old(self).dim.0 as int, h)
                &&& a1.stock(Resource::Food) == counter_after_tick(
                    a0.stock(Resource::Food),
                    match t { Some(ao) => Some(ao.offer.food()), None => None },
                    c.FOOD_CONSUME_RATE as int,
                    gain_at(field, h, to, Resource::Food, c.FOOD_ACQUIRE_RATE as int),
                    c.FOOD_MAX_INVENTORY as int,
                )
                &&& a1.stock(Resource::Water) == counter_after_tick(
                    a0.stock(Resource::Water),
                    match t { Some(ao) => Some(ao.offer.water()), None => None },
                    c.WATER_CONSUME_RATE as int,
                    gain_at(field, h, to, Resource::Water, c.WATER_ACQUIRE_RATE as int),
                    c.WATER_MAX_INVENTORY as int,
                )
                &&& final(self).agent_histories@[i as int].trajectory@ == old(self).agent_histories@[i as int].trajectory@.push(sar)
                &&& sar.reward.val == starvation_penalty(a1.stock(Resource::Food), a1.stock(Resource::Water))
                &&& final(self).agent_histories@[i as int].positions@.last() == to
                &&& final(self).agent_histories@[i as int].times@.last() == old(self).step
                &&& final(self).agent_histories@[i as int].trades@.last() == t
                &&& field_write(final(self).agent_grid) == field_write(old(self).agent_grid).insert(
                    (to.x as int, to.y as int),
                    crate::grid::placed(field_write(old(self).agent_grid)[(to.x as int, to.y as int)], i as u32),
                )
                &&& forall|c: (int, int)|
                    field_write(final(self).agent_grid).dom().contains(c) && c != key(to)
                        ==> !(#[trigger] field_write(final(self).agent_grid)[c]).contains(i as u32)
                &&& recorded_ok(
                    a0,
                    a1,
                    t,
                    sar,
                    old(self).food_locations@,
                    old(self).water_locations@,
                    field_read(old(self).agent_grid),
                    old(self).dim,
                    old(self).cfg,
                )
                &&& old(self).model.tables()[old(self).model.table_of(i as u32)].actions().contains(sar.action)
            }),
    {
        let w = self.dim.0;
        let h = self.dim.1;
        let mut agent = self.agents[i];
        let trade = self.traded[i];
        settle(&mut agent, trade, &self.cfg.agent);
        let pos = agent.forager.position();
        let others = cells_with_others(&self.agent_grid, w, h, i as u32);
        let ghost a0 = self.agents@[i as int];
        let ghost read0 = field_read(self.agent_grid);
        let state = AgentState {
            food: agent.count(&Resource::Food),
            water: agent.count(&Resource::Water),
            min_steps_to_food: min_steps_to(&pos, &self.food_locations),
            min_steps_to_water: min_steps_to(&pos, &self.water_locations),
            min_steps_to_trader: min_steps_to(&pos, &others),
        };
        let rep = state.representation(&self.cfg.agent);
        proof {
            assert(self.model.has_policy(i as u32));
            lemma_representation_is_state(state, self.cfg.agent);
        }
        let action = self.model.sample_action_by_id(i as u32, &rep, &mut self.rng);
        let route = match action {
            Action::ToFood => route_to(&pos, &self.food_locations, &mut self.rng),
            Action::ToWater => route_to(&pos, &self.water_locations, &mut self.rng),
            Action::ToAgent => route_to(&pos, &others, &mut self.rng),
            _ => None,
        };
        let new_pos = match route {
            Some(d) => step_in_bounds(&pos, d, w, h),
            None => pos,
        };
        proof {
            if route is Some {
                let d = route->Some_0;
                assert((new_pos.x as int, new_pos.y as int) == moved_clamped(pos, d, w as int, h as int));
            }
        }
        agent.forager.set_position(new_pos);
        let item = self.item_under(&new_pos);
        forage(&mut agent, item, &self.cfg.agent);
        assert(field_write(self.agent_grid).dom().contains(key(new_pos)));
        field_set(&mut self.agent_grid, i as u32, new_pos);
        let reward = Reward::from_inv_count_linear(agent.count(&Resource::Food), agent.count(&Resource::Water));
        let sar = SAR::new(state, action, reward);
        self.record(i, agent, sar, new_pos, trade);
        proof {
            lemma_steps_to_others(state.min_steps_to_trader, pos, others@, read0, w as int, h as int, i as u32);
            assert(a0.forager.spec_id() == i);
            assert forall|c: (int, int), id: u32|
                field_write(self.agent_grid).dom().contains(c) && #[trigger] field_write(self.agent_grid)[c].contains(id)
                    implies (id as int) < i + 1 && id < self.agents@.len() && c == key(self.agents@[id as int].forager.spec_pos()) by {
                if c == key(new_pos) {
                    crate::grid::lemma_placed_rev(field_write(old(self).agent_grid)[c], i as u32, id);
                    if id != i as u32 {
                        assert(field_write(old(self).agent_grid)[c].contains(id));
                        assert(self.agents@[id as int] == old(self).agents@[id as int]);
                    }
                } else {
                    assert(field_write(old(self).agent_grid)[c] == field_write(self.agent_grid)[c]);
                    assert(self.agents@[id as int] == old(self).agents@[id as int]);
                }
            }
            assert forall|c: (int, int)| #[trigger] field_write(self.agent_grid).dom().contains(c) <==> in_rect(c, w as int, h as int) by {
                assert(field_write(old(self).agent_grid).dom().contains(c) <==> in_rect(c, w as int, h as int));
            }
            assert forall|j: int| 0 <= j < self.agents@.len() implies {
                let a = #[trigger] self.agents@[j];
                &&& a.forager.spec_id() == j
                &&& 1 <= a.forager.spec_pos().x < w
                &&& 1 <= a.forager.spec_pos().y < h
            } by {
                if j != i {
                    assert(self.agents@[j] == old(self).agents@[j]);
                }
            }
            assert forall|j: int| 0 <= j < self.agent_histories@.len() implies {
                let hh = #[trigger] self.agent_histories@[j];
                &&& hh.wf()
                &&& hh.trajectory@.len() == if j < i + 1 { self.step + 1 } else { self.step as int }
            } by {
                if j != i {
                    assert(self.agent_histories@[j] == old(self).agent_histories@[j]);
                }
            }
        }
    }
}


/// The indices below `k` of the offers that are not trivial, in order.
pub open spec fn nontrivial_upto(offers: Seq<Offer>, k: int) -> Seq<usize>
    decreases k,
{
    if k <= 0 {
        Seq::empty()
    } else {
        let prev = nontrivial_upto(offers, k - 1);
        if offers[k - 1].food() == 0 && offers[k - 1].water() == 0 {
            prev
        } else {
            prev.push((k - 1) as usize)
        }
    }
}

impl Board {
    /// The offers the agents post, by agent id.
    pub closed spec fn offers_now(&self) -> Seq<Offer> {
        Seq::new(self.agents@.len(), |j: int| self.agents@[j].spec_offer(self.cfg.agent, self.cfg.trade))
    }

    /// The positions of the agents, by agent id.
    pub closed spec fn positions_now(&self) -> Seq<ClammsInt2D> {
        Seq::new(self.agents@.len(), |j: int| self.agents@[j].forager.spec_pos())
    }

    /// Runs the trading engine on the snapshot at the start of a tick (from
    /// the second tick on, when trading is enabled): the agents with a
    /// non-trivial offer look for a partner in a random order.
    fn before_step(&mut self)
        requires
            old(self).wf(),
        ensures
            final(self).wf(),
            final(self).agents == old(self).agents,
            final(self).agent_histories == old(self).agent_histories,
            final(self).step == old(self).step,
            final(self).dim == old(self).dim,
            final(self).num_agents == old(self).num_agents,
            final(self).cfg == old(self).cfg,
            final(self).resource_field == old(self).resource_field,
            final(self).food_locations == old(self).food_locations,
            final(self).water_locations == old(self).water_locations,
            final(self).model == old(self).model,
            final(self).has_trading == old(self).has_trading,
            final(self).agent_grid == old(self).agent_grid,
            !(old(self).step > 0 && old(self).has_trading) ==> final(self).traded@ == Seq::new(
                old(self).agents@.len(),
                |j: int| None::<AgentOffer>,
            ),
            old(self).step > 0 && old(self).has_trading ==> exists|order: Seq<usize>|
                order.to_multiset() == nontrivial_upto(old(self).offers_now(), old(self).agents@.len() as int).to_multiset()
                    && final(self).traded@ == crate::trader::trades_after(
                    old(self).offers_now(),
                    old(self).positions_now(),
                    order,
                    old(self).cfg.trade.MAX_TRADE_DISTANCE,
                    order.len() as int,
                ),
    {
        let n = self.agents.len();
        if !(self.step > 0 && self.has_trading) {
            self.traded = no_trades(n);
            return;
        }
        let mut offers: Vec<Offer> = Vec::new();
        let mut positions: Vec<ClammsInt2D> = Vec::new();
        let mut order: Vec<usize> = Vec::new();
        let mut j: usize = 0;
        while j < n
            invariant
                n == self.agents@.len(),
                j <= n,
                offers@.len() == j,
                positions@.len() == j,
                forall|k: int| 0 <= k < j ==> offers@[k] == self.agents@[k].spec_offer(self.cfg.agent, self.cfg.trade),
                forall|k: int| 0 <= k < j ==> positions@[k] == self.agents@[k].forager.spec_pos(),
                order@ == nontrivial_upto(offers@, j as int),
            decreases n - j,
        {
            let o = self.agents[j].offer(&self.cfg.agent, &self.cfg.trade);
            let ghost before = offers@;
            offers.push(o);
            positions.push(self.agents[j].forager.position());
            proof {
                lemma_nontrivial_agree(offers@, before, j as int);
            }
            if !o.is_trivial() {
                order.push(j);
            }
            j += 1;
        }
        assert(offers@ =~= self.offers_now());
        assert(positions@ =~= self.positions_now());
        let ghost sorted = order@;
        shuffle(&mut order, &mut self.rng);
        self.traded = match_trades(&offers, &positions, &order, self.cfg.trade.MAX_TRADE_DISTANCE);
        proof {
            crate::trader::lemma_trades_len(offers@, positions@, order@, self.cfg.trade.MAX_TRADE_DISTANCE, order@.len() as int);
        }
    }

    /// Closes a tick: the tick counter advances and the model makes its backup.
    fn after_step(&mut self)
        requires
            old(self).wf_mid(old(self).agents@.len() as int),
        ensures
            final(self).wf_core(),
            final(self).step == old(self).step + 1,
            final(self).agents == old(self).agents,
            final(self).agent_histories == old(self).agent_histories,
            final(self).dim == old(self).dim,
            final(self).num_agents == old(self).num_agents,
            final(self).cfg == old(self).cfg,
            final(self).traded == old(self).traded,
            final(self).resource_field == old(self).resource_field,
            final(self).food_locations == old(self).food_locations,
            final(self).water_locations == old(self).water_locations,
            final(self).has_trading == old(self).has_trading,
            final(self).agent_grid == old(self).agent_grid,
            final(self).model.tables_view() == (if final(self).step < old(self).model.rl().SARSA_N + 1 {
                old(self).model.tables_view()
            } else {
                crate::tabular_rl::backups(
                    old(self).model.tables_view(),
                    old(self).model.ids(),
                    old(self).model.multi(),
                    crate::tabular_rl::trajectories(old(self).agent_histories@),
                    final(self).step - old(self).model.rl().SARSA_N - 1,
                    old(self).model.rl(),
                    old(self).cfg.agent,
                    old(self).agent_histories@.len() as int,
                )
            }),
            final(self).model.ids() == old(self).model.ids(),
            final(self).model.multi() == old(self).model.multi(),
            final(self).model.tables().len() == old(self).model.tables().len(),
            forall|x: int| 0 <= x < final(self).model.tables().len() ==> (#[trigger] final(self).model.tables()[x]).actions() == old(self).model.tables()[x].actions(),
            final(self).food_locations == old(self).food_locations,
            final(self).water_locations == old(self).water_locations,
            final(self).model.wf(),
    {
        self.step = self.step + 1;
        proof {
            assert forall|id: u32| id < self.agent_histories@.len() implies #[trigger] self.model.has_policy(id) by {
                assert(id < self.num_agents);
            }
            assert forall|k: int| 0 <= k < self.agent_histories@.len() implies (#[trigger] self.agent_histories@[k]).trajectory@.len() >= self.step by {
                assert(self.agent_histories@[k].trajectory@.len() == self.step);
            }
        }
        self.model.step(self.step, &self.agent_histories, &self.cfg.agent);
        proof {
            assert forall|id: u32| id < self.num_agents implies #[trigger] self.model.has_policy(id) by {
                assert(old(self).model.has_policy(id));
            }
        }
    }

    /// Commits the tick: the pending agent locations become readable and the
    /// trade records are cleared.
    fn update(&mut self)
        requires
            old(self).wf_core(),
        ensures
            final(self).wf(),
            final(self).located() == old(self).pending(),
            final(self).pending() == crate::grid::cleared(old(self).located()),
            final(self).traded@ == Seq::new(old(self).agents@.len(), |j: int| None::<AgentOffer>),
            final(self).step == old(self).step,
            final(self).agents == old(self).agents,
            final(self).agent_histories == old(self).agent_histories,
            final(self).dim == old(self).dim,
            final(self).cfg == old(self).cfg,
            final(self).model == old(self).model,
    {
        let ghost pre = self.agent_grid;
        field_commit(&mut self.agent_grid);
        self.traded = no_trades(self.agents.len());
        proof {
            let w = self.dim.0 as int;
            let h = self.dim.1 as int;
            lemma_cleared_rect(field_read(pre), field_write(pre), w, h);
            assert forall|c: (int, int)| #[trigger] field_read(self.agent_grid).dom().contains(c) <==> in_rect(c, w, h) by {
                assert(field_write(old(self).agent_grid).dom().contains(c) <==> in_rect(c, w, h));
            }
            assert forall|c: (int, int)| #[trigger] field_write(self.agent_grid).dom().contains(c) <==> in_rect(c, w, h) by {
                assert(field_read(old(self).agent_grid).dom().contains(c) <==> in_rect(c, w, h));
            }
        }
    }

    /// One tick: trading, every agent's step in id order, the model's
    /// backup, then the commit of the pending agent locations.
    pub fn step(&mut self)
        requires
            old(self).wf(),
            old(self).tick() < u64::MAX,
        ensures
            final(self).wf(),
            final(self).tick() == old(self).tick() + 1,
            final(self).agents().len() == old(self).agents().len(),
            final(self).dims() == old(self).dims(),
            final(self).config() == old(self).config(),
            forall|i: int| 0 <= i < final(self).agents().len() ==> {
                let sar = (#[trigger] final(self).histories()[i]).trajectory@.last();
                let a = final(self).agents()[i];
                &&& final(self).histories()[i].trajectory@ == old(self).histories()[i].trajectory@.push(sar)
                &&& sar.reward.val == starvation_penalty(a.stock(Resource::Food), a.stock(Resource::Water))
                &&& final(self).histories()[i].positions@.last() == a.forager.spec_pos()
                &&& final(self).located()[key(a.forager.spec_pos())].contains(i as u32)
                &&& recorded_ok(
                    old(self).agents()[i],
                    a,
                    final(self).histories()[i].trades@.last(),
                    sar,
                    old(self).food_locs(),
                    old(self).water_locs(),
                    old(self).located(),
                    old(self).dims(),
                    old(self).config(),
                )
                &&& final(self).policy_actions(i as u32).contains(sar.action)
            },
            forall|c: (int, int), id: u32|
                final(self).located().dom().contains(c) && #[trigger] final(self).located()[c].contains(id)
                    ==> id < final(self).agents().len() && c == key(final(self).agents()[id as int].forager.spec_pos()),
            forall|i: int| 0 <= i < final(self).agents().len() ==> tick_effect(
                old(self).agents()[i],
                #[trigger] final(self).agents()[i],
                final(self).histories()[i].trades@.last(),
                old(self).field(),
                old(self).dims(),
                old(self).config(),
            ),
            !(old(self).tick() > 0 && old(self).trading()) ==> forall|i: int|
                0 <= i < final(self).agents().len() ==> (#[trigger] final(self).histories()[i]).trades@.last() is None,
            old(self).tick() > 0 && old(self).trading() ==> exists|order: Seq<usize>|
                #![trigger order.to_multiset()]
                order.to_multiset() == nontrivial_upto(old(self).offers_now(), old(self).agents().len() as int).to_multiset()
                && forall|i: int| 0 <= i < final(self).agents().len() ==> (#[trigger] final(self).histories()[i]).trades@.last()
                    == crate::trader::trades_after(
                    old(self).offers_now(),
                    old(self).positions_now(),
                    order,
                    old(self).config().trade.MAX_TRADE_DISTANCE,
                    order.len() as int,
                )[i],
    {
        self.before_step();
        let ghost start = *self;
        let n = self.agents.len();
        let mut i: usize = 0;
        while i < n
            invariant
                self.wf_mid(i as int),
                n == self.agents@.len(),
                start.wf(),
                start.step == self.step,
                start.agents@.len() == n,
                start.agent_histories@.len() == n,
                start.dim == self.dim,
                start.cfg == self.cfg,
                start.agent_histories@ == old(self).agent_histories@,
                forall|k: int| 0 <= k < i ==> {
                    let sar = (#[trigger] self.agent_histories@[k]).trajectory@.last();
                    let a = self.agents@[k];
                    &&& self.agent_histories@[k].trajectory@ == start.agent_histories@[k].trajectory@.push(sar)
                    &&& sar.reward.val == starvation_penalty(a.stock(Resource::Food), a.stock(Resource::Water))
                    &&& self.agent_histories@[k].positions@.last() == a.forager.spec_pos()
                },
                forall|k: int| i <= k < n ==> self.agent_histories@[k] == start.agent_histories@[k],
                forall|k: int| 0 <= k < i ==> field_write(self.agent_grid)[key((#[trigger] self.agents@[k]).forager.spec_pos())].contains(k as u32),
                forall|k: int| 0 <= k < i ==> tick_effect(
                    start.agents@[k],
                    #[trigger] self.agents@[k],
                    self.agent_histories@[k].trades@.last(),
                    start.resource_field@,
                    start.dim,
                    start.cfg,
                ),
                forall|k: int| 0 <= k < i ==> (#[trigger] self.agent_histories@[k]).trades@.last() == start.traded@[k],
                forall|k: int| i <= k < n ==> #[trigger] self.agents@[k] == start.agents@[k],
                self.traded == start.traded,
                self.resource_field == start.resource_field,
                self.food_locations == start.food_locations,
                self.water_locations == start.water_locations,
                self.model == start.model,
                field_read(self.agent_grid) == field_read(start.agent_grid),
                start.food_locations == old(self).food_locations,
                start.water_locations == old(self).water_locations,
                field_read(start.agent_grid) == field_read(old(self).agent_grid),
                forall|k: int| 0 <= k < i ==> recorded_ok(
                    start.agents@[k],
                    #[trigger] self.agents@[k],
                    self.agent_histories@[k].trades@.last(),
                    self.agent_histories@[k].trajectory@.last(),
                    start.food_locations@,
                    start.water_locations@,
                    field_read(start.agent_grid),
                    start.dim,
                    start.cfg,
                ),
                forall|k: int| 0 <= k < i ==> start.model.tables()[start.model.table_of(k as u32)].actions().contains(
                    (#[trigger] self.agent_histories@[k]).trajectory@.last().action),
            decreases n - i,
        {
            proof {
                assert(self.wf_mid(i as int));
            }
            let ghost before = *self;
            self.step_agent(i);
            proof {
                let pi = self.agents@[i as int].forager.spec_pos();
                crate::grid::lemma_placed(field_write(before.agent_grid)[key(pi)], i as u32, 0);
                assert(before.agents@[i as int] == start.agents@[i as int]);
                assert forall|k: int| 0 <= k < i + 1 implies tick_effect(
                    start.agents@[k],
                    #[trigger] self.agents@[k],
                    self.agent_histories@[k].trades@.last(),
                    start.resource_field@,
                    start.dim,
                    start.cfg,
                ) by {
                    if k < i {
                        assert(self.agents@[k] == before.agents@[k]);
                        assert(self.agent_histories@[k] == before.agent_histories@[k]);
                    }
                }
                assert forall|k: int| 0 <= k < i + 1 implies recorded_ok(
                    start.agents@[k],
                    #[trigger] self.agents@[k],
                    self.agent_histories@[k].trades@.last(),
                    self.agent_histories@[k].trajectory@.last(),
                    start.food_locations@,
                    start.water_locations@,
                    field_read(start.agent_grid),
                    start.dim,
                    start.cfg,
                ) by {
                    if k < i {
                        assert(self.agents@[k] == before.agents@[k]);
                        assert(self.agent_histories@[k] == before.agent_histories@[k]);
                    }
                }
                assert forall|k: int| 0 <= k < i + 1 implies start.model.tables()[start.model.table_of(k as u32)].actions().contains(
                    (#[trigger] self.agent_histories@[k]).trajectory@.last().action) by {
                    if k < i {
                        assert(self.agent_histories@[k] == before.agent_histories@[k]);
                    }
                }
                assert forall|k: int| 0 <= k < i + 1 implies (#[trigger] self.agent_histories@[k]).trades@.last() == start.traded@[k] by {
                    if k < i {
                        assert(self.agent_histories@[k] == before.agent_histories@[k]);
                    }
                }
                assert forall|k: int| 0 <= k < i + 1 implies field_write(self.agent_grid)[key((#[trigger] self.agents@[k]).forager.spec_pos())].contains(k as u32) by {
                    if k < i {
                        let pk = self.agents@[k].forager.spec_pos();
                        assert(self.agents@[k] == before.agents@[k]);
                        assert(field_write(before.agent_grid)[key(pk)].contains(k as u32));
                        crate::grid::lemma_placed(field_write(before.agent_grid)[key(pi)], i as u32, k as u32);
                        if key(pk) != key(pi) {
                            assert(field_write(self.agent_grid)[key(pk)] == field_write(before.agent_grid)[key(pk)]);
                        }
                    }
                }
            }
            i += 1;
        }
        let ghost mid = *self;
        self.after_step();
        self.update();
        proof {
            assert forall|k: int| 0 <= k < n implies #[trigger] self.policy_actions(k as u32) == start.model.tables()[start.model.table_of(k as u32)].actions() by {
                assert(self.model.table_of(k as u32) == mid.model.table_of(k as u32));
                assert(start.model.has_policy(k as u32)) by {
                    assert((k as u32) < start.num_agents);
                }
                crate::q_table::lemma_pos_of(start.model.ids(), crate::tabular_rl::policy_of(start.model.multi(), k as u32));
            }
        }
    }
}

proof fn lemma_nontrivial_agree(s1: Seq<Offer>, s2: Seq<Offer>, j: int)
    requires
        0 <= j <= s1.len(),
        j <= s2.len(),
        forall|k: int| 0 <= k < j ==> s1[k] == s2[k],
    ensures
        nontrivial_upto(s1, j) == nontrivial_upto(s2, j),
    decreases j,
{
    if j > 0 {
        lemma_nontrivial_agree(s1, s2, j - 1);
    }
}

/// A trade record per agent, each empty.
fn no_trades(n: usize) -> (r: Vec<Option<AgentOffer>>)
    ensures
        r@ == Seq::new(n as nat, |j: int| None::<AgentOffer>),
{
    let mut r: Vec<Option<AgentOffer>> = Vec::new();
    let mut k: usize = 0;
    while k < n
        invariant
            k <= n,
            r@ =~= Seq::new(k as nat, |j: int| None::<AgentOffer>),
        decreases n - k,
    {
        r.push(None);
        k += 1;
    }
    r
}


/// Access to the agents of a world.
pub trait AgentAPI {
    spec fn agent_seq(&self) -> Seq<Trader>;

    fn get_agent_by_id(&self, id: &u32) -> (r: Trader)
        requires
            (*id as int) < self.agent_seq().len(),
        ensures
            r == self.agent_seq()[*id as int],
    ;

    fn get_agents(&self) -> (r: Vec<Trader>)
        ensures
            r@ == self.agent_seq(),
    ;
}

impl AgentAPI for Board {
    open spec fn agent_seq(&self) -> Seq<Trader> {
        self.agents()
    }

    fn get_agent_by_id(&self, id: &u32) -> (r: Trader) {
        self.agents[*id as usize]
    }

    fn get_agents(&self) -> (r: Vec<Trader>) {
        let mut r: Vec<Trader> = Vec::new();
        let mut i: usize = 0;
        while i < self.agents.len()
            invariant
                i <= self.agents@.len(),
                r@ == self.agents@.subrange(0, i as int),
            decreases self.agents@.len() - i,
        {
            r.push(self.agents[i]);
            i += 1;
            assert(r@ =~= self.agents@.subrange(0, i as int));
        }
        assert(self.agents@.subrange(0, self.agents@.len() as int) =~= self.agents@);
        r
    }
}

impl Board {
    /// The number of completed ticks.
    pub fn tick_count(&self) -> (r: u64)
        ensures
            r == self.tick(),
    {
        self.step
    }

    /// The agents' histories, by agent id.
    pub fn agent_histories(&self) -> (r: &Vec<History>)
        ensures
            r@ == self.histories(),
    {
        &self.agent_histories
    }

    /// The learning model.
    pub fn model(&self) -> &SARSAModel {
        &self.model
    }

    /// The trade recorded for each agent in the current tick.
    pub fn trade_records(&self) -> (r: &Vec<Option<AgentOffer>>)
        ensures
            r@ == self.trades(),
    {
        &self.traded
    }

    /// The ids of the agents at `p` as the tick started, or `None` where
    /// there are none.
    pub fn get_objects_at(&self, p: &ClammsInt2D) -> (r: Option<Vec<u32>>)
        requires
            self.wf(),
            in_rect(key(*p), self.dims().0 as int, self.dims().1 as int),
        ensures
            r is None <==> self.located()[key(*p)].len() == 0,
            r matches Some(v) ==> v@ == self.located()[key(*p)],
    {
        crate::grid::field_get(&self.agent_grid, *p)
    }

    /// The item of the resource field under `p`, if `p` is on the field.
    pub fn resource_at(&self, p: &ClammsInt2D) -> (r: Option<EnvItem>)
        ensures
            r == item_at(self.field(), self.dims().1 as int, *p),
    {
        self.item_under(p)
    }

    /// The locations of food and of water.
    pub fn resource_locations(&self) -> (r: (&Vec<ClammsInt2D>, &Vec<ClammsInt2D>)) {
        (&self.food_locations, &self.water_locations)
    }

    /// Fills the resource field from the food and water map: a listed cell
    /// holds its resource (water where both are listed), any other is land
    /// or bush by a draw against the land proportion.
    fn set_resources_from_map(&mut self)
        requires
            old(self).wf_core(),
        ensures
            final(self).wf_core(),
            final(self).resource_field@.len() == final(self).dim.0 * final(self).dim.1,
            forall|p: int| 0 <= p < final(self).resource_field@.len() ==> (#[trigger] final(self).resource_field@[p]).id == p,
            final(self).agents == old(self).agents,
            final(self).agent_histories == old(self).agent_histories,
            final(self).agent_grid == old(self).agent_grid,
            final(self).step == old(self).step,
            final(self).dim == old(self).dim,
            final(self).num_agents == old(self).num_agents,
            final(self).cfg == old(self).cfg,
            final(self).traded == old(self).traded,
            final(self).food_locations == old(self).food_locations,
            final(self).water_locations == old(self).water_locations,
            forall|x: int, y: int| 0 <= x < final(self).dim.0 && 0 <= y < final(self).dim.1 ==> #[trigger] map_cell_ok(final(self).resource_field@, final(self).dim.1 as int, final(self).food_locations@, final(self).water_locations@, x, y),
    {
        let w = self.dim.0;
        let h = self.dim.1;
        let mut field: Vec<Patch> = Vec::new();
        let mut x: u16 = 0;
        while x < w
            invariant
                self.wf_core(),
                w == self.dim.0,
                h == self.dim.1,
                x <= w,
                field@.len() == x * h,
                forall|p: int| 0 <= p < field@.len() ==> (#[trigger] field@[p]).id == p,
                forall|cx: int, cy: int| 0 <= cx < x && 0 <= cy < h ==> #[trigger] map_cell_ok(field@, h as int, self.food_locations@, self.water_locations@, cx, cy),
                self.agents == old(self).agents,
                self.agent_histories == old(self).agent_histories,
                self.agent_grid == old(self).agent_grid,
                self.step == old(self).step,
                self.dim == old(self).dim,
                self.num_agents == old(self).num_agents,
                self.cfg == old(self).cfg,
                self.traded == old(self).traded,
                self.food_locations == old(self).food_locations,
                self.water_locations == old(self).water_locations,
            decreases w - x,
        {
            let mut y: u16 = 0;
            while y < h
                invariant
                    self.wf_core(),
                    w == self.dim.0,
                    h == self.dim.1,
                    x < w,
                    y <= h,
                    field@.len() == x * h + y,
                    w * h <= i32::MAX,
                    forall|p: int| 0 <= p < field@.len() ==> (#[trigger] field@[p]).id == p,
                    forall|cx: int, cy: int| (0 <= cx < x && 0 <= cy < h) || (cx == x && 0 <= cy < y) ==> #[trigger] map_cell_ok(field@, h as int, self.food_locations@, self.water_locations@, cx, cy),
                    self.agents == old(self).agents,
                    self.agent_histories == old(self).agent_histories,
                    self.agent_grid == old(self).agent_grid,
                    self.step == old(self).step,
                    self.dim == old(self).dim,
                    self.num_agents == old(self).num_agents,
                    self.cfg == old(self).cfg,
                    self.traded == old(self).traded,
                    self.food_locations == old(self).food_locations,
                    self.water_locations == old(self).water_locations,
                decreases h - y,
            {
                proof {
                    assert(x * h + y < w * h) by (nonlinear_arith) requires x < w, y < h;
                }
                let pos = ClammsInt2D { x: x as i32, y: y as i32 };
                let item = if listed(&self.water_locations, pos) {
                    EnvItem::Resource(Resource::Water)
                } else if listed(&self.food_locations, pos) {
                    EnvItem::Resource(Resource::Food)
                } else if draw_below(&mut self.rng, RATE_SCALE) < self.cfg.world.LAND_PROP {
                    EnvItem::Land
                } else {
                    EnvItem::Bush
                };
                let id: u32 = (x as u32) * (h as u32) + y as u32;
                let ghost before = field@;
                field.push(Patch::new(id, item));
                proof {
                    assert forall|cx: int, cy: int| (0 <= cx < x && 0 <= cy < h) || (cx == x && 0 <= cy < y + 1) implies #[trigger] map_cell_ok(field@, h as int, self.food_locations@, self.water_locations@, cx, cy) by {
                        let p = ClammsInt2D { x: cx as i32, y: cy as i32 };
                        assert(cx * h + cy <= x * h + y) by (nonlinear_arith)
                            requires (0 <= cx < x && 0 <= cy < h) || (cx == x && 0 <= cy < y + 1), h > 0;
                        if cx == x && cy == y {
                            assert(p == pos);
                            assert(field@[x * h + y].env_item == item);
                            assert(item_at(field@, h as int, pos) == Some(item));
                        } else {
                            assert(cx * h + cy < x * h + y) by (nonlinear_arith)
                                requires (0 <= cx < x && 0 <= cy < h) || (cx == x && 0 <= cy < y), h > 0;
                            assert(map_cell_ok(before, h as int, self.food_locations@, self.water_locations@, cx, cy));
                            assert(item_at(before, h as int, p) == item_at(field@, h as int, p));
                        }
                    }
                }
                y += 1;
            }
            proof {
                assert((x + 1) * h == x * h + h) by (nonlinear_arith);
            }
            x += 1;
        }
        self.resource_field = field;
    }

    /// Places agents at the given positions (or at random when `positions`
    /// is `None`), with the configured starting inventory and empty
    /// histories; fills the resource field (from the map if one was given,
    /// else at random); and commits the agent field.
    fn init_agents(&mut self, positions: Option<&Vec<ClammsInt2D>>, inventories: Option<&Vec<(i32, i32)>>)
        requires
            old(self).wf(),
            old(self).agents@.len() == 0,
            old(self).step == 0,
            inventories matches Some(v) ==> v@.len() == old(self).num_agents,
            positions matches Some(ps) ==> ps@.len() == old(self).num_agents && forall|k: int|
                0 <= k < ps@.len() ==> 1 <= (#[trigger] ps@[k]).x < old(self).dim.0 && 1 <= ps@[k].y < old(self).dim.1,
        ensures
            final(self).wf(),
            final(self).agents@.len() == old(self).num_agents,
            final(self).step == 0,
            final(self).dim == old(self).dim,
            final(self).cfg == old(self).cfg,
            final(self).num_agents == old(self).num_agents,
            final(self).resource_field@.len() == final(self).dim.0 * final(self).dim.1,
            positions matches Some(ps) ==> forall|k: int| 0 <= k < ps@.len() ==> (#[trigger] final(self).agents@[k]).forager.spec_pos() == ps@[k],
            forall|k: int| 0 <= k < final(self).agents@.len() ==> (#[trigger] final(self).agents@[k]).stock(Resource::Food) == after_acquire(0, start_food(inventories, k, old(self).cfg) as int, old(self).cfg.agent.FOOD_MAX_INVENTORY as int),
            forall|k: int| 0 <= k < final(self).agents@.len() ==> (#[trigger] final(self).agents@[k]).stock(Resource::Water) == after_acquire(0, start_water(inventories, k, old(self).cfg) as int, old(self).cfg.agent.WATER_MAX_INVENTORY as int),
            !old(self).map_loaded() ==> random_field_ok(final(self).field(), final(self).dims().1 as int, final(self).food_locs(), final(self).water_locs(), final(self).config().world),
            old(self).map_loaded() ==> forall|x: int, y: int| 0 <= x < final(self).dims().0 && 0 <= y < final(self).dims().1 ==> #[trigger] map_cell_ok(final(self).field(), final(self).dims().1 as int, final(self).food_locs(), final(self).water_locs(), x, y),
            forall|k: int| 0 <= k < final(self).agents().len() ==> final(self).located()[key((#[trigger] final(self).agents()[k]).forager.spec_pos())].contains(k as u32),
    {
        let n = self.num_agents;
        let w = self.dim.0;
        let h = self.dim.1;
        let mut k: u8 = 0;
        while k < n
            invariant
                self.wf_core(),
                n == self.num_agents,
                w == self.dim.0,
                h == self.dim.1,
                self.step == 0,
                self.cfg == old(self).cfg,
                self.num_agents == old(self).num_agents,
                self.dim == old(self).dim,
                k <= n,
                self.agents@.len() == k,
                inventories matches Some(v) ==> v@.len() == n,
                positions matches Some(ps) ==> ps@.len() == n && forall|j: int|
                    0 <= j < ps@.len() ==> 1 <= (#[trigger] ps@[j]).x < w && 1 <= ps@[j].y < h,
                positions matches Some(ps) ==> forall|j: int| 0 <= j < k ==> (#[trigger] self.agents@[j]).forager.spec_pos() == ps@[j],
                forall|j: int| 0 <= j < k ==> (#[trigger] self.agents@[j]).stock(Resource::Food) == after_acquire(0, start_food(inventories, j, old(self).cfg) as int, old(self).cfg.agent.FOOD_MAX_INVENTORY as int),
                forall|j: int| 0 <= j < k ==> (#[trigger] self.agents@[j]).stock(Resource::Water) == after_acquire(0, start_water(inventories, j, old(self).cfg) as int, old(self).cfg.agent.WATER_MAX_INVENTORY as int),
                self.loaded_map == old(self).loaded_map,
                forall|j: int| 0 <= j < k ==> field_write(self.agent_grid)[key((#[trigger] self.agents@[j]).forager.spec_pos())].contains(j as u32),
            decreases n - k,
        {
            let pos = match positions {
                Some(ps) => ps[k as usize],
                None => {
                    let x = draw_below(&mut self.rng, (w - 1) as u32) + 1;
                    let y = draw_below(&mut self.rng, (h - 1) as u32) + 1;
                    ClammsInt2D { x: x as i32, y: y as i32 }
                },
            };
            let (food, water) = match inventories {
                Some(v) => v[k as usize],
                None => (self.cfg.agent.INIT_FOOD, self.cfg.agent.INIT_WATER),
            };
            let ghost before = *self;
            self.place_agent(pos, food, water);
            proof {
                assert forall|j: int| 0 <= j < k + 1 implies field_write(self.agent_grid)[key((#[trigger] self.agents@[j]).forager.spec_pos())].contains(j as u32) by {
                    crate::grid::lemma_placed(field_write(before.agent_grid)[key(pos)], k as u32, j as u32);
                    if j < k {
                        let pj = self.agents@[j].forager.spec_pos();
                        assert(self.agents@[j] == before.agents@[j]);
                        if key(pj) != key(pos) {
                            assert(field_write(self.agent_grid)[key(pj)] == field_write(before.agent_grid)[key(pj)]);
                        }
                    }
                }
            }
            k += 1;
        }
        if self.loaded_map {
            self.set_resources_from_map();
        } else {
            self.set_resources_random();
        }
        let ghost pre = self.agent_grid;
        field_commit(&mut self.agent_grid);
        proof {
            lemma_cleared_rect(field_read(pre), field_write(pre), w as int, h as int);
            assert forall|c: (int, int)| #[trigger] field_read(self.agent_grid).dom().contains(c) <==> in_rect(c, w as int, h as int) by {
                assert(field_write(old(self).agent_grid).dom().contains(c) <==> in_rect(c, w as int, h as int));
            }
            assert forall|c: (int, int)| #[trigger] field_write(self.agent_grid).dom().contains(c) <==> in_rect(c, w as int, h as int) by {
                assert(field_read(old(self).agent_grid).dom().contains(c) <==> in_rect(c, w as int, h as int));
            }
        }
    }

    /// Initialises the board with agents at seeded-random positions.
    pub fn init(&mut self)
        requires
            old(self).wf(),
            old(self).agents().len() == 0,
            old(self).tick() == 0,
        ensures
            final(self).wf(),
            final(self).agents().len() == old(self).agent_count(),
            final(self).tick() == 0,
            final(self).dims() == old(self).dims(),
            final(self).config() == old(self).config(),
            final(self).field().len() == final(self).dims().0 * final(self).dims().1,
            forall|k: int| 0 <= k < final(self).agents().len() ==> (#[trigger] final(self).agents()[k]).stock(Resource::Food) == after_acquire(0, old(self).config().agent.INIT_FOOD as int, old(self).config().agent.FOOD_MAX_INVENTORY as int),
            forall|k: int| 0 <= k < final(self).agents().len() ==> (#[trigger] final(self).agents()[k]).stock(Resource::Water) == after_acquire(0, old(self).config().agent.INIT_WATER as int, old(self).config().agent.WATER_MAX_INVENTORY as int),
            forall|k: int| 0 <= k < final(self).agents().len() ==> {
                let p = (#[trigger] final(self).agents()[k]).forager.spec_pos();
                1 <= p.x < final(self).dims().0 && 1 <= p.y < final(self).dims().1
            },
            !old(self).map_loaded() ==> random_field_ok(final(self).field(), final(self).dims().1 as int, final(self).food_locs(), final(self).water_locs(), final(self).config().world),
            old(self).map_loaded() ==> forall|x: int, y: int| 0 <= x < final(self).dims().0 && 0 <= y < final(self).dims().1 ==> #[trigger] map_cell_ok(final(self).field(), final(self).dims().1 as int, final(self).food_locs(), final(self).water_locs(), x, y),
            forall|k: int| 0 <= k < final(self).agents().len() ==> final(self).located()[key((#[trigger] final(self).agents()[k]).forager.spec_pos())].contains(k as u32),
    {
        self.init_agents(None, None);
        proof {
            assert forall|k: int| 0 <= k < self.agents().len() implies {
                let p = (#[trigger] self.agents()[k]).forager.spec_pos();
                1 <= p.x < self.dims().0 && 1 <= p.y < self.dims().1
            } by {
                assert(self.agents@[k] == self.agents()[k]);
            }
        }
    }

    /// Initialises the board with agent `k` at `positions[k]`.
    pub fn init_with_positions(&mut self, positions: &Vec<ClammsInt2D>)
        requires
            old(self).wf(),
            old(self).agents().len() == 0,
            old(self).tick() == 0,
            positions@.len() == old(self).agent_count(),
            forall|k: int| 0 <= k < positions@.len() ==> 1 <= (#[trigger] positions@[k]).x < old(self).dims().0 && 1 <= positions@[k].y < old(self).dims().1,
        ensures
            final(self).wf(),
            final(self).agents().len() == old(self).agent_count(),
            final(self).tick() == 0,
            final(self).dims() == old(self).dims(),
            final(self).config() == old(self).config(),
            final(self).field().len() == final(self).dims().0 * final(self).dims().1,
            forall|k: int| 0 <= k < positions@.len() ==> (#[trigger] final(self).agents()[k]).forager.spec_pos() == positions@[k],
            forall|k: int| 0 <= k < positions@.len() ==> (#[trigger] final(self).agents()[k]).stock(Resource::Food) == after_acquire(0, old(self).config().agent.INIT_FOOD as int, old(self).config().agent.FOOD_MAX_INVENTORY as int),
            forall|k: int| 0 <= k < positions@.len() ==> (#[trigger] final(self).agents()[k]).stock(Resource::Water) == after_acquire(0, old(self).config().agent.INIT_WATER as int, old(self).config().agent.WATER_MAX_INVENTORY as int),
            !old(self).map_loaded() ==> random_field_ok(final(self).field(), final(self).dims().1 as int, final(self).food_locs(), final(self).water_locs(), final(self).config().world),
            old(self).map_loaded() ==> forall|x: int, y: int| 0 <= x < final(self).dims().0 && 0 <= y < final(self).dims().1 ==> #[trigger] map_cell_ok(final(self).field(), final(self).dims().1 as int, final(self).food_locs(), final(self).water_locs(), x, y),
            forall|k: int| 0 <= k < final(self).agents().len() ==> final(self).located()[key((#[trigger] final(self).agents()[k]).forager.spec_pos())].contains(k as u32),
    {
        self.init_agents(Some(positions), None)
    }

    /// Initialises the board with agent `k` at `positions[k]`, holding
    /// `inventories[k]` (food, water) before clamping to the maxima.
    pub fn init_with_agents(&mut self, positions: &Vec<ClammsInt2D>, inventories: &Vec<(i32, i32)>)
        requires
            old(self).wf(),
            old(self).agents().len() == 0,
            old(self).tick() == 0,
            positions@.len() == old(self).agent_count(),
            inventories@.len() == old(self).agent_count(),
            forall|k: int| 0 <= k < positions@.len() ==> 1 <= (#[trigger] positions@[k]).x < old(self).dims().0 && 1 <= positions@[k].y < old(self).dims().1,
        ensures
            final(self).wf(),
            final(self).agents().len() == old(self).agent_count(),
            final(self).tick() == 0,
            final(self).dims() == old(self).dims(),
            final(self).config() == old(self).config(),
            final(self).field().len() == final(self).dims().0 * final(self).dims().1,
            forall|k: int| 0 <= k < positions@.len() ==> (#[trigger] final(self).agents()[k]).forager.spec_pos() == positions@[k],
            forall|k: int| 0 <= k < positions@.len() ==> (#[trigger] final(self).agents()[k]).stock(Resource::Food) == after_acquire(0, inventories@[k].0 as int, old(self).config().agent.FOOD_MAX_INVENTORY as int),
            forall|k: int| 0 <= k < positions@.len() ==> (#[trigger] final(self).agents()[k]).stock(Resource::Water) == after_acquire(0, inventories@[k].1 as int, old(self).config().agent.WATER_MAX_INVENTORY as int),
            !old(self).map_loaded() ==> random_field_ok(final(self).field(), final(self).dims().1 as int, final(self).food_locs(), final(self).water_locs(), final(self).config().world),
            old(self).map_loaded() ==> forall|x: int, y: int| 0 <= x < final(self).dims().0 && 0 <= y < final(self).dims().1 ==> #[trigger] map_cell_ok(final(self).field(), final(self).dims().1 as int, final(self).food_locs(), final(self).water_locs(), x, y),
            forall|k: int| 0 <= k < final(self).agents().len() ==> final(self).located()[key((#[trigger] final(self).agents()[k]).forager.spec_pos())].contains(k as u32),
    {
        self.init_agents(Some(positions), Some(inventories))
    }

    /// Discards all mutable state: the tick count, the agents with their
    /// histories and trades, and both fields, which start afresh.
    pub fn reset(&mut self)
        requires
            old(self).wf(),
        ensures
            final(self).wf(),
            final(self).tick() == 0,
            final(self).agents().len() == 0,
            final(self).field().len() == 0,
            final(self).dims() == old(self).dims(),
            final(self).config() == old(self).config(),
            final(self).agent_count() == old(self).agent_count(),
    {
        self.step = 0;
        self.agent_grid = field_new(self.dim.0 as i32, self.dim.1 as i32);
        assert(crate::grid::cleared(field_read(self.agent_grid)) =~= field_write(self.agent_grid));
        self.resource_field = Vec::new();
        self.agents = Vec::new();
        self.agent_histories = Vec::new();
        self.traded = Vec::new();
    }
}

} // verus!
