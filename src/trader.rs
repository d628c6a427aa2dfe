//! Offers of one resource for another, and the rules by which two offers meet.
use vstd::prelude::*;
use crate::config::{AgentConfig, TradeConfig};
use crate::environment::Resource;
use crate::inventory::{after_acquire, Forager, Inventory};
use crate::routing::{manhattan, step_distance, ClammsInt2D};

verus! {

/// Whether a pair of lot deltas is a well-signed offer: it never asks for
/// both resources nor gives both away, and each delta can be negated.
pub open spec fn valid_deltas(food: int, water: int) -> bool {
    &&& !(food > 0 && water > 0)
    &&& !(food < 0 && water < 0)
    &&& food > i32::MIN
    &&& water > i32::MIN
}

/// Two offers meet when, resource by resource, what one asks for is covered
/// by what the other gives.
pub open spec fn offers_match(f1: int, w1: int, f2: int, w2: int) -> bool {
    f1 + f2 <= 0 && w1 + w2 <= 0
}

/// A signed pair of resource deltas (food, water) that an agent posts: a
/// negative delta is given away, a positive one is asked for.
#[derive(Debug, PartialEq, Eq, Structural, PartialOrd, Ord, Clone, Copy)]
pub struct Offer(i32, i32);

impl Offer {
    #[verifier::type_invariant]
    pub closed spec fn inv(self) -> bool {
        valid_deltas(self.0 as int, self.1 as int)
    }

    pub closed spec fn food(self) -> int {
        self.0 as int
    }

    pub closed spec fn water(self) -> int {
        self.1 as int
    }

    pub fn new(lots_food: i32, lots_water: i32) -> (r: Offer)
        requires
            valid_deltas(lots_food as int, lots_water as int),
        ensures
            r.food() == lots_food,
            r.water() == lots_water,
    {
        Offer(lots_food, lots_water)
    }

    /// The checked constructor: `None` exactly for a pair that is not well signed.
    pub fn try_new(lots_food: i32, lots_water: i32) -> (r: Option<Offer>)
        ensures
            r is Some <==> valid_deltas(lots_food as int, lots_water as int),
            r matches Some(o) ==> o.food() == lots_food && o.water() == lots_water,
    {
        if (lots_food > 0 && lots_water > 0) || (lots_food < 0 && lots_water < 0)
            || lots_food == i32::MIN || lots_water == i32::MIN {
            None
        } else {
            Some(Offer(lots_food, lots_water))
        }
    }

    /// This offer with every delta negated.
    pub closed spec fn negated(self) -> Offer {
        Offer((-self.0) as i32, (-self.1) as i32)
    }

    pub proof fn lemma_negated(self)
        requires
            valid_deltas(self.food(), self.water()),
        ensures
            self.negated().food() == -self.food(),
            self.negated().water() == -self.water(),
            valid_deltas(self.negated().food(), self.negated().water()),
            self.negated().negated() == self,
    {
    }

    /// The food delta; every offer that exists is well signed.
    pub fn food_delta(&self) -> (r: i32)
        ensures
            r == self.food(),
            valid_deltas(self.food(), self.water()),
    {
        proof {
            use_type_invariant(self);
        }
        self.0
    }

    /// The water delta; every offer that exists is well signed.
    pub fn water_delta(&self) -> (r: i32)
        ensures
            r == self.water(),
            valid_deltas(self.food(), self.water()),
    {
        proof {
            use_type_invariant(self);
        }
        self.1
    }

    pub fn is_trivial(&self) -> (r: bool)
        ensures
            r == (self.food() == 0 && self.water() == 0),
    {
        self.0 == 0 && self.1 == 0
    }

    /// Determines whether this offer is matched by another offer.
    pub fn matched(&self, offer: &Offer) -> (r: bool)
        ensures
            r == offers_match(self.food(), self.water(), offer.food(), offer.water()),
    {
        let f = self.0 as i64 + offer.0 as i64;
        let w = self.1 as i64 + offer.1 as i64;
        if f >= w {
            f <= 0
        } else {
            w <= 0
        }
    }

    /// The offer seen from the counterparty's side: every delta negated.
    pub fn invert(&self) -> (r: Offer)
        ensures
            r == self.negated(),
            r.food() == -self.food(),
            r.water() == -self.water(),
    {
        proof {
            use_type_invariant(self);
        }
        Offer(-self.0, -self.1)
    }
}

/// Whether raising a food-for-water offer to `k` lots is allowed: the lots
/// fit the count, what is left of food still exceeds water after the trade,
/// the food floor holds, and the deltas stay representable.
pub open spec fn food_lead_ok(food: int, water: int, a: AgentConfig, t: TradeConfig, k: int) -> bool {
    &&& k <= a.MAX_TRADE_LOTS
    &&& food - k * a.FOOD_LOT_SIZE > water + k * a.WATER_LOT_SIZE
    &&& food - k * a.FOOD_LOT_SIZE >= t.MIN_INVENTORY_LEVEL
    &&& k * a.FOOD_LOT_SIZE <= i32::MAX
    &&& k * a.WATER_LOT_SIZE <= i32::MAX
}

/// Whether raising a water-for-food offer to `k` lots is allowed.
pub open spec fn water_lead_ok(food: int, water: int, a: AgentConfig, t: TradeConfig, k: int) -> bool {
    &&& k <= a.MAX_TRADE_LOTS
    &&& water - k * a.WATER_LOT_SIZE > food + k * a.FOOD_LOT_SIZE
    &&& water - k * a.WATER_LOT_SIZE >= t.MIN_INVENTORY_LEVEL
    &&& k * a.FOOD_LOT_SIZE <= i32::MAX
    &&& k * a.WATER_LOT_SIZE <= i32::MAX
}

/// The lot count reached by raising one lot at a time from `k` while the
/// next raise is allowed (food leading when `food_leads`).
pub open spec fn raised_lots(
    food: int,
    water: int,
    a: AgentConfig,
    t: TradeConfig,
    food_leads: bool,
    k: nat,
) -> nat
    decreases a.MAX_TRADE_LOTS - k,
{
    if k < a.MAX_TRADE_LOTS && (if food_leads {
        food_lead_ok(food, water, a, t, k + 1int)
    } else {
        water_lead_ok(food, water, a, t, k + 1int)
    }) {
        raised_lots(food, water, a, t, food_leads, k + 1)
    } else {
        k
    }
}

/// The (food, water) deltas of the offer posted for an inventory: a
/// food-for-water offer if it is not trivial, else a water-for-food one.
pub open spec fn posted_deltas(food: int, water: int, a: AgentConfig, t: TradeConfig) -> (int, int) {
    let kf = raised_lots(food, water, a, t, true, 0) as int;
    let kw = raised_lots(food, water, a, t, false, 0) as int;
    let by_food = (-(kf * a.FOOD_LOT_SIZE), kf * a.WATER_LOT_SIZE);
    let by_water = (kw * a.FOOD_LOT_SIZE, -(kw * a.WATER_LOT_SIZE));
    if by_food != (0int, 0int) {
        by_food
    } else {
        by_water
    }
}

proof fn lemma_raised_bound(food: int, water: int, a: AgentConfig, t: TradeConfig, food_leads: bool, k: nat)
    requires
        k == 0 || (if food_leads {
            food_lead_ok(food, water, a, t, k as int)
        } else {
            water_lead_ok(food, water, a, t, k as int)
        }),
    ensures
        ({
            let r = raised_lots(food, water, a, t, food_leads, k) as int;
            &&& r * a.FOOD_LOT_SIZE <= i32::MAX
            &&& r * a.WATER_LOT_SIZE <= i32::MAX
            &&& r >= k
        }),
    decreases a.MAX_TRADE_LOTS - k,
{
    if k < a.MAX_TRADE_LOTS && (if food_leads {
        food_lead_ok(food, water, a, t, k + 1int)
    } else {
        water_lead_ok(food, water, a, t, k + 1int)
    }) {
        lemma_raised_bound(food, water, a, t, food_leads, (k + 1) as nat);
    }
}

/// Raises an offer one lot at a time while the next raise is allowed.
fn raise_lots(food: i32, water: i32, a: &AgentConfig, t: &TradeConfig, food_leads: bool) -> (r: u32)
    ensures
        r == raised_lots(food as int, water as int, *a, *t, food_leads, 0),
{
    let mut k: u32 = 0;
    while k < a.MAX_TRADE_LOTS
        invariant
            raised_lots(food as int, water as int, *a, *t, food_leads, 0) == raised_lots(
                food as int,
                water as int,
                *a,
                *t,
                food_leads,
                k as nat,
            ),
            k <= a.MAX_TRADE_LOTS,
        decreases a.MAX_TRADE_LOTS - k,
    {
        let next: u64 = k as u64 + 1;
        proof {
            assert(next * a.FOOD_LOT_SIZE <= 0xFFFF_FFFFu64 * 0xFFFF_FFFFu64) by (nonlinear_arith)
                requires next <= 0xFFFF_FFFFu64, a.FOOD_LOT_SIZE <= 0xFFFF_FFFFu64;
            assert(next * a.WATER_LOT_SIZE <= 0xFFFF_FFFFu64 * 0xFFFF_FFFFu64) by (nonlinear_arith)
                requires next <= 0xFFFF_FFFFu64, a.WATER_LOT_SIZE <= 0xFFFF_FFFFu64;
        }
        let give_f: u64 = next * a.FOOD_LOT_SIZE as u64;
        let get_w: u64 = next * a.WATER_LOT_SIZE as u64;
        let ok = if food_leads {
            let left: i128 = food as i128 - give_f as i128;
            let other: i128 = water as i128 + get_w as i128;
            left > other && left >= t.MIN_INVENTORY_LEVEL as i128 && give_f <= i32::MAX as u64
                && get_w <= i32::MAX as u64
        } else {
            let left: i128 = water as i128 - get_w as i128;
            let other: i128 = food as i128 + give_f as i128;
            left > other && left >= t.MIN_INVENTORY_LEVEL as i128 && give_f <= i32::MAX as u64
                && get_w <= i32::MAX as u64
        };
        if !ok {
            return k;
        }
        k = k + 1;
    }
    k
}

/// The offer an agent posts for its inventory: the surplus resource is
/// offered one lot at a time, food first, water if food gives nothing.
pub fn propose_offer(food: i32, water: i32, a: &AgentConfig, t: &TradeConfig) -> (r: Offer)
    ensures
        (r.food(), r.water()) == posted_deltas(food as int, water as int, *a, *t),
{
    let kf = raise_lots(food, water, a, t, true);
    proof {
        lemma_raised_bound(food as int, water as int, *a, *t, true, 0);
        assert(0 <= kf * a.FOOD_LOT_SIZE) by (nonlinear_arith);
        assert(0 <= kf * a.WATER_LOT_SIZE) by (nonlinear_arith);
    }
    let gf: i64 = kf as i64 * a.FOOD_LOT_SIZE as i64;
    let gw: i64 = kf as i64 * a.WATER_LOT_SIZE as i64;
    if gf != 0 || gw != 0 {
        return Offer::new(-(gf as i32), gw as i32);
    }
    let kw = raise_lots(food, water, a, t, false);
    proof {
        lemma_raised_bound(food as int, water as int, *a, *t, false, 0);
        assert(0 <= kw * a.FOOD_LOT_SIZE) by (nonlinear_arith);
        assert(0 <= kw * a.WATER_LOT_SIZE) by (nonlinear_arith);
    }
    let hf: i64 = kw as i64 * a.FOOD_LOT_SIZE as i64;
    let hw: i64 = kw as i64 * a.WATER_LOT_SIZE as i64;
    Offer::new(hf as i32, -(hw as i32))
}

/// A record of a settled trade: the counterparty and the offer to apply.
#[derive(Debug, Clone, Copy, PartialEq, Eq, Structural)]
pub struct AgentOffer {
    pub agent_id: u32,
    pub offer: Offer,
}

impl AgentOffer {
    pub fn new(agent_id: u32, offer: &Offer) -> (r: AgentOffer)
        ensures
            r.agent_id == agent_id,
            r.offer == *offer,
    {
        AgentOffer { agent_id, offer: *offer }
    }
}

/// A forager that trades.
#[derive(Clone, Copy, Debug)]
pub struct Trader {
    pub forager: Forager,
}

/// What a trading agent does.
pub trait Trade: Inventory {
    spec fn spec_offer(&self, a: AgentConfig, t: TradeConfig) -> Offer;

    /// Gets this trader's offer.
    fn offer(&self, a: &AgentConfig, t: &TradeConfig) -> (r: Offer)
        ensures
            r == self.spec_offer(*a, *t),
    ;

    /// Applies the offer recorded for this trader in a settled trade.
    fn apply_offer(&mut self, offer: &Offer, a: &AgentConfig)
        ensures
            final(self).stock(Resource::Food) == after_acquire(
                old(self).stock(Resource::Food),
                offer.food(),
                a.FOOD_MAX_INVENTORY as int,
            ),
            final(self).stock(Resource::Water) == after_acquire(
                old(self).stock(Resource::Water),
                offer.water(),
                a.WATER_MAX_INVENTORY as int,
            ),
            final(self).holder() == old(self).holder(),
    ;
}

impl Trader {
    pub fn new(forager: Forager) -> (r: Trader)
        ensures
            r.forager == forager,
    {
        Trader { forager }
    }

    pub fn forager(&self) -> (r: &Forager)
        ensures
            *r == self.forager,
    {
        &self.forager
    }

    pub fn id(&self) -> (r: u32)
        ensures
            r == self.forager.spec_id(),
    {
        self.forager.id()
    }

    /// A trader that stands only for its id.
    pub fn dummy(id: u32) -> (r: Trader)
        ensures
            r.forager.spec_id() == id,
    {
        Trader { forager: Forager::dummy(id) }
    }
}

impl PartialEq for Trader {
    fn eq(&self, other: &Trader) -> (r: bool) {
        self.forager.id() == other.forager.id()
    }
}

impl Eq for Trader {}

impl vstd::std_specs::cmp::PartialEqSpecImpl for Trader {
    open spec fn obeys_eq_spec() -> bool {
        true
    }

    open spec fn eq_spec(&self, other: &Trader) -> bool {
        self.forager.spec_id() == other.forager.spec_id()
    }
}

impl Inventory for Trader {
    open spec fn stock(&self, resource: Resource) -> int {
        self.forager.stock(resource)
    }

    open spec fn holder(&self) -> (u32, ClammsInt2D) {
        self.forager.holder()
    }

    fn count(&self, resource: &Resource) -> (r: i32) {
        self.forager.count(resource)
    }

    fn acquire(&mut self, resource: &Resource, quantity: i32, cfg: &AgentConfig) {
        self.forager.acquire(resource, quantity, cfg)
    }

    fn consume(&mut self, resource: &Resource, quantity: u32, cfg: &AgentConfig) {
        self.forager.consume(resource, quantity, cfg)
    }
}

impl Trade for Trader {
    open spec fn spec_offer(&self, a: AgentConfig, t: TradeConfig) -> Offer {
        choose|o: Offer|
            (o.food(), o.water()) == posted_deltas(
                self.forager.stock(Resource::Food),
                self.forager.stock(Resource::Water),
                a,
                t,
            )
    }

    fn offer(&self, a: &AgentConfig, t: &TradeConfig) -> (r: Offer) {
        let f = self.forager.count(&Resource::Food);
        let w = self.forager.count(&Resource::Water);
        let o = propose_offer(f, w, a, t);
        proof {
            let c = self.spec_offer(*a, *t);
            assert(c.food() == o.food() && c.water() == o.water());
            lemma_offer_ext(c, o);
        }
        o
    }

    fn apply_offer(&mut self, offer: &Offer, a: &AgentConfig) {
        let f = offer.food_delta();
        let w = offer.water_delta();
        self.forager.acquire(&Resource::Food, f, a);
        self.forager.acquire(&Resource::Water, w, a);
    }
}

/// Whether agent `j` can take up agent `i`'s offer: another agent, not yet
/// traded this tick, with a non-trivial matching offer, closer than
/// `max_distance`.
pub open spec fn can_partner(
    offers: Seq<Offer>,
    positions: Seq<ClammsInt2D>,
    marks: Seq<Option<AgentOffer>>,
    i: int,
    j: int,
    max_distance: u32,
) -> bool {
    &&& 0 <= j < offers.len()
    &&& j != i
    &&& marks[j] is None
    &&& !(offers[j].food() == 0 && offers[j].water() == 0)
    &&& offers_match(offers[j].food(), offers[j].water(), offers[i].food(), offers[i].water())
    &&& manhattan(positions[i], positions[j]) < max_distance
}

/// The first agent from `j` on, in snapshot order, that can take up agent `i`'s offer.
pub open spec fn partner_from(
    offers: Seq<Offer>,
    positions: Seq<ClammsInt2D>,
    marks: Seq<Option<AgentOffer>>,
    i: int,
    j: int,
    max_distance: u32,
) -> Option<int>
    decreases offers.len() - j,
{
    if j < 0 || j >= offers.len() {
        None
    } else if can_partner(offers, positions, marks, i, j, max_distance) {
        Some(j)
    } else {
        partner_from(offers, positions, marks, i, j + 1, max_distance)
    }
}

/// The trade marks after the first `k` agents of `order` have looked for a
/// partner. An agent already traded, out of range or with a trivial offer
/// passes; otherwise its first partner, if any, is recorded on both sides:
/// the agent gets its own offer, the partner the negated one.
pub open spec fn trades_after(
    offers: Seq<Offer>,
    positions: Seq<ClammsInt2D>,
    order: Seq<usize>,
    max_distance: u32,
    k: int,
) -> Seq<Option<AgentOffer>>
    decreases k,
{
    if k <= 0 {
        Seq::new(offers.len(), |j: int| None)
    } else {
        let prev = trades_after(offers, positions, order, max_distance, k - 1);
        let i = order[k - 1] as int;
        if i >= offers.len() || prev[i] is Some || (offers[i].food() == 0 && offers[i].water()
            == 0) {
            prev
        } else {
            match partner_from(offers, positions, prev, i, 0, max_distance) {
                None => prev,
                Some(j) => prev.update(
                    i,
                    Some(AgentOffer { agent_id: j as u32, offer: offers[i] }),
                ).update(j, Some(AgentOffer { agent_id: i as u32, offer: offers[i].negated() })),
            }
        }
    }
}

/// Matches offers among agents for one tick. `offers` and `positions` are
/// the snapshot at the start of the tick, indexed by agent id; `order` is the
/// order in which agents look for a partner. Each agent trades at most once.
pub fn match_trades(
    offers: &Vec<Offer>,
    positions: &Vec<ClammsInt2D>,
    order: &Vec<usize>,
    max_distance: u32,
) -> (r: Vec<Option<AgentOffer>>)
    requires
        offers@.len() == positions@.len(),
        offers@.len() <= u32::MAX,
    ensures
        r@ == trades_after(offers@, positions@, order@, max_distance, order@.len() as int),
{
    let n = offers.len();
    let mut marks: Vec<Option<AgentOffer>> = Vec::new();
    let mut z: usize = 0;
    while z < n
        invariant
            z <= n,
            n == offers@.len(),
            marks@ =~= Seq::new(z as nat, |j: int| None::<AgentOffer>),
        decreases n - z,
    {
        marks.push(None);
        z += 1;
    }
    let mut k: usize = 0;
    while k < order.len()
        invariant
            k <= order@.len(),
            n == offers@.len(),
            n == positions@.len(),
            n <= u32::MAX,
            marks@ == trades_after(offers@, positions@, order@, max_distance, k as int),
            marks@.len() == n,
        decreases order@.len() - k,
    {
        let i = order[k];
        if i < n && marks[i].is_none() && !offers[i].is_trivial() {
            let mut j: usize = 0;
            let mut found: Option<usize> = None;
            while j < n && found.is_none()
                invariant
                    j <= n,
                    n == offers@.len(),
                    n == positions@.len(),
                    i < n,
                    marks@.len() == n,
                    found is None ==> partner_from(offers@, positions@, marks@, i as int, 0, max_distance)
                        == partner_from(offers@, positions@, marks@, i as int, j as int, max_distance),
                    found matches Some(f) ==> partner_from(offers@, positions@, marks@, i as int, 0, max_distance)
                        == Some(f as int) && f < n,
                decreases n - j,
            {
                if j != i && marks[j].is_none() && !offers[j].is_trivial() && offers[j].matched(&offers[i])
                    && step_distance(&positions[i], &positions[j]) < max_distance as u64 {
                    found = Some(j);
                }
                j += 1;
            }
            if let Some(f) = found {
                let o = offers[i];
                let inv = o.invert();
                marks.set(i, Some(AgentOffer::new(f as u32, &o)));
                marks.set(f, Some(AgentOffer::new(i as u32, &inv)));
            }
        }
        k += 1;
        proof {
            assert(order@[k - 1] == i);
        }
    }
    marks
}

/// Each recorded trade is mutual: if agent `i` is recorded as trading offer
/// `o` with `j`, then `j` is another agent, recorded as trading the negation
/// of `o` with `i`. An agent with a trivial offer is never recorded.
pub proof fn lemma_trades_mutual(
    offers: Seq<Offer>,
    positions: Seq<ClammsInt2D>,
    order: Seq<usize>,
    max_distance: u32,
    k: int,
)
    requires
        offers.len() == positions.len(),
        offers.len() <= u32::MAX,
        0 <= k <= order.len(),
        forall|i: int| 0 <= i < offers.len() ==> valid_deltas(#[trigger] offers[i].food(), offers[i].water()),
    ensures
        ({
            let m = trades_after(offers, positions, order, max_distance, k);
            &&& m.len() == offers.len()
            &&& forall|i: int|
                0 <= i < m.len() && m[i] is Some ==> {
                    let t = m[i]->Some_0;
                    &&& t.agent_id < m.len()
                    &&& t.agent_id != i
                    &&& m[t.agent_id as int] == Some(
                        AgentOffer { agent_id: i as u32, offer: t.offer.negated() },
                    )
                    &&& valid_deltas(t.offer.food(), t.offer.water())
                    &&& !(offers[i].food() == 0 && offers[i].water() == 0)
                }
        }),
    decreases k,
{
    if k > 0 {
        lemma_trades_mutual(offers, positions, order, max_distance, k - 1);
        let prev = trades_after(offers, positions, order, max_distance, k - 1);
        let i = order[k - 1] as int;
        if i >= offers.len() || prev[i] is Some || (offers[i].food() == 0 && offers[i].water()
            == 0) {
        } else {
            match partner_from(offers, positions, prev, i, 0, max_distance) {
                None => {},
                Some(j) => {
                    lemma_partner_from(offers, positions, prev, i, 0, max_distance);
                    offers[i].lemma_negated();
                    let m = trades_after(offers, positions, order, max_distance, k);
                    assert forall|x: int| 0 <= x < m.len() && m[x] is Some implies {
                        let t = m[x]->Some_0;
                        &&& t.agent_id < m.len()
                        &&& t.agent_id != x
                        &&& m[t.agent_id as int] == Some(
                            AgentOffer { agent_id: x as u32, offer: t.offer.negated() },
                        )
                        &&& valid_deltas(t.offer.food(), t.offer.water())
                        &&& !(offers[x].food() == 0 && offers[x].water() == 0)
                    } by {
                        if x != i && x != j {
                            let t = prev[x]->Some_0;
                            assert(prev[t.agent_id as int] is Some);
                        }
                    }
                },
            }
        }
    }
}

pub proof fn lemma_trades_len(
    offers: Seq<Offer>,
    positions: Seq<ClammsInt2D>,
    order: Seq<usize>,
    max_distance: u32,
    k: int,
)
    ensures
        trades_after(offers, positions, order, max_distance, k).len() == offers.len(),
    decreases k,
{
    if k > 0 {
        lemma_trades_len(offers, positions, order, max_distance, k - 1);
        let prev = trades_after(offers, positions, order, max_distance, k - 1);
        let i = order[k - 1] as int;
        if !(i >= offers.len() || prev[i] is Some || (offers[i].food() == 0 && offers[i].water() == 0)) {
            lemma_partner_from(offers, positions, prev, i, 0, max_distance);
        }
    }
}

proof fn lemma_partner_from(
    offers: Seq<Offer>,
    positions: Seq<ClammsInt2D>,
    marks: Seq<Option<AgentOffer>>,
    i: int,
    j: int,
    max_distance: u32,
)
    ensures
        partner_from(offers, positions, marks, i, j, max_distance) matches Some(p) ==> j <= p
            && can_partner(offers, positions, marks, i, p, max_distance),
    decreases offers.len() - j,
{
    if 0 <= j < offers.len() && !can_partner(offers, positions, marks, i, j, max_distance) {
        lemma_partner_from(offers, positions, marks, i, j + 1, max_distance);
    }
}

/// Matching is symmetric, and every offer is matched by its own negation.
pub proof fn lemma_matching_symmetry(o1: Offer, o2: Offer)
    requires
        valid_deltas(o1.food(), o1.water()),
    ensures
        offers_match(o1.food(), o1.water(), o2.food(), o2.water()) == offers_match(
            o2.food(),
            o2.water(),
            o1.food(),
            o1.water(),
        ),
        offers_match(o1.food(), o1.water(), o1.negated().food(), o1.negated().water()),
{
    o1.lemma_negated();
}

/// Settling a trade conserves each resource across the pair: what one side
/// gains the other loses, as long as neither side's count is clamped (at its
/// maximum or at the range of `i32`).
pub proof fn lemma_trade_conservation(
    a: Trader,
    b: Trader,
    a_after: Trader,
    b_after: Trader,
    offer: Offer,
    cfg: AgentConfig,
)
    requires
        a_after.stock(Resource::Food) == after_acquire(
            a.stock(Resource::Food),
            offer.food(),
            cfg.FOOD_MAX_INVENTORY as int,
        ),
        a_after.stock(Resource::Water) == after_acquire(
            a.stock(Resource::Water),
            offer.water(),
            cfg.WATER_MAX_INVENTORY as int,
        ),
        b_after.stock(Resource::Food) == after_acquire(
            b.stock(Resource::Food),
            offer.negated().food(),
            cfg.FOOD_MAX_INVENTORY as int,
        ),
        b_after.stock(Resource::Water) == after_acquire(
            b.stock(Resource::Water),
            offer.negated().water(),
            cfg.WATER_MAX_INVENTORY as int,
        ),
        valid_deltas(offer.food(), offer.water()),
        a.stock(Resource::Food) + offer.food() <= cfg.FOOD_MAX_INVENTORY,
        a.stock(Resource::Water) + offer.water() <= cfg.WATER_MAX_INVENTORY,
        b.stock(Resource::Food) - offer.food() <= cfg.FOOD_MAX_INVENTORY,
        b.stock(Resource::Water) - offer.water() <= cfg.WATER_MAX_INVENTORY,
        i32::MIN <= a.stock(Resource::Food) + offer.food(),
        i32::MIN <= a.stock(Resource::Water) + offer.water(),
        i32::MIN <= b.stock(Resource::Food) - offer.food(),
        i32::MIN <= b.stock(Resource::Water) - offer.water(),
    ensures
        a_after.stock(Resource::Food) - a.stock(Resource::Food) == -(b_after.stock(Resource::Food)
            - b.stock(Resource::Food)),
        a_after.stock(Resource::Water) - a.stock(Resource::Water) == -(b_after.stock(
            Resource::Water,
        ) - b.stock(Resource::Water)),
{
    offer.lemma_negated();
}

proof fn lemma_offer_ext(a: Offer, b: Offer)
    requires
        a.food() == b.food(),
        a.water() == b.water(),
    ensures
        a == b,
{
}

} // verus!
