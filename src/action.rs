//! The actions an agent's policy chooses among.
use vstd::prelude::*;
use crate::config::TradeConfig;
use crate::trader::Offer;

verus! {

/// A propensity to trade.
#[derive(Debug, Clone, Copy, PartialEq, Eq, Structural, Hash, PartialOrd, Ord)]
pub enum Propensity {
    One,
    Two,
    Three,
}

impl Default for Propensity {
    fn default() -> (r: Propensity)
        ensures
            r == Propensity::One,
    {
        Propensity::One
    }
}

/// An action: a movement intent, staying put, or posting an offer of some
/// lot sizes (Low, Medium, High) of one resource for the other.
#[derive(Debug, Clone, Copy, PartialEq, Eq, Structural, Hash)]
pub enum Action {
    ToFood,
    ToWater,
    ToAgent,
    Stationary,
    SetOfferWaterFoodLL,
    SetOfferWaterFoodLM,
    SetOfferWaterFoodLH,
    SetOfferWaterFoodML,
    SetOfferWaterFoodMM,
    SetOfferWaterFoodMH,
    SetOfferWaterFoodHL,
    SetOfferWaterFoodHM,
    SetOfferWaterFoodHH,
    SetOfferFoodWaterLL,
    SetOfferFoodWaterLM,
    SetOfferFoodWaterLH,
    SetOfferFoodWaterML,
    SetOfferFoodWaterMM,
    SetOfferFoodWaterMH,
    SetOfferFoodWaterHL,
    SetOfferFoodWaterHM,
    SetOfferFoodWaterHH,
    SetOfferTrivial,
}

/// Lot sizes that an offer action can use: none is negative.
pub open spec fn lot_sizes_ok(t: TradeConfig) -> bool {
    &&& 0 <= t.LOW_LOT_SIZE
    &&& 0 <= t.MEDIUM_LOT_SIZE
    &&& 0 <= t.HIGH_LOT_SIZE
}

/// The (food, water) deltas of the offer that an action posts, if it posts one.
pub open spec fn action_offer(a: Action, t: TradeConfig) -> Option<(int, int)> {
    let l = t.LOW_LOT_SIZE as int;
    let m = t.MEDIUM_LOT_SIZE as int;
    let h = t.HIGH_LOT_SIZE as int;
    match a {
        Action::ToFood => None,
        Action::ToWater => None,
        Action::ToAgent => None,
        Action::Stationary => None,
        Action::SetOfferWaterFoodLL => Some((l, -l)),
        Action::SetOfferWaterFoodLM => Some((l, -m)),
        Action::SetOfferWaterFoodLH => Some((l, -h)),
        Action::SetOfferWaterFoodML => Some((m, -l)),
        Action::SetOfferWaterFoodMM => Some((m, -m)),
        Action::SetOfferWaterFoodMH => Some((m, -h)),
        Action::SetOfferWaterFoodHL => Some((h, -l)),
        Action::SetOfferWaterFoodHM => Some((h, -m)),
        Action::SetOfferWaterFoodHH => Some((h, -h)),
        Action::SetOfferFoodWaterLL => Some((-l, l)),
        Action::SetOfferFoodWaterLM => Some((-l, m)),
        Action::SetOfferFoodWaterLH => Some((-l, h)),
        Action::SetOfferFoodWaterML => Some((-m, l)),
        Action::SetOfferFoodWaterMM => Some((-m, m)),
        Action::SetOfferFoodWaterMH => Some((-m, h)),
        Action::SetOfferFoodWaterHL => Some((-h, l)),
        Action::SetOfferFoodWaterHM => Some((-h, m)),
        Action::SetOfferFoodWaterHH => Some((-h, h)),
        Action::SetOfferTrivial => Some((0, 0)),
    }
}

/// Every action, in declaration order.
pub open spec fn all_actions() -> Seq<Action> {
    seq![
        Action::ToFood,
        Action::ToWater,
        Action::ToAgent,
        Action::Stationary,
        Action::SetOfferWaterFoodLL,
        Action::SetOfferWaterFoodLM,
        Action::SetOfferWaterFoodLH,
        Action::SetOfferWaterFoodML,
        Action::SetOfferWaterFoodMM,
        Action::SetOfferWaterFoodMH,
        Action::SetOfferWaterFoodHL,
        Action::SetOfferWaterFoodHM,
        Action::SetOfferWaterFoodHH,
        Action::SetOfferFoodWaterLL,
        Action::SetOfferFoodWaterLM,
        Action::SetOfferFoodWaterLH,
        Action::SetOfferFoodWaterML,
        Action::SetOfferFoodWaterMM,
        Action::SetOfferFoodWaterMH,
        Action::SetOfferFoodWaterHL,
        Action::SetOfferFoodWaterHM,
        Action::SetOfferFoodWaterHH,
        Action::SetOfferTrivial,
    ]
}

impl Action {
    /// The position of this action in declaration order.
    pub fn index(&self) -> (r: u8)
        ensures
            r < 23,
            all_actions()[r as int] == *self,
    {
        match self {
            Action::ToFood => 0,
            Action::ToWater => 1,
            Action::ToAgent => 2,
            Action::Stationary => 3,
            Action::SetOfferWaterFoodLL => 4,
            Action::SetOfferWaterFoodLM => 5,
            Action::SetOfferWaterFoodLH => 6,
            Action::SetOfferWaterFoodML => 7,
            Action::SetOfferWaterFoodMM => 8,
            Action::SetOfferWaterFoodMH => 9,
            Action::SetOfferWaterFoodHL => 10,
            Action::SetOfferWaterFoodHM => 11,
            Action::SetOfferWaterFoodHH => 12,
            Action::SetOfferFoodWaterLL => 13,
            Action::SetOfferFoodWaterLM => 14,
            Action::SetOfferFoodWaterLH => 15,
            Action::SetOfferFoodWaterML => 16,
            Action::SetOfferFoodWaterMM => 17,
            Action::SetOfferFoodWaterMH => 18,
            Action::SetOfferFoodWaterHL => 19,
            Action::SetOfferFoodWaterHM => 20,
            Action::SetOfferFoodWaterHH => 21,
            Action::SetOfferTrivial => 22,
        }
    }

    /// The action at position `k`, if there is one.
    pub fn from_index(k: u8) -> (r: Option<Action>)
        ensures
            r is Some <==> k < 23,
            r matches Some(a) ==> a == all_actions()[k as int],
    {
        match k {
            0 => Some(Action::ToFood),
            1 => Some(Action::ToWater),
            2 => Some(Action::ToAgent),
            3 => Some(Action::Stationary),
            4 => Some(Action::SetOfferWaterFoodLL),
            5 => Some(Action::SetOfferWaterFoodLM),
            6 => Some(Action::SetOfferWaterFoodLH),
            7 => Some(Action::SetOfferWaterFoodML),
            8 => Some(Action::SetOfferWaterFoodMM),
            9 => Some(Action::SetOfferWaterFoodMH),
            10 => Some(Action::SetOfferWaterFoodHL),
            11 => Some(Action::SetOfferWaterFoodHM),
            12 => Some(Action::SetOfferWaterFoodHH),
            13 => Some(Action::SetOfferFoodWaterLL),
            14 => Some(Action::SetOfferFoodWaterLM),
            15 => Some(Action::SetOfferFoodWaterLH),
            16 => Some(Action::SetOfferFoodWaterML),
            17 => Some(Action::SetOfferFoodWaterMM),
            18 => Some(Action::SetOfferFoodWaterMH),
            19 => Some(Action::SetOfferFoodWaterHL),
            20 => Some(Action::SetOfferFoodWaterHM),
            21 => Some(Action::SetOfferFoodWaterHH),
            22 => Some(Action::SetOfferTrivial),
            _ => None,
        }
    }

    /// Every action, in declaration order.
    pub fn all() -> (r: Vec<Action>)
        ensures
            r@ == all_actions(),
    {
        let r = vec![
            Action::ToFood,
            Action::ToWater,
            Action::ToAgent,
            Action::Stationary,
            Action::SetOfferWaterFoodLL,
            Action::SetOfferWaterFoodLM,
            Action::SetOfferWaterFoodLH,
            Action::SetOfferWaterFoodML,
            Action::SetOfferWaterFoodMM,
            Action::SetOfferWaterFoodMH,
            Action::SetOfferWaterFoodHL,
            Action::SetOfferWaterFoodHM,
            Action::SetOfferWaterFoodHH,
            Action::SetOfferFoodWaterLL,
            Action::SetOfferFoodWaterLM,
            Action::SetOfferFoodWaterLH,
            Action::SetOfferFoodWaterML,
            Action::SetOfferFoodWaterMM,
            Action::SetOfferFoodWaterMH,
            Action::SetOfferFoodWaterHL,
            Action::SetOfferFoodWaterHM,
            Action::SetOfferFoodWaterHH,
            Action::SetOfferTrivial,
        ];
        assert(r@ =~= all_actions());
        r
    }

    /// The offer this action posts, if it is an offer action.
    pub fn parse_offer(&self, trade: &TradeConfig) -> (r: Option<Offer>)
        requires
            lot_sizes_ok(*trade),
        ensures
            r is None <==> action_offer(*self, *trade) is None,
            r matches Some(o) ==> action_offer(*self, *trade) == Some((o.food(), o.water())),
    {
        let l = trade.LOW_LOT_SIZE;
        let m = trade.MEDIUM_LOT_SIZE;
        let h = trade.HIGH_LOT_SIZE;
        match self {
            Action::ToFood => None,
            Action::ToWater => None,
            Action::ToAgent => None,
            Action::Stationary => None,
            Action::SetOfferWaterFoodLL => Some(Offer::new(l, -l)),
            Action::SetOfferWaterFoodLM => Some(Offer::new(l, -m)),
            Action::SetOfferWaterFoodLH => Some(Offer::new(l, -h)),
            Action::SetOfferWaterFoodML => Some(Offer::new(m, -l)),
            Action::SetOfferWaterFoodMM => Some(Offer::new(m, -m)),
            Action::SetOfferWaterFoodMH => Some(Offer::new(m, -h)),
            Action::SetOfferWaterFoodHL => Some(Offer::new(h, -l)),
            Action::SetOfferWaterFoodHM => Some(Offer::new(h, -m)),
            Action::SetOfferWaterFoodHH => Some(Offer::new(h, -h)),
            Action::SetOfferFoodWaterLL => Some(Offer::new(-l, l)),
            Action::SetOfferFoodWaterLM => Some(Offer::new(-l, m)),
            Action::SetOfferFoodWaterLH => Some(Offer::new(-l, h)),
            Action::SetOfferFoodWaterML => Some(Offer::new(-m, l)),
            Action::SetOfferFoodWaterMM => Some(Offer::new(-m, m)),
            Action::SetOfferFoodWaterMH => Some(Offer::new(-m, h)),
            Action::SetOfferFoodWaterHL => Some(Offer::new(-h, l)),
            Action::SetOfferFoodWaterHM => Some(Offer::new(-h, m)),
            Action::SetOfferFoodWaterHH => Some(Offer::new(-h, h)),
            Action::SetOfferTrivial => Some(Offer::new(0, 0)),
        }
    }
}

} // verus!
