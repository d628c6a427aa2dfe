use clamms::config::{AgentConfig, TradeConfig};
use clamms::environment::Resource;
use clamms::inventory::{Forager, Inventory};
use clamms::routing::ClammsInt2D;
use clamms::trader::{match_trades, propose_offer, AgentOffer, Offer, Trade, Trader};

fn agent_config() -> AgentConfig {
    AgentConfig {
        INIT_FOOD: 0,
        INIT_WATER: 0,
        FOOD_ACQUIRE_RATE: 1,
        WATER_ACQUIRE_RATE: 1,
        FOOD_CONSUME_RATE: 1,
        WATER_CONSUME_RATE: 1,
        FOOD_MAX_INVENTORY: 100,
        WATER_MAX_INVENTORY: 100,
        FOOD_LOT_SIZE: 1,
        WATER_LOT_SIZE: 1,
        MAX_TRADE_LOTS: 3,
        INVENTORY_LEVEL_CRITICAL_LOW: 0,
        INVENTORY_LEVEL_LOW_MEDIUM: 10,
        INVENTORY_LEVEL_MEDIUM_HIGH: 50,
        DISTANCE_LEVEL_CRITICAL_LOW: 2,
        DISTANCE_LEVEL_LOW_MEDIUM: 10,
        DISTANCE_LEVEL_MEDIUM_HIGH: 30,
    }
}

fn trade_config() -> TradeConfig {
    TradeConfig {
        MAX_TRADE_DISTANCE: 2,
        MIN_INVENTORY_LEVEL: 0,
        LOW_LOT_SIZE: 1,
        MEDIUM_LOT_SIZE: 2,
        HIGH_LOT_SIZE: 3,
    }
}

fn trader(id: u32, food: i32, water: i32) -> Trader {
    Trader::new(Forager::new(id, ClammsInt2D { x: 0, y: 0 }, food, water, &agent_config()))
}

#[test]
fn test_matched() {
    // This is an offer of *at most* 2 lots of food for *at least* 3 lots of water.
    let offer = Offer::new(-2, 3);

    assert!(offer.matched(&Offer::new(2, -3)));
    assert!(offer.matched(&Offer::new(2, -5)));
    assert!(offer.matched(&Offer::new(1, -3)));
    assert!(offer.matched(&Offer::new(1, -4)));
    assert!(offer.matched(&Offer::new(0, -3)));

    assert!(!offer.matched(&Offer::new(3, -3)));
    assert!(!offer.matched(&Offer::new(2, -2)));
    assert!(!offer.matched(&Offer::new(2, -1)));
}

#[test]
fn test_trader_offer() {
    let a = agent_config();
    let t = trade_config();
    assert_eq!(trader(0, 8, 5).offer(&a, &t), Offer::new(-1, 1));
    assert_eq!(trader(0, 7, 5).offer(&a, &t), Offer::new(0, 0));
    assert_eq!(trader(0, -8, -5).offer(&a, &t), Offer::new(0, 0));
    assert_eq!(trader(0, 2, -1).offer(&a, &t), Offer::new(-1, 1));
    assert_eq!(trader(0, 1, -2).offer(&a, &t), Offer::new(-1, 1));
    assert_eq!(trader(0, -2, 1).offer(&a, &t), Offer::new(1, -1));
    assert_eq!(trader(0, 0, -1).offer(&a, &t), Offer::new(0, 0));
}

#[test]
fn offer_sign_rule_rejects_same_signs() {
    assert!(Offer::try_new(1, 1).is_none());
    assert!(Offer::try_new(-1, -2).is_none());
    assert!(Offer::try_new(i32::MIN, 0).is_none());
    assert_eq!(Offer::try_new(-3, 2), Some(Offer::new(-3, 2)));
    assert_eq!(Offer::try_new(0, 0), Some(Offer::new(0, 0)));
    let o = Offer::try_new(4, -1).unwrap();
    assert_eq!((o.food_delta(), o.water_delta()), (4, -1));
    assert!(Offer::new(0, 0).is_trivial());
    assert!(!Offer::new(0, -1).is_trivial());
}

#[test]
fn matching_is_symmetric_and_meets_the_inverse() {
    let offers = [Offer::new(-2, 3), Offer::new(2, -5), Offer::new(0, 0), Offer::new(4, -1), Offer::new(-1, 0)];
    for a in offers.iter() {
        assert!(a.matched(&a.invert()));
        for b in offers.iter() {
            assert_eq!(a.matched(b), b.matched(a));
        }
    }
    assert_eq!(Offer::new(-2, 3).invert(), Offer::new(2, -3));
}

#[test]
fn larger_surplus_raises_more_lots() {
    let a = agent_config();
    let t = trade_config();
    // 20 food, 5 water: raising stops when food would no longer exceed water.
    assert_eq!(propose_offer(20, 5, &a, &t), Offer::new(-3, 3));
    let mut two = agent_config();
    two.FOOD_LOT_SIZE = 2;
    two.WATER_LOT_SIZE = 1;
    assert_eq!(propose_offer(20, 5, &two, &t), Offer::new(-6, 3));
    let mut floor = trade_config();
    floor.MIN_INVENTORY_LEVEL = 18;
    assert_eq!(propose_offer(20, 5, &a, &floor), Offer::new(-2, 2));
    let mut none = agent_config();
    none.MAX_TRADE_LOTS = 0;
    assert_eq!(propose_offer(20, 5, &none, &t), Offer::new(0, 0));
}

#[test]
fn two_traders_swap_one_lot() {
    let a = agent_config();
    let t = trade_config();
    let mut t0 = trader(0, 8, 5);
    let mut t1 = trader(1, 5, 8);
    let o0 = t0.offer(&a, &t);
    let o1 = t1.offer(&a, &t);
    assert_eq!(o0, Offer::new(-1, 1));
    assert_eq!(o1, o0.invert());
    let positions = vec![ClammsInt2D { x: 3, y: 3 }, ClammsInt2D { x: 3, y: 4 }];
    let trades = match_trades(&vec![o0, o1], &positions, &vec![1, 0], t.MAX_TRADE_DISTANCE);
    assert_eq!(trades, vec![Some(AgentOffer::new(1, &o0)), Some(AgentOffer::new(0, &o1))]);
    t1.apply_offer(&trades[1].unwrap().offer, &a);
    t0.apply_offer(&trades[0].unwrap().offer, &a);
    assert_eq!((t0.count(&Resource::Food), t0.count(&Resource::Water)), (7, 6));
    assert_eq!((t1.count(&Resource::Food), t1.count(&Resource::Water)), (6, 7));
}

#[test]
fn settlement_conserves_resources() {
    let a = agent_config();
    let mut x = trader(0, 30, 4);
    let mut y = trader(1, 2, 40);
    let o = Offer::new(-3, 5);
    let before = (x.count(&Resource::Food), x.count(&Resource::Water), y.count(&Resource::Food), y.count(&Resource::Water));
    x.apply_offer(&o, &a);
    y.apply_offer(&o.invert(), &a);
    assert_eq!(x.count(&Resource::Food) - before.0, -(y.count(&Resource::Food) - before.2));
    assert_eq!(x.count(&Resource::Water) - before.1, -(y.count(&Resource::Water) - before.3));
}

#[test]
fn trades_respect_distance_and_single_trade() {
    let o_give = Offer::new(-1, 1);
    let o_take = Offer::new(1, -1);
    let far = vec![ClammsInt2D { x: 1, y: 1 }, ClammsInt2D { x: 5, y: 5 }];
    let none = match_trades(&vec![o_give, o_take], &far, &vec![0, 1], 2);
    assert_eq!(none, vec![None, None]);
    // Three agents: two takers near one giver; the giver trades with the first in snapshot order.
    let near = vec![ClammsInt2D { x: 1, y: 1 }, ClammsInt2D { x: 1, y: 2 }, ClammsInt2D { x: 2, y: 1 }];
    let r = match_trades(&vec![o_give, o_take, o_take], &near, &vec![0, 1, 2], 2);
    assert_eq!(r[0], Some(AgentOffer::new(1, &o_give)));
    assert_eq!(r[1], Some(AgentOffer::new(0, &o_give.invert())));
    assert_eq!(r[2], None);
    // An out-of-range index in the order is passed over.
    let r2 = match_trades(&vec![o_give, o_take], &near[0..2].to_vec(), &vec![7, 1], 2);
    assert_eq!(r2[1], Some(AgentOffer::new(0, &o_take)));
}

#[test]
fn agents_are_equal_by_id() {
    let c = agent_config();
    let a = Forager::new(1, ClammsInt2D { x: 1, y: 1 }, 5, 5, &c);
    let b = Forager::new(1, ClammsInt2D { x: 4, y: 2 }, 0, 9, &c);
    let d = Forager::new(2, ClammsInt2D { x: 1, y: 1 }, 5, 5, &c);
    assert!(a == b);
    assert!(a != d);
    assert!(Trader::new(a) == Trader::new(b));
    assert_eq!(Trader::dummy(7).id(), 7);
}

#[test]
fn inventory_clamps_and_goes_negative() {
    let c = agent_config();
    let mut f = Forager::new(0, ClammsInt2D { x: 1, y: 1 }, 150, -4, &c);
    assert_eq!(f.count(&Resource::Food), 100);
    assert_eq!(f.count(&Resource::Water), -4);
    f.consume(&Resource::Water, 3, &c);
    assert_eq!(f.count(&Resource::Water), -7);
    f.acquire(&Resource::Food, -30, &c);
    assert_eq!(f.count(&Resource::Food), 70);
    f.consume(&Resource::Food, u32::MAX, &c);
    assert_eq!(f.count(&Resource::Food), i32::MIN);
}

#[test]
fn trivial_offers_never_trade() {
    // A one-sided gift matches the trivial offer, but a trivial offer takes no trade.
    let near = vec![ClammsInt2D { x: 1, y: 1 }, ClammsInt2D { x: 1, y: 2 }];
    let r = match_trades(&vec![Offer::new(-1, 0), Offer::new(0, 0)], &near, &vec![0, 1], 5);
    assert_eq!(r, vec![None, None]);
}
