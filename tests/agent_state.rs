use clamms::action::{Action, Propensity};
use clamms::agent_state::{AgentState, AgentStateItems, DiscrRep, InvLevel};
use clamms::config::{AgentConfig, TradeConfig};
use clamms::environment::{EnvItem, Patch, Resource};
use clamms::reward::Reward;
use clamms::trader::Offer;

fn cfg() -> AgentConfig {
    AgentConfig {
        INIT_FOOD: 0,
        INIT_WATER: 0,
        FOOD_ACQUIRE_RATE: 1,
        WATER_ACQUIRE_RATE: 1,
        FOOD_CONSUME_RATE: 1,
        WATER_CONSUME_RATE: 1,
        FOOD_MAX_INVENTORY: 100,
        WATER_MAX_INVENTORY: 100,
        FOOD_LOT_SIZE: 1,
        WATER_LOT_SIZE: 1,
        MAX_TRADE_LOTS: 1,
        INVENTORY_LEVEL_CRITICAL_LOW: 0,
        INVENTORY_LEVEL_LOW_MEDIUM: 10,
        INVENTORY_LEVEL_MEDIUM_HIGH: 50,
        DISTANCE_LEVEL_CRITICAL_LOW: 2,
        DISTANCE_LEVEL_LOW_MEDIUM: 10,
        DISTANCE_LEVEL_MEDIUM_HIGH: 30,
    }
}

fn st(food: i32, d: Option<u32>) -> AgentState {
    AgentState { food, water: food, min_steps_to_food: d, min_steps_to_water: d, min_steps_to_trader: None }
}

#[test]
fn boundaries_go_to_the_higher_level() {
    let c = cfg();
    assert_eq!(st(-1, None).discretise(&c).food, InvLevel::Critical);
    assert_eq!(st(0, None).discretise(&c).food, InvLevel::Low);
    assert_eq!(st(9, None).discretise(&c).food, InvLevel::Low);
    assert_eq!(st(10, None).discretise(&c).food, InvLevel::Medium);
    assert_eq!(st(49, None).discretise(&c).food, InvLevel::Medium);
    assert_eq!(st(50, None).discretise(&c).food, InvLevel::High);
    assert_eq!(st(0, Some(1)).discretise(&c).min_steps_to_food, InvLevel::Critical);
    assert_eq!(st(0, Some(2)).discretise(&c).min_steps_to_food, InvLevel::Low);
    assert_eq!(st(0, Some(10)).discretise(&c).min_steps_to_water, InvLevel::Medium);
    assert_eq!(st(0, Some(30)).discretise(&c).min_steps_to_water, InvLevel::High);
}

#[test]
fn absent_targets_are_far() {
    let d = st(20, None).discretise(&cfg());
    assert_eq!(d.min_steps_to_food, InvLevel::High);
    assert_eq!(d.min_steps_to_trader, InvLevel::High);
}

#[test]
fn representation_lists_items_in_order() {
    let s = AgentState { food: -3, water: 12, min_steps_to_food: Some(1), min_steps_to_water: None, min_steps_to_trader: Some(40) };
    assert_eq!(
        s.representation(&cfg()),
        vec![
            (AgentStateItems::Food, InvLevel::Critical),
            (AgentStateItems::Water, InvLevel::Medium),
            (AgentStateItems::MinStepsToFood, InvLevel::Critical),
            (AgentStateItems::MinStepsToWater, InvLevel::High),
            (AgentStateItems::MinStepsToTrader, InvLevel::High),
        ]
    );
    assert_eq!(AgentStateItems::all().len(), 5);
    assert_eq!(InvLevel::all().len(), 4);
}

#[test]
fn starvation_penalty() {
    assert_eq!(Reward::from_inv_count_linear(5, 7).val, 0);
    assert_eq!(Reward::from_inv_count_linear(-5, 7).val, -5);
    assert_eq!(Reward::from_inv_count_linear(-5, -7).val, -12);
    assert_eq!(Reward::from_inv_count_linear(i32::MIN, -1).val, i32::MIN);
    assert_eq!(Reward::new(3).val, 3);
}

#[test]
fn offer_actions() {
    let t = TradeConfig { MAX_TRADE_DISTANCE: 2, MIN_INVENTORY_LEVEL: 0, LOW_LOT_SIZE: 1, MEDIUM_LOT_SIZE: 2, HIGH_LOT_SIZE: 5 };
    assert_eq!(Action::ToFood.parse_offer(&t), None);
    assert_eq!(Action::Stationary.parse_offer(&t), None);
    assert_eq!(Action::SetOfferWaterFoodLH.parse_offer(&t), Some(Offer::new(1, -5)));
    assert_eq!(Action::SetOfferFoodWaterMH.parse_offer(&t), Some(Offer::new(-2, 5)));
    assert_eq!(Action::SetOfferTrivial.parse_offer(&t), Some(Offer::new(0, 0)));
    assert_eq!(Action::all().len(), 23);
    assert_eq!(Propensity::default(), Propensity::One);
}

#[test]
fn resources_and_patches() {
    assert_eq!(Resource::Food.texture(), "fruit");
    assert_eq!(Resource::Water.texture(), "water");
    let p = Resource::Water.to_patch(7);
    assert_eq!(p.id, 7);
    assert_eq!(p.env_item, EnvItem::Resource(Resource::Water));
    assert_eq!(Patch::new(3, EnvItem::Bush).env_item, EnvItem::Bush);
}

#[test]
fn indices_round_trip() {
    for l in InvLevel::all() {
        assert_eq!(InvLevel::from_index(l.index()), Some(l));
    }
    for i in AgentStateItems::all() {
        assert_eq!(AgentStateItems::from_index(i.index()), Some(i));
    }
    for a in Action::all() {
        assert_eq!(Action::from_index(a.index()), Some(a));
    }
    assert_eq!(InvLevel::from_index(4), None);
    assert_eq!(Action::from_index(23), None);
}
