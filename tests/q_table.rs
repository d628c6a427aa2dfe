use clamms::action::Action;
use clamms::agent_state::{AgentState, AgentStateItems, DiscrRep, InvLevel};
use clamms::config::{AgentConfig, RLConfig};
use clamms::history::{History, SAR};
use clamms::q_table::{level_combinations, QKey, QTable};
use clamms::reward::Reward;
use clamms::routing::ClammsInt2D;
use clamms::tabular_rl::SARSAModel;
use rand::rngs::StdRng;
use rand::SeedableRng;

fn levels() -> Vec<InvLevel> {
    vec![InvLevel::Critical, InvLevel::Low, InvLevel::Medium, InvLevel::High]
}

#[test]
fn test_multi_product() {
    let combs = level_combinations(vec![
        vec![
            InvLevel::Critical,
            InvLevel::Low,
            InvLevel::Medium,
            InvLevel::High,
        ];
        3
    ]);
    // Should be: 4 ** 3 with each position taking all possible variants of the enum
    assert_eq!(combs.len(), 64)
}

#[test]
fn combinations_are_lexicographic() {
    let combs = level_combinations(vec![vec![InvLevel::Low, InvLevel::High], vec![InvLevel::Critical, InvLevel::Medium]]);
    assert_eq!(
        combs,
        vec![
            vec![InvLevel::Low, InvLevel::Critical],
            vec![InvLevel::Low, InvLevel::Medium],
            vec![InvLevel::High, InvLevel::Critical],
            vec![InvLevel::High, InvLevel::Medium],
        ]
    );
    assert_eq!(level_combinations(vec![]), vec![Vec::<InvLevel>::new()]);
    assert_eq!(level_combinations(vec![levels(), vec![]]).len(), 0);
}

#[test]
fn new_table_holds_every_key_once() {
    let items = vec![AgentStateItems::Food, AgentStateItems::Water];
    let actions = vec![Action::ToFood, Action::Stationary];
    let t = QTable::new(items.clone(), levels(), actions.clone(), -7);
    let mut count = 0;
    for a in levels() {
        for b in levels() {
            for act in actions.iter() {
                let key = QKey(vec![(AgentStateItems::Food, a), (AgentStateItems::Water, b)], *act);
                assert_eq!(t.get(&key), Some(-7));
                count += 1;
            }
        }
    }
    assert_eq!(count, 32);
    // Keys outside the configured items, levels or actions are absent.
    assert_eq!(t.get(&QKey(vec![(AgentStateItems::Food, InvLevel::Low)], Action::ToFood)), None);
    assert_eq!(t.get(&QKey(vec![(AgentStateItems::Water, InvLevel::Low), (AgentStateItems::Food, InvLevel::Low)], Action::ToFood)), None);
    assert_eq!(t.get(&QKey(vec![(AgentStateItems::Food, InvLevel::Low), (AgentStateItems::Water, InvLevel::Low)], Action::ToAgent)), None);
}

#[test]
fn set_changes_one_entry() {
    let mut t = QTable::new(vec![AgentStateItems::Food], levels(), vec![Action::ToFood, Action::ToWater], 0);
    let k = QKey::from_tuple((vec![(AgentStateItems::Food, InvLevel::Medium)], Action::ToWater));
    t.set(&k, 42);
    assert_eq!(t.get(&k), Some(42));
    for l in levels() {
        for a in [Action::ToFood, Action::ToWater] {
            let other = QKey(vec![(AgentStateItems::Food, l)], a);
            if other != k {
                assert_eq!(t.get(&other), Some(0));
            }
        }
    }
}

#[test]
fn greedy_takes_first_best() {
    let mut t = QTable::new(vec![AgentStateItems::Food], levels(), vec![Action::ToFood, Action::ToWater, Action::ToAgent], 0);
    let s = vec![(AgentStateItems::Food, InvLevel::Low)];
    assert_eq!(t.greedy_action(&s), (Action::ToFood, 0));
    t.set_value(&s, Action::ToWater, 5);
    t.set_value(&s, Action::ToAgent, 5);
    assert_eq!(t.greedy_action(&s), (Action::ToWater, 5));
    assert_eq!(t.sample_action_with(&s, 10, 20, 2), (Action::ToAgent, 5));
    assert_eq!(t.sample_action_with(&s, 30, 20, 2), (Action::ToWater, 5));
    let mut rng = StdRng::seed_from_u64(3);
    for _ in 0..20 {
        assert_eq!(t.sample_action(&s, 0, &mut rng).0, Action::ToWater);
    }
}

fn agent_config() -> AgentConfig {
    AgentConfig {
        INIT_FOOD: 0,
        INIT_WATER: 0,
        FOOD_ACQUIRE_RATE: 1,
        WATER_ACQUIRE_RATE: 1,
        FOOD_CONSUME_RATE: 1,
        WATER_CONSUME_RATE: 1,
        FOOD_MAX_INVENTORY: 100,
        WATER_MAX_INVENTORY: 100,
        FOOD_LOT_SIZE: 1,
        WATER_LOT_SIZE: 1,
        MAX_TRADE_LOTS: 1,
        INVENTORY_LEVEL_CRITICAL_LOW: 0,
        INVENTORY_LEVEL_LOW_MEDIUM: 10,
        INVENTORY_LEVEL_MEDIUM_HIGH: 50,
        DISTANCE_LEVEL_CRITICAL_LOW: 2,
        DISTANCE_LEVEL_LOW_MEDIUM: 10,
        DISTANCE_LEVEL_MEDIUM_HIGH: 30,
    }
}

fn rl(n: u8, gamma: u32, alpha: u32) -> RLConfig {
    RLConfig { INIT_Q_VALUES: 0, SARSA_N: n, GAMMA: gamma, ALPHA: alpha, EPSILON: 0, MULTI_POLICY: false }
}

fn state(food: i32) -> AgentState {
    AgentState { food, water: 20, min_steps_to_food: None, min_steps_to_water: None, min_steps_to_trader: None }
}

fn history(steps: &[(i32, Action, i32)]) -> History {
    let mut h = History::new();
    for (i, (food, action, reward)) in steps.iter().enumerate() {
        h.push(SAR::new(state(*food), *action, Reward::new(*reward)), i as u64, ClammsInt2D { x: 1, y: 1 }, None);
    }
    h
}

fn model(n: u8, gamma: u32, alpha: u32) -> SARSAModel {
    SARSAModel::new(vec![0], AgentStateItems::all(), InvLevel::all(), Action::all(), false, &rl(n, gamma, alpha))
}

fn value(m: &SARSAModel, s: &AgentState, a: Action) -> i64 {
    m.get_table_by_id(0).value_of(&s.representation(&agent_config()), a).unwrap()
}

#[test]
fn sarsa_waits_for_n_plus_one_ticks() {
    let cfg = agent_config();
    let mut m = model(1, 500_000, 500_000);
    let hs = vec![history(&[(60, Action::ToFood, -2), (5, Action::ToWater, -1)])];
    m.step(0, &hs, &cfg);
    m.step(1, &hs, &cfg);
    assert_eq!(value(&m, &state(60), Action::ToFood), 0);
    m.step(2, &hs, &cfg);
    // G = -2000 + 0.5 * 0; Q = 0 + 0.5 * (G - 0)
    assert_eq!(value(&m, &state(60), Action::ToFood), -1000);
    assert_eq!(value(&m, &state(5), Action::ToWater), 0);
}

#[test]
fn sarsa_discounts_each_reward() {
    let cfg = agent_config();
    let mut m = model(2, 500_000, 1_000_000);
    let hs = vec![history(&[(60, Action::ToFood, -2), (5, Action::ToWater, -4), (20, Action::Stationary, 0)])];
    m.step(3, &hs, &cfg);
    // G = -2000 + 0.5 * (-4000 + 0.5 * 0)
    assert_eq!(value(&m, &state(60), Action::ToFood), -4000);
}

#[test]
fn shared_policy_updates_in_agent_order() {
    let cfg = agent_config();
    let mut m = SARSAModel::new(vec![0, 1], AgentStateItems::all(), InvLevel::all(), Action::all(), false, &rl(1, 0, 1_000_000));
    let hs = vec![
        history(&[(60, Action::ToFood, -1), (5, Action::ToWater, 0)]),
        history(&[(60, Action::ToFood, -3), (5, Action::ToWater, 0)]),
    ];
    m.step(2, &hs, &cfg);
    // Both agents follow table 0; the second backup of the same key wins.
    assert_eq!(value(&m, &state(60), Action::ToFood), -3000);
    assert_eq!(m.policy_id(1), 0);
}
