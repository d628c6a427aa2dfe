use clamms::action::Action;
use clamms::agent_state::{AgentStateItems, InvLevel};
use clamms::board::{env_item_from_draws, AgentAPI, Board};
use clamms::config::{AgentConfig, Config, RLConfig, SimulationConfig, TradeConfig, WorldConfig};
use clamms::environment::{EnvItem, Resource};
use clamms::inventory::Inventory;
use clamms::routing::ClammsInt2D;
use clamms::tabular_rl::SARSAModel;

fn config(width: u16, height: u16, n: u8, food_abundance: u32, water_abundance: u32) -> Config {
    Config {
        simulation: SimulationConfig { VERBOSITY: 0 },
        agent: AgentConfig {
            INIT_FOOD: 10,
            INIT_WATER: 10,
            FOOD_ACQUIRE_RATE: 3,
            WATER_ACQUIRE_RATE: 3,
            FOOD_CONSUME_RATE: 1,
            WATER_CONSUME_RATE: 2,
            FOOD_MAX_INVENTORY: 50,
            WATER_MAX_INVENTORY: 50,
            FOOD_LOT_SIZE: 1,
            WATER_LOT_SIZE: 1,
            MAX_TRADE_LOTS: 1,
            INVENTORY_LEVEL_CRITICAL_LOW: 0,
            INVENTORY_LEVEL_LOW_MEDIUM: 10,
            INVENTORY_LEVEL_MEDIUM_HIGH: 50,
            DISTANCE_LEVEL_CRITICAL_LOW: 2,
            DISTANCE_LEVEL_LOW_MEDIUM: 10,
            DISTANCE_LEVEL_MEDIUM_HIGH: 30,
        },
        world: WorldConfig {
            N_STEPS: 10,
            RANDOM_SEED: 42,
            LAND_PROP: 700_000,
            FOOD_ABUNDANCE: food_abundance,
            WATER_ABUNDANCE: water_abundance,
            WIDTH: width,
            HEIGHT: height,
            N_AGENTS: n,
            HAS_TRADING: true,
        },
        trade: TradeConfig { MAX_TRADE_DISTANCE: 3, MIN_INVENTORY_LEVEL: 0, LOW_LOT_SIZE: 1, MEDIUM_LOT_SIZE: 2, HIGH_LOT_SIZE: 3 },
        rl: RLConfig { INIT_Q_VALUES: -10_000_000, SARSA_N: 2, GAMMA: 990_000, ALPHA: 10_000, EPSILON: 10_000, MULTI_POLICY: false },
    }
}

fn model(cfg: &Config) -> SARSAModel {
    let ids: Vec<u32> = (0..cfg.world.N_AGENTS).map(u32::from).collect();
    SARSAModel::new(ids, AgentStateItems::all(), InvLevel::all(), Action::all(), cfg.rl.MULTI_POLICY, &cfg.rl)
}

fn board(cfg: &Config) -> Board {
    Board::new_with_seed((cfg.world.WIDTH, cfg.world.HEIGHT), cfg.world.N_AGENTS, cfg.world.RANDOM_SEED, model(cfg), cfg.world.HAS_TRADING, cfg)
}

#[test]
fn lone_agent_without_resources_only_consumes() {
    let cfg = config(10, 10, 1, 0, 0);
    let mut b = board(&cfg);
    b.init_with_positions(&vec![ClammsInt2D { x: 5, y: 5 }]);
    b.step();
    let a = b.get_agent_by_id(&0);
    let pos = a.forager.position();
    assert!(1 <= pos.x && pos.x <= 9 && 1 <= pos.y && pos.y <= 9);
    assert!((pos.x - 5).abs() + (pos.y - 5).abs() <= 1);
    assert_eq!(a.count(&Resource::Food), 10 - 1);
    assert_eq!(a.count(&Resource::Water), 10 - 2);
    assert_eq!(b.tick_count(), 1);
    let h = &b.agent_histories()[0];
    assert_eq!(h.len(), 1);
    assert_eq!(h.positions[0], pos);
    assert_eq!(h.times[0], 0);
    assert_eq!(h.trajectory[0].reward.val, 0);
}

#[test]
fn reads_see_the_start_of_the_tick() {
    let cfg = config(10, 10, 2, 0, 0);
    let mut b = board(&cfg);
    b.init_with_positions(&vec![ClammsInt2D { x: 2, y: 2 }, ClammsInt2D { x: 7, y: 7 }]);
    assert_eq!(b.get_objects_at(&ClammsInt2D { x: 2, y: 2 }), Some(vec![0]));
    assert_eq!(b.get_objects_at(&ClammsInt2D { x: 7, y: 7 }), Some(vec![1]));
    assert_eq!(b.get_objects_at(&ClammsInt2D { x: 3, y: 3 }), None);
    b.step();
    for agent in b.get_agents() {
        let p = agent.forager.position();
        let ids = b.get_objects_at(&p).unwrap();
        assert!(ids.contains(&agent.forager.id()));
    }
}

#[test]
fn starving_agents_are_penalised() {
    let mut cfg = config(10, 10, 1, 0, 0);
    cfg.agent.INIT_FOOD = 0;
    cfg.agent.INIT_WATER = 1;
    let mut b = board(&cfg);
    b.init_with_positions(&vec![ClammsInt2D { x: 5, y: 5 }]);
    b.step();
    b.step();
    let h = &b.agent_histories()[0];
    assert_eq!(h.trajectory[0].reward.val, -1 - 1);
    assert_eq!(h.trajectory[1].reward.val, -2 - 3);
}

#[test]
fn agents_on_food_gather_it() {
    let cfg = config(4, 4, 1, 1_000_000, 0);
    let mut b = board(&cfg);
    b.init_with_positions(&vec![ClammsInt2D { x: 2, y: 2 }]);
    assert_eq!(b.resource_at(&ClammsInt2D { x: 1, y: 3 }), Some(EnvItem::Resource(Resource::Food)));
    assert_eq!(b.resource_locations().0.len(), 16);
    b.step();
    let a = b.get_agent_by_id(&0);
    assert_eq!(a.count(&Resource::Food), 10 - 1 + 3);
    assert_eq!(a.count(&Resource::Water), 10 - 2);
}

#[test]
fn map_seeds_the_field() {
    let cfg = config(6, 6, 1, 0, 0);
    let food = vec![ClammsInt2D { x: 1, y: 1 }, ClammsInt2D { x: 2, y: 2 }];
    let water = vec![ClammsInt2D { x: 2, y: 2 }, ClammsInt2D { x: 4, y: 3 }];
    let mut b = Board::new_with_seed_resources((6, 6), 1, 7, food, water, model(&cfg), true, &cfg);
    b.init();
    assert_eq!(b.resource_at(&ClammsInt2D { x: 1, y: 1 }), Some(EnvItem::Resource(Resource::Food)));
    assert_eq!(b.resource_at(&ClammsInt2D { x: 2, y: 2 }), Some(EnvItem::Resource(Resource::Water)));
    assert_eq!(b.resource_at(&ClammsInt2D { x: 4, y: 3 }), Some(EnvItem::Resource(Resource::Water)));
    let other = b.resource_at(&ClammsInt2D { x: 0, y: 5 });
    assert!(other == Some(EnvItem::Land) || other == Some(EnvItem::Bush));
    assert_eq!(b.resource_at(&ClammsInt2D { x: 6, y: 0 }), None);
    let p = b.get_agent_by_id(&0).forager.position();
    assert!(1 <= p.x && p.x < 6 && 1 <= p.y && p.y < 6);
}

#[test]
fn neighbours_trade_on_the_second_tick() {
    let mut cfg = config(10, 10, 2, 0, 0);
    cfg.agent.INIT_FOOD = 20;
    cfg.agent.INIT_WATER = 5;
    cfg.agent.MAX_TRADE_LOTS = 1;
    let mut b = board(&cfg);
    b.init_with_positions(&vec![ClammsInt2D { x: 4, y: 4 }, ClammsInt2D { x: 4, y: 5 }]);
    b.step();
    // Both agents hold more food than water: their offers do not match, so nobody trades.
    b.step();
    let h0 = &b.agent_histories()[0];
    assert_eq!(h0.trades, vec![None, None]);
}

#[test]
fn reset_empties_the_board() {
    let cfg = config(10, 10, 2, 100_000, 100_000);
    let mut b = board(&cfg);
    b.init();
    b.step();
    b.reset();
    assert_eq!(b.tick_count(), 0);
    assert_eq!(b.get_agents().len(), 0);
    b.init();
    assert_eq!(b.get_agents().len(), 2);
}

#[test]
fn terrain_from_draws() {
    let w = config(4, 4, 1, 100_000, 200_000).world;
    assert_eq!(env_item_from_draws(99_999, 0, &w), EnvItem::Resource(Resource::Food));
    assert_eq!(env_item_from_draws(100_000, 0, &w), EnvItem::Resource(Resource::Water));
    assert_eq!(env_item_from_draws(300_000, 699_999, &w), EnvItem::Land);
    assert_eq!(env_item_from_draws(300_000, 700_000, &w), EnvItem::Bush);
}

#[test]
fn test_get_traders() {
    let cfg = config(10, 10, 2, 0, 0);
    let mut b = board(&cfg);
    let positions = vec![ClammsInt2D { x: 4, y: 8 }, ClammsInt2D { x: 1, y: 2 }];
    b.init_with_positions(&positions);
    let result = b.get_agents();
    println!("{:?}", "here");
    println!("{}", result.len());
    for trader in result.iter() {
        println!("{}", trader.id());
    }
    assert_eq!(result.len(), 2);
    assert_eq!(result[0].forager.position(), positions[0]);
    assert_eq!(result[1].id(), 1);
}

#[test]
fn test_scheduler_event_ordering() {
    // Agent 0 steps first, yet agent 1 still observes it where the tick began.
    let cfg = config(10, 10, 2, 0, 0);
    let mut b = board(&cfg);
    b.init_with_positions(&vec![ClammsInt2D { x: 2, y: 2 }, ClammsInt2D { x: 5, y: 5 }]);
    b.step();
    let hs = b.agent_histories();
    assert_eq!(hs[0].trajectory[0].state.min_steps_to_trader, Some(6));
    assert_eq!(hs[1].trajectory[0].state.min_steps_to_trader, Some(6));
    assert_eq!(hs[0].times, vec![0]);
    assert_eq!(hs[1].times, vec![0]);
}

#[test]
fn test_board_update() {
    // Three agents with no resources around, two of them making inverse offers.
    let mut cfg = config(10, 10, 3, 0, 0);
    cfg.agent.FOOD_CONSUME_RATE = 5;
    cfg.agent.WATER_CONSUME_RATE = 5;
    cfg.agent.FOOD_MAX_INVENTORY = 1000;
    cfg.agent.WATER_MAX_INVENTORY = 1000;
    cfg.trade.MAX_TRADE_DISTANCE = 10;
    let mut b = board(&cfg);
    b.init_with_agents(
        &vec![ClammsInt2D { x: 2, y: 2 }, ClammsInt2D { x: 2, y: 1 }, ClammsInt2D { x: 4, y: 5 }],
        &vec![(0, 100), (100, 0), (0, 0)],
    );
    let inv = |b: &Board, id: u32| {
        let a = b.get_agent_by_id(&id);
        (a.count(&Resource::Food), a.count(&Resource::Water))
    };
    // The initial locations are committed by init, so the agents are visible before any step.
    assert_eq!(inv(&b, 0), (0, 100));
    // First step: no trading on the first tick.
    b.step();
    assert_eq!(inv(&b, 0), (-5, 95));
    assert_eq!(inv(&b, 1), (95, -5));
    assert_eq!(inv(&b, 2), (-5, -5));
    // Second step: agents 0 and 1 swap one lot.
    b.step();
    assert_eq!(inv(&b, 0), (-9, 89));
    assert_eq!(inv(&b, 1), (89, -9));
    assert_eq!(inv(&b, 2), (-10, -10));
}
