use clamms::action::Action;
use clamms::agent_state::AgentState;
use clamms::history::{History, SAR};
use clamms::reward::Reward;
use clamms::routing::ClammsInt2D;

fn empty_state() -> AgentState {
    AgentState { food: 0, water: 0, min_steps_to_food: None, min_steps_to_water: None, min_steps_to_trader: None }
}

fn get_test_history() -> History {
    History {
        trajectory: vec![SAR::new(empty_state(), Action::Stationary, Reward { val: -1 })],
        positions: vec![ClammsInt2D::new((0, 0))],
        times: vec![0],
        trades: vec![None],
    }
}

#[test]
fn test_history_push() {
    let mut history = get_test_history();
    let sar = SAR::new(empty_state(), Action::Stationary, Reward { val: -1 });
    let sar2 = SAR::new(empty_state(), Action::Stationary, Reward { val: -2 });
    history.push(sar.clone(), 1, ClammsInt2D { x: 1, y: 0 }, None);

    assert_eq!(history.len(), 2);
    assert_eq!(history.trajectory.last().unwrap(), &sar);
    assert_ne!(history.trajectory.last().unwrap(), &sar2);
}

#[test]
fn last_state_action_and_thinning() {
    let mut h = History::new();
    assert_eq!(h.last_state_action(), None);
    for t in 0..7u64 {
        h.push(SAR::new(empty_state(), Action::ToFood, Reward::new(-(t as i32))), t, ClammsInt2D { x: t as i32, y: 0 }, None);
    }
    assert_eq!(h.last_state_action(), Some((empty_state(), Action::ToFood)));
    let s = h.to_skipped_history(3);
    assert_eq!(s.times, vec![0, 3, 6]);
    assert_eq!(s.trajectory.len(), 3);
    assert_eq!(s.positions[1], ClammsInt2D { x: 3, y: 0 });
    assert_eq!(h.to_skipped_history(1).len(), 7);
    assert_eq!(h.to_skipped_history(10).times, vec![0]);
}
