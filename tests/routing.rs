use clamms::routing::{find_nearest, min_steps_to, move_towards, move_towards_with, step_distance, step_in_bounds, ClammsInt2D, Direction};
use rand::rngs::StdRng;
use rand::SeedableRng;

fn p(x: i32, y: i32) -> ClammsInt2D {
    ClammsInt2D { x, y }
}

#[test]
fn test_move_towards() {
    let mut rng = StdRng::seed_from_u64(11);
    let target = p(10, 10);

    let pos = p(10, 10);
    assert_eq!(move_towards(&pos, &target, &mut rng), None);

    let pos = p(1, 10);
    assert_eq!(move_towards(&pos, &target, &mut rng), Some(Direction::East));

    let pos = p(11, 10);
    assert_eq!(move_towards(&pos, &target, &mut rng), Some(Direction::West));

    let pos = p(10, 5);
    assert_eq!(move_towards(&pos, &target, &mut rng), Some(Direction::North));

    let pos = p(10, 12);
    assert_eq!(move_towards(&pos, &target, &mut rng), Some(Direction::South));

    let pos = p(4, 8);
    let result = move_towards(&pos, &target, &mut rng);
    assert!(result == Some(Direction::North) || result == Some(Direction::East));

    let pos = p(4, 20);
    let result = move_towards(&pos, &target, &mut rng);
    assert!(result == Some(Direction::South) || result == Some(Direction::East));

    let pos = p(14, 8);
    let result = move_towards(&pos, &target, &mut rng);
    assert!(result == Some(Direction::North) || result == Some(Direction::West));

    let pos = p(11, 18);
    let result = move_towards(&pos, &target, &mut rng);
    assert!(result == Some(Direction::South) || result == Some(Direction::West));
}

#[test]
fn coin_picks_the_axis() {
    assert_eq!(move_towards_with(&p(4, 8), &p(10, 10), true), Some(Direction::East));
    assert_eq!(move_towards_with(&p(4, 8), &p(10, 10), false), Some(Direction::North));
    assert_eq!(move_towards_with(&p(14, 18), &p(10, 10), false), Some(Direction::South));
    assert_eq!(move_towards_with(&p(3, 3), &p(3, 3), true), None);
}

#[test]
fn both_axes_see_both_outcomes() {
    let mut rng = StdRng::seed_from_u64(5);
    let mut east = 0;
    let mut north = 0;
    for _ in 0..200 {
        match move_towards(&p(0, 0), &p(5, 5), &mut rng) {
            Some(Direction::East) => east += 1,
            Some(Direction::North) => north += 1,
            other => panic!("unexpected {:?}", other),
        }
    }
    assert!(east > 0 && north > 0);
}

#[test]
fn distances_and_nearest() {
    assert_eq!(step_distance(&p(0, 0), &p(4, 3)), 7);
    assert_eq!(step_distance(&p(-2, 5), &p(3, -1)), 11);
    let targets = vec![p(9, 9), p(2, 3), p(3, 2), p(0, 0)];
    assert_eq!(find_nearest(&p(2, 2), &targets, None), Some(p(2, 3)));
    assert_eq!(find_nearest(&p(2, 2), &vec![], None), None);
    assert_eq!(min_steps_to(&p(2, 2), &targets), Some(1));
    assert_eq!(min_steps_to(&p(2, 2), &vec![]), None);
    assert_eq!(min_steps_to(&p(i32::MIN, 0), &vec![p(i32::MAX, 0)]), Some(u32::MAX));
}

#[test]
fn sight_horizon_is_straight_line() {
    // (3, 0) is nearest by steps but 3 away in a straight line; (2, 2) is about 2.83 away.
    let targets = vec![p(3, 0), p(2, 2)];
    assert_eq!(find_nearest(&p(0, 0), &targets, Some(2)), None);
    assert_eq!(find_nearest(&p(0, 0), &targets, Some(3)), Some(p(3, 0)));
    assert_eq!(find_nearest(&p(0, 0), &vec![p(4, 3)], Some(5)), Some(p(4, 3)));
    assert_eq!(find_nearest(&p(0, 0), &vec![p(4, 3)], Some(4)), None);
    // The nearest by steps is returned even when only another target is in sight.
    assert_eq!(find_nearest(&p(0, 0), &vec![p(7, 0), p(4, 4)], Some(6)), Some(p(7, 0)));
    assert_eq!(find_nearest(&p(0, 0), &vec![p(7, 0), p(4, 4)], Some(5)), None);
}

#[test]
fn moves_stay_inside_the_edges() {
    assert_eq!(step_in_bounds(&p(1, 1), Direction::West, 10, 10), p(1, 1));
    assert_eq!(step_in_bounds(&p(9, 5), Direction::East, 10, 10), p(9, 5));
    assert_eq!(step_in_bounds(&p(5, 5), Direction::North, 10, 10), p(5, 6));
    assert_eq!(step_in_bounds(&p(5, 1), Direction::South, 10, 10), p(5, 1));
}
