//! Grid positions, distances, nearest-target search and the choice of a
//! direction towards a target.
use vstd::prelude::*;
use rand::rngs::StdRng;
use crate::random::{coin_flip, draw_below};

verus! {

/// A grid coordinate.
#[derive(Clone, Copy, Hash, PartialEq, Eq, Structural, PartialOrd, Ord, Debug)]
pub struct ClammsInt2D {
    pub x: i32,
    pub y: i32,
}

impl ClammsInt2D {
    pub fn new(xy: (i32, i32)) -> (r: ClammsInt2D)
        ensures
            r.x == xy.0 && r.y == xy.1,
    {
        ClammsInt2D { x: xy.0, y: xy.1 }
    }
}

/// Direction of movement: North raises y, East raises x.
#[derive(Debug, PartialEq, Eq, Structural, Clone, Copy)]
pub enum Direction {
    North,
    East,
    South,
    West,
}

pub open spec fn abs(v: int) -> int {
    if v < 0 { -v } else { v }
}

/// The number of unit steps from `a` to `b`.
pub open spec fn manhattan(a: ClammsInt2D, b: ClammsInt2D) -> int {
    abs(a.x - b.x) + abs(a.y - b.y)
}

/// A step count as it is reported, saturated at `u32::MAX`.
pub open spec fn capped(d: int) -> int {
    if d > u32::MAX { u32::MAX as int } else { d }
}

/// Whether `t` lies within the straight-line sight `horizon` of `p`, if one is given.
pub open spec fn in_sight(p: ClammsInt2D, t: ClammsInt2D, horizon: Option<u32>) -> bool {
    match horizon {
        None => true,
        Some(h) => (p.x - t.x) * (p.x - t.x) + (p.y - t.y) * (p.y - t.y) <= h * h,
    }
}

/// Computes the number of steps to move from a to b.
pub fn step_distance(a: &ClammsInt2D, b: &ClammsInt2D) -> (r: u64)
    ensures
        r == manhattan(*a, *b),
{
    let dx: i64 = a.x as i64 - b.x as i64;
    let dy: i64 = a.y as i64 - b.y as i64;
    let ax: i64 = if dx < 0 { -dx } else { dx };
    let ay: i64 = if dy < 0 { -dy } else { dy };
    (ax + ay) as u64
}

/// Whether `t` is within the sight horizon of `p`, compared without roots.
pub fn within_sight(p: &ClammsInt2D, t: &ClammsInt2D, horizon: Option<u32>) -> (r: bool)
    ensures
        r == in_sight(*p, *t, horizon),
{
    match horizon {
        None => true,
        Some(h) => {
            let dx: i128 = p.x as i128 - t.x as i128;
            let dy: i128 = p.y as i128 - t.y as i128;
            let hh: i128 = h as i128;
            proof {
                assert(0 <= dx * dx <= 0x1_0000_0000i128 * 0x1_0000_0000i128) by (nonlinear_arith)
                    requires -0x1_0000_0000i128 <= dx <= 0x1_0000_0000i128;
                assert(0 <= dy * dy <= 0x1_0000_0000i128 * 0x1_0000_0000i128) by (nonlinear_arith)
                    requires -0x1_0000_0000i128 <= dy <= 0x1_0000_0000i128;
                assert(0 <= hh * hh <= 0x1_0000_0000i128 * 0x1_0000_0000i128) by (nonlinear_arith)
                    requires 0 <= hh <= 0x1_0000_0000i128;
            }
            dx * dx + dy * dy <= hh * hh
        },
    }
}

/// The index of the first target nearest to `p` among those in sight, if any.
pub open spec fn is_nearest_index(
    p: ClammsInt2D,
    targets: Seq<ClammsInt2D>,
    horizon: Option<u32>,
    k: int,
) -> bool {
    &&& 0 <= k < targets.len()
    &&& in_sight(p, targets[k], horizon)
    &&& forall|j: int|
        0 <= j < targets.len() && in_sight(p, targets[j], horizon) ==> manhattan(p, targets[k])
            <= manhattan(p, targets[j])
    &&& forall|j: int|
        0 <= j < k && in_sight(p, targets[j], horizon) ==> manhattan(p, targets[k]) < manhattan(
            p,
            targets[j],
        )
}

/// Finds the target nearest to `p` by steps (the first one on ties), or
/// `None` when there is no target or none lies within the sight horizon.
pub fn find_nearest(p: &ClammsInt2D, targets: &Vec<ClammsInt2D>, horizon: Option<u32>) -> (r:
    Option<ClammsInt2D>)
    ensures
        r is None <==> forall|j: int|
            0 <= j < targets@.len() ==> !in_sight(*p, targets@[j], horizon),
        r matches Some(t) ==> exists|k: int|
            is_nearest_index(*p, targets@, None, k) && targets@[k] == t,
{
    let mut best: usize = 0;
    let mut best_d: u64 = 0;
    let mut seen_in_sight = false;
    let mut i: usize = 0;
    while i < targets.len()
        invariant
            0 <= i <= targets@.len(),
            !seen_in_sight <==> forall|j: int| 0 <= j < i ==> !in_sight(*p, targets@[j], horizon),
            i > 0 ==> {
                &&& best < i
                &&& best_d == manhattan(*p, targets@[best as int])
                &&& forall|j: int| 0 <= j < i ==> best_d <= manhattan(*p, targets@[j])
                &&& forall|j: int| 0 <= j < best ==> best_d < manhattan(*p, targets@[j])
            },
        decreases targets@.len() - i,
    {
        if within_sight(p, &targets[i], horizon) {
            seen_in_sight = true;
        }
        let d = step_distance(p, &targets[i]);
        if i == 0 || d < best_d {
            best = i;
            best_d = d;
        }
        i += 1;
    }
    if !seen_in_sight {
        None
    } else {
        assert(is_nearest_index(*p, targets@, None, best as int));
        Some(targets[best])
    }
}

/// The smallest reported step count from `p` to any of `t`, or `None` for none.
pub open spec fn nearest_steps(p: ClammsInt2D, t: Seq<ClammsInt2D>) -> Option<u32>
    decreases t.len(),
{
    if t.len() == 0 {
        None
    } else {
        let d = capped(manhattan(p, t.last())) as u32;
        match nearest_steps(p, t.drop_last()) {
            None => Some(d),
            Some(b) => if d < b { Some(d) } else { Some(b) },
        }
    }
}

/// The smallest reported step count from `p` to any target, or `None` for no targets.
pub fn min_steps_to(p: &ClammsInt2D, targets: &Vec<ClammsInt2D>) -> (r: Option<u32>)
    ensures
        r == nearest_steps(*p, targets@),
        r is None <==> targets@.len() == 0,
        r matches Some(d) ==> {
            &&& exists|k: int| 0 <= k < targets@.len() && d == capped(manhattan(*p, targets@[k]))
            &&& forall|k: int| 0 <= k < targets@.len() ==> d <= capped(manhattan(*p, targets@[k]))
        },
{
    let mut best: Option<u32> = None;
    let mut i: usize = 0;
    while i < targets.len()
        invariant
            0 <= i <= targets@.len(),
            best is None <==> i == 0,
            best == nearest_steps(*p, targets@.subrange(0, i as int)),
            best matches Some(d) ==> {
                &&& exists|k: int| 0 <= k < i && d == capped(manhattan(*p, targets@[k]))
                &&& forall|k: int| 0 <= k < i ==> d <= capped(manhattan(*p, targets@[k]))
            },
        decreases targets@.len() - i,
    {
        assert(targets@.subrange(0, i + 1).drop_last() =~= targets@.subrange(0, i as int));
        let raw = step_distance(p, &targets[i]);
        let d: u32 = if raw > u32::MAX as u64 { u32::MAX } else { raw as u32 };
        match best {
            None => {
                best = Some(d);
            },
            Some(b) => {
                if d < b {
                    best = Some(d);
                }
            },
        }
        i += 1;
    }
    assert(targets@.subrange(0, targets@.len() as int) =~= targets@);
    best
}

/// The direction chosen towards `target`, where `coin` settles the choice
/// between the two axes when both differ (`true` keeps the x axis).
pub open spec fn direction_towards(pos: ClammsInt2D, target: ClammsInt2D, coin: bool) -> Option<
    Direction,
> {
    if pos == target {
        None
    } else if pos.x < target.x {
        if pos.y == target.y || coin {
            Some(Direction::East)
        } else if pos.y < target.y {
            Some(Direction::North)
        } else {
            Some(Direction::South)
        }
    } else if pos.x > target.x {
        if pos.y == target.y || coin {
            Some(Direction::West)
        } else if pos.y < target.y {
            Some(Direction::North)
        } else {
            Some(Direction::South)
        }
    } else if pos.y < target.y {
        Some(Direction::North)
    } else {
        Some(Direction::South)
    }
}

/// Decides a direction towards a target, given the outcome of the coin.
pub fn move_towards_with(pos: &ClammsInt2D, target: &ClammsInt2D, coin: bool) -> (r: Option<
    Direction,
>)
    ensures
        r == direction_towards(*pos, *target, coin),
{
    if pos.x == target.x && pos.y == target.y {
        return None;
    }
    if pos.x < target.x {
        if pos.y == target.y || coin {
            return Some(Direction::East);
        }
        if pos.y < target.y {
            return Some(Direction::North);
        } else {
            return Some(Direction::South);
        }
    }
    if pos.x > target.x {
        if pos.y == target.y || coin {
            return Some(Direction::West);
        }
        if pos.y < target.y {
            return Some(Direction::North);
        } else {
            return Some(Direction::South);
        }
    }
    if pos.y < target.y {
        Some(Direction::North)
    } else {
        Some(Direction::South)
    }
}

/// Decides an appropriate direction to move towards a target; a fair coin
/// is flipped only when both axes differ.
pub fn move_towards(pos: &ClammsInt2D, target: &ClammsInt2D, rng: &mut StdRng) -> (r: Option<
    Direction,
>)
    ensures
        r == direction_towards(*pos, *target, true) || r == direction_towards(
            *pos,
            *target,
            false,
        ),
        (pos.x == target.x || pos.y == target.y) ==> r == direction_towards(*pos, *target, false),
        (pos.x == target.x || pos.y == target.y) ==> *final(rng) == *old(rng),
{
    let coin = if pos.x != target.x && pos.y != target.y {
        coin_flip(rng)
    } else {
        false
    };
    move_towards_with(pos, target, coin)
}

/// A direction for an index drawn below four.
pub open spec fn direction_of(k: int) -> Direction {
    if k == 0 {
        Direction::North
    } else if k == 1 {
        Direction::East
    } else if k == 2 {
        Direction::South
    } else {
        Direction::West
    }
}

/// A uniformly random direction.
pub fn random_direction(rng: &mut StdRng) -> (r: Direction)
    ensures
        exists|k: int| 0 <= k < 4 && r == direction_of(k),
{
    let k = draw_below(rng, 4);
    let d = if k == 0 {
        Direction::North
    } else if k == 1 {
        Direction::East
    } else if k == 2 {
        Direction::South
    } else {
        Direction::West
    };
    assert(d == direction_of(k as int));
    d
}

/// Moving towards one's own position gives no direction; a target due east
/// gives East whatever the coin; when both axes differ the result is one of
/// the two directions that close in on the target.
pub proof fn lemma_move_towards(p: ClammsInt2D, target: ClammsInt2D, coin: bool)
    ensures
        direction_towards(p, p, coin) is None,
        target.x > p.x && target.y == p.y ==> direction_towards(p, target, coin) == Some(
            Direction::East,
        ),
        target.x != p.x && target.y != p.y ==> {
            let d = direction_towards(p, target, coin);
            &&& d is Some
            &&& d == Some(if target.x > p.x { Direction::East } else { Direction::West }) || d
                == Some(if target.y > p.y { Direction::North } else { Direction::South })
        },
{
}

/// `pos` moved one step in `dir`, then clamped to `[1, width - 1] x [1, height - 1]`.
pub open spec fn moved_clamped(pos: ClammsInt2D, dir: Direction, width: int, height: int) -> (
    int,
    int,
) {
    let (x, y) = match dir {
        Direction::North => (pos.x as int, pos.y + 1),
        Direction::East => (pos.x + 1, pos.y as int),
        Direction::South => (pos.x as int, pos.y - 1),
        Direction::West => (pos.x - 1, pos.y as int),
    };
    (clamp(x, 1, width - 1), clamp(y, 1, height - 1))
}

pub open spec fn clamp(v: int, lo: int, hi: int) -> int {
    if v < lo { lo } else if v > hi { hi } else { v }
}

/// Moves one step in `dir` and keeps the position inside the board edges.
pub fn step_in_bounds(pos: &ClammsInt2D, dir: Direction, width: u16, height: u16) -> (r: ClammsInt2D)
    requires
        width >= 2,
        height >= 2,
    ensures
        (r.x as int, r.y as int) == moved_clamped(*pos, dir, width as int, height as int),
{
    let (x, y): (i64, i64) = match dir {
        Direction::North => (pos.x as i64, pos.y as i64 + 1),
        Direction::East => (pos.x as i64 + 1, pos.y as i64),
        Direction::South => (pos.x as i64, pos.y as i64 - 1),
        Direction::West => (pos.x as i64 - 1, pos.y as i64),
    };
    let wmax: i64 = width as i64 - 1;
    let hmax: i64 = height as i64 - 1;
    let cx: i64 = if x < 1 { 1 } else if x > wmax { wmax } else { x };
    let cy: i64 = if y < 1 { 1 } else if y > hmax { hmax } else { y };
    ClammsInt2D { x: cx as i32, y: cy as i32 }
}

} // verus!
