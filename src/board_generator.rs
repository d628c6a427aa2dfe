//! Resource layouts made by rule rather than read from a map.
use vstd::prelude::*;
use crate::random::{draw_between, rng_from_seed};
use crate::routing::ClammsInt2D;

verus! {

/// Food and water locations of a layout.
#[derive(Clone, Debug)]
pub struct ResourceLocations {
    pub food: Vec<ClammsInt2D>,
    pub water: Vec<ClammsInt2D>,
}

/// The cells (`x`, `y`) for `y` from `y0` up to `y1`, in order.
pub open spec fn row(x: int, y0: int, y1: int) -> Seq<ClammsInt2D> {
    Seq::new(
        (if y1 > y0 { y1 - y0 } else { 0 }) as nat,
        |k: int| ClammsInt2D { x: x as i32, y: (y0 + k) as i32 },
    )
}

/// The rows from `x0` up to `x1` of the columns `y0` up to `y1`.
pub open spec fn block(x0: int, x1: int, y0: int, y1: int) -> Seq<ClammsInt2D>
    decreases x1 - x0,
{
    if x1 <= x0 {
        Seq::empty()
    } else {
        block(x0, x1 - 1, y0, y1) + row(x1 - 1, y0, y1)
    }
}

/// A layout with a square of water and a square of food at given corners.
/// The water rows run from `water_loc.x` up to `water_size`; the food
/// square spans `food_size` rows and columns from `food_loc`.
#[derive(Clone, Copy, Debug)]
pub struct CornerBoard {
    pub water_loc: ClammsInt2D,
    pub food_loc: ClammsInt2D,
    pub water_size: i32,
    pub food_size: i32,
    pub dim: (usize, usize),
}

/// Pushes the cells of `block(x0, x1, y0, y1)` onto `out`.
fn push_block(out: &mut Vec<ClammsInt2D>, x0: i32, x1: i32, y0: i32, y1: i32)
    ensures
        final(out)@ == old(out)@ + block(x0 as int, x1 as int, y0 as int, y1 as int),
{
    let ghost start = out@;
    let mut x = x0;
    if x1 <= x0 {
        assert(block(x0 as int, x1 as int, y0 as int, y1 as int) =~= Seq::<ClammsInt2D>::empty());
        assert(out@ =~= start + Seq::<ClammsInt2D>::empty());
        return;
    }
    assert(block(x0 as int, x0 as int, y0 as int, y1 as int) =~= Seq::<ClammsInt2D>::empty());
    assert(out@ =~= start + block(x0 as int, x0 as int, y0 as int, y1 as int));
    while x < x1
        invariant
            x0 <= x <= x1,
            out@ == start + block(x0 as int, x as int, y0 as int, y1 as int),
        decreases x1 - x,
    {
        let ghost mid = out@;
        let mut y = y0;
        assert(row(x as int, y0 as int, y0 as int) =~= Seq::<ClammsInt2D>::empty());
        assert(out@ =~= mid + row(x as int, y0 as int, y as int));
        while y < y1
            invariant
                y0 <= y <= y1 || (y1 < y0 && y == y0),
                x0 <= x < x1,
                out@ == mid + row(x as int, y0 as int, y as int),
            decreases y1 - y,
        {
            out.push(ClammsInt2D { x, y });
            y += 1;
            assert(out@ =~= mid + row(x as int, y0 as int, y as int));
        }
        if y1 <= y0 {
            assert(row(x as int, y0 as int, y1 as int) =~= Seq::<ClammsInt2D>::empty());
            assert(row(x as int, y0 as int, y as int) =~= row(x as int, y0 as int, y1 as int));
        }
        x += 1;
        assert(out@ =~= start + block(x0 as int, x as int, y0 as int, y1 as int));
    }
}

impl CornerBoard {
    pub fn generate(&self) -> (r: ResourceLocations)
        requires
            self.dim.0 <= i32::MAX,
            self.dim.1 <= i32::MAX,
            self.water_loc.x + self.water_size < self.dim.0,
            self.water_loc.y + self.water_size < self.dim.1,
            self.food_loc.x + self.food_size < self.dim.0,
            self.food_loc.y + self.food_size < self.dim.1,
            i32::MIN <= self.water_loc.y + self.water_size,
            i32::MIN <= self.food_loc.x + self.food_size,
            i32::MIN <= self.food_loc.y + self.food_size,
        ensures
            r.water@ == block(
                self.water_loc.x as int,
                self.water_size as int,
                self.water_loc.y as int,
                self.water_loc.y + self.water_size,
            ),
            r.food@ == block(
                self.food_loc.x as int,
                self.food_loc.x + self.food_size,
                self.food_loc.y as int,
                self.food_loc.y + self.food_size,
            ),
    {
        let mut water: Vec<ClammsInt2D> = Vec::new();
        push_block(
            &mut water,
            self.water_loc.x,
            self.water_size,
            self.water_loc.y,
            self.water_loc.y + self.water_size,
        );
        let mut food: Vec<ClammsInt2D> = Vec::new();
        push_block(
            &mut food,
            self.food_loc.x,
            self.food_loc.x + self.food_size,
            self.food_loc.y,
            self.food_loc.y + self.food_size,
        );
        assert(water@ =~= block(
            self.water_loc.x as int,
            self.water_size as int,
            self.water_loc.y as int,
            self.water_loc.y + self.water_size,
        ));
        assert(food@ =~= block(
            self.food_loc.x as int,
            self.food_loc.x + self.food_size,
            self.food_loc.y as int,
            self.food_loc.y + self.food_size,
        ));
        ResourceLocations { food, water }
    }
}

/// The sum of the first `j` steps: how far the river has drifted by row `j + 1`.
pub open spec fn drift(steps: Seq<int>, j: int) -> int
    decreases j,
{
    if j <= 0 {
        0
    } else {
        drift(steps, j - 1) + steps[j - 1]
    }
}

/// The cells of a river: for row `y` from 1 up to `rows`, the columns
/// `c_lo` to `c_hi` shifted by the drift of that row.
pub open spec fn river_cells(c_lo: int, c_hi: int, rows: int, steps: Seq<int>) -> Seq<ClammsInt2D>
    decreases rows,
{
    if rows <= 1 {
        Seq::empty()
    } else {
        river_cells(c_lo, c_hi, rows - 1, steps) + Seq::new(
            (if c_hi >= c_lo { c_hi - c_lo + 1 } else { 0 }) as nat,
            |k: int| ClammsInt2D { x: (c_lo + k + drift(steps, rows - 1)) as i32, y: (rows - 1) as i32 },
        )
    }
}

/// The views of a list of drift steps.
pub open spec fn step_values(v: Seq<i32>) -> Seq<int> {
    Seq::new(v.len(), |i: int| v[i] as int)
}

proof fn lemma_drift_bound(steps: Seq<int>, j: int, m: int)
    requires
        0 <= j <= steps.len(),
        m >= 0,
        forall|k: int| 0 <= k < steps.len() ==> -m <= #[trigger] steps[k] <= m,
    ensures
        -(j * m) <= drift(steps, j) <= j * m,
    decreases j,
{
    if j > 0 {
        lemma_drift_bound(steps, j - 1, m);
        assert((j - 1) * m + m == j * m) by (nonlinear_arith);
    }
}

/// The cells of a river whose rows drift by `steps` (row `y` uses the first
/// `y` steps), with columns `c_lo` to `c_hi` before drifting.
pub fn river(c_lo: i32, c_hi: i32, rows: i32, steps: &Vec<i32>, max_step: i32) -> (r: Vec<ClammsInt2D>)
    requires
        rows >= 1,
        steps@.len() == rows - 1,
        0 <= max_step <= 0x2000,
        forall|k: int| 0 <= k < steps@.len() ==> -max_step <= #[trigger] steps@[k] <= max_step,
        -0x2000_0000 <= c_lo,
        c_hi <= 0x2000_0000,
        rows <= 0x1_0000,
    ensures
        r@ == river_cells(c_lo as int, c_hi as int, rows as int, step_values(steps@)),
{
    let ghost sv = step_values(steps@);
    let mut out: Vec<ClammsInt2D> = Vec::new();
    let mut offset: i32 = 0;
    let mut y: i32 = 1;
    assert(out@ =~= river_cells(c_lo as int, c_hi as int, 1, sv));
    while y < rows
        invariant
            1 <= y <= rows,
            rows <= 0x1_0000,
            steps@.len() == rows - 1,
            sv == step_values(steps@),
            0 <= max_step <= 0x2000,
            forall|k: int| 0 <= k < steps@.len() ==> -max_step <= #[trigger] steps@[k] <= max_step,
            -0x2000_0000 <= c_lo,
            c_hi <= 0x2000_0000,
            offset == drift(sv, y - 1),
            out@ == river_cells(c_lo as int, c_hi as int, y as int, sv),
        decreases rows - y,
    {
        proof {
            assert forall|k: int| 0 <= k < sv.len() implies -max_step <= #[trigger] sv[k] <= max_step by {
                assert(sv[k] == steps@[k]);
            }
            lemma_drift_bound(sv, y as int, max_step as int);
            assert(y * max_step <= 0x1_0000 * 0x2000) by (nonlinear_arith)
                requires y <= 0x1_0000, 0 <= max_step <= 0x2000;
        }
        offset = offset + steps[(y - 1) as usize];
        let ghost mid = out@;
        let mut c: i32 = c_lo;
        while c <= c_hi
            invariant
                c_lo <= c <= c_hi + 1 || (c_hi < c_lo && c == c_lo),
                -0x2000_0000 <= c_lo,
                c_hi <= 0x2000_0000,
                -0x2000_0000 <= offset <= 0x2000_0000,
                offset == drift(sv, y as int),
                1 <= y < rows,
                out@ == mid + Seq::new(
                    (c - c_lo) as nat,
                    |k: int| ClammsInt2D { x: (c_lo + k + drift(sv, y as int)) as i32, y: y as i32 },
                ),
            decreases c_hi + 1 - c,
        {
            out.push(ClammsInt2D { x: c + offset, y });
            c = c + 1;
            assert(out@ =~= mid + Seq::new(
                (c - c_lo) as nat,
                |k: int| ClammsInt2D { x: (c_lo + k + drift(sv, y as int)) as i32, y: y as i32 },
            ));
        }
        y = y + 1;
        assert(out@ =~= river_cells(c_lo as int, c_hi as int, y as int, sv));
    }
    out
}

/// `n` draws from `lo..=hi`, made in order from `rng`.
fn draws(rng: &mut rand::rngs::StdRng, n: i32, lo: i32, hi: i32) -> (r: Vec<i32>)
    requires
        lo <= hi,
        n >= 0,
    ensures
        r@.len() == n,
        forall|k: int| 0 <= k < r@.len() ==> lo <= #[trigger] r@[k] <= hi,
{
    let mut v: Vec<i32> = Vec::new();
    let mut k: i32 = 0;
    while k < n
        invariant
            lo <= hi,
            0 <= k <= n,
            v@.len() == k,
            forall|j: int| 0 <= j < v@.len() ==> lo <= #[trigger] v@[j] <= hi,
        decreases n - k,
    {
        v.push(draw_between(rng, lo, hi));
        k += 1;
    }
    v
}

/// A layout with a 6 x 6 block of food in the corner and a five-cell-wide
/// river that wanders by up to two cells per row, drawn from seed 1.
pub fn example_board(dim: (u16, u16)) -> (r: ResourceLocations)
    requires
        dim.0 >= 4,
        dim.1 >= 1,
    ensures
        r.food@ == block(1, 7, 1, 7),
        exists|steps: Seq<int>|
            steps.len() == dim.1 - 1 && (forall|k: int| 0 <= k < steps.len() ==> -2 <= #[trigger] steps[k] <= 2)
                && r.water@ == river_cells(dim.0 as int / 2 - 4, dim.0 as int / 2, dim.1 as int, steps),
{
    let mut food: Vec<ClammsInt2D> = Vec::new();
    push_block(&mut food, 1, 7, 1, 7);
    assert(food@ =~= block(1, 7, 1, 7));
    let mut rng = rng_from_seed(1);
    let steps = draws(&mut rng, dim.1 as i32 - 1, -2, 2);
    let half: i32 = (dim.0 / 2) as i32;
    let water = river(half - 4, half, dim.1 as i32, &steps, 2);
    proof {
        let sv = step_values(steps@);
        assert forall|k: int| 0 <= k < sv.len() implies -2 <= #[trigger] sv[k] <= 2 by {
            assert(sv[k] == steps@[k]);
        }
        assert(sv.len() == dim.1 - 1 && (forall|k: int| 0 <= k < sv.len() ==> -2 <= #[trigger] sv[k] <= 2)
            && water@ == river_cells(dim.0 as int / 2 - 4, dim.0 as int / 2, dim.1 as int, sv));
    }
    ResourceLocations { food, water }
}

/// A layout with a square of food and a river down the middle whose rows
/// drift by up to half its width, drawn from seed 1. The food rows run
/// from `food_loc.x` up to `food_size`.
#[derive(Clone, Copy, Debug)]
pub struct RiverBoard {
    pub water_loc: ClammsInt2D,
    pub food_loc: ClammsInt2D,
    pub water_size: i32,
    pub food_size: i32,
    pub dim: (usize, usize),
}

impl RiverBoard {
    pub fn generate(&self) -> (r: ResourceLocations)
        requires
            1 <= self.dim.0 <= 0x4000_0000,
            1 <= self.dim.1 <= 0x1_0000,
            0 <= self.water_size <= 0x4000,
            self.water_size <= self.dim.0 / 2,
            self.food_loc.x + self.food_size < self.dim.0,
            self.food_loc.y + self.food_size < self.dim.1,
            i32::MIN <= self.food_loc.y + self.food_size,
        ensures
            r.food@ == block(
                self.food_loc.x as int,
                self.food_size as int,
                self.food_loc.y as int,
                self.food_loc.y + self.food_size,
            ),
            exists|steps: Seq<int>|
                steps.len() == self.dim.1 - 1 && (forall|k: int|
                    0 <= k < steps.len() ==> -(self.water_size / 2) <= #[trigger] steps[k] <= self.water_size / 2)
                    && r.water@ == river_cells(
                    -self.water_size as int,
                    self.water_size as int,
                    self.dim.1 as int,
                    steps,
                ),
    {
        let mut food: Vec<ClammsInt2D> = Vec::new();
        push_block(&mut food, self.food_loc.x, self.food_size, self.food_loc.y, self.food_loc.y + self.food_size);
        assert(food@ =~= block(
            self.food_loc.x as int,
            self.food_size as int,
            self.food_loc.y as int,
            self.food_loc.y + self.food_size,
        ));
        let mut rng = rng_from_seed(1);
        let m = self.water_size / 2;
        let steps = draws(&mut rng, self.dim.1 as i32 - 1, -m, m);
        let water = river(-self.water_size, self.water_size, self.dim.1 as i32, &steps, m);
        proof {
            let sv = step_values(steps@);
            assert forall|k: int| 0 <= k < sv.len() implies -m <= #[trigger] sv[k] <= m by {
                assert(sv[k] == steps@[k]);
            }
            assert(sv.len() == self.dim.1 - 1 && (forall|k: int|
                0 <= k < sv.len() ==> -(self.water_size / 2) <= #[trigger] sv[k] <= self.water_size / 2)
                && water@ == river_cells(-self.water_size as int, self.water_size as int, self.dim.1 as int, sv));
        }
        ResourceLocations { food, water }
    }
}

} // verus!
