//! The double-buffered field of agent locations, held in krabmaga's
//! `DenseGrid2D`: writes during a tick land in a pending buffer, reads see
//! the buffer as it stood at the start of the tick.
use vstd::prelude::*;
use krabmaga::engine::fields::dense_object_grid_2d::DenseGrid2D;
use krabmaga::engine::fields::field::Field;
use krabmaga::engine::location::Int2D;
use crate::routing::ClammsInt2D;

verus! {

/// krabmaga's `DenseGrid2D`, a grid of object lists with a read and a
/// write buffer; Verus sees it only through the names below.
#[verifier::external_type_specification]
#[verifier::external_body]
#[verifier::reject_recursive_types(O)]
pub struct ExDenseGrid2D<O: Eq + std::hash::Hash + Clone + Copy>(DenseGrid2D<O>);

/// The agent ids in each cell of the read buffer.
pub uninterp spec fn field_read(g: DenseGrid2D<u32>) -> Map<(int, int), Seq<u32>>;

/// The agent ids in each cell of the pending (write) buffer.
pub uninterp spec fn field_write(g: DenseGrid2D<u32>) -> Map<(int, int), Seq<u32>>;

/// The cells of a `width` x `height` grid.
pub open spec fn in_rect(c: (int, int), width: int, height: int) -> bool {
    0 <= c.0 < width && 0 <= c.1 < height
}

/// Every cell of the rectangle, each holding nothing.
pub open spec fn empty_cells(width: int, height: int) -> Map<(int, int), Seq<u32>> {
    Map::new(|c: (int, int)| in_rect(c, width, height), |c: (int, int)| Seq::<u32>::empty())
}

/// The cells of `m`, each holding nothing.
pub open spec fn cleared(m: Map<(int, int), Seq<u32>>) -> Map<(int, int), Seq<u32>> {
    Map::new(|c: (int, int)| m.dom().contains(c), |c: (int, int)| Seq::<u32>::empty())
}

/// The ids of a cell after `id` is placed there: any earlier copy of `id`
/// is dropped and `id` goes last.
pub open spec fn placed(cell: Seq<u32>, id: u32) -> Seq<u32> {
    cell.filter(other_than(id)).push(id)
}

/// The test that an id is not `id`.
pub open spec fn other_than(id: u32) -> spec_fn(u32) -> bool {
    |o: u32| o != id
}

/// Placing `id` in a cell keeps every other agent there and adds `id`.
pub proof fn lemma_placed(cell: Seq<u32>, id: u32, other: u32)
    ensures
        placed(cell, id).contains(id),
        cell.contains(other) && other != id ==> placed(cell, id).contains(other),
{
    let kept = cell.filter(other_than(id));
    assert(placed(cell, id)[kept.len() as int] == id);
    if cell.contains(other) && other != id {
        let k = choose|k: int| 0 <= k < cell.len() && cell[k] == other;
        cell.lemma_filter_contains(other_than(id), k);
        let j = choose|j: int| 0 <= j < kept.len() && kept[j] == other;
        assert(placed(cell, id)[j] == other);
    }
}

/// Placing `id` in a cell brings in no id but `id`.
pub proof fn lemma_placed_rev(cell: Seq<u32>, id: u32, x: u32)
    ensures
        placed(cell, id).contains(x) ==> x == id || cell.contains(x),
{
    let kept = cell.filter(other_than(id));
    if placed(cell, id).contains(x) && x != id {
        let j = choose|j: int| 0 <= j < placed(cell, id).len() && placed(cell, id)[j] == x;
        assert(j < kept.len());
        assert(kept[j] == x);
        assert(kept.contains(x));
        cell.lemma_filter_contains_rev(other_than(id), x);
    }
}

pub open spec fn key(loc: ClammsInt2D) -> (int, int) {
    (loc.x as int, loc.y as int)
}

/// Relies on krabmaga's `DenseGrid2D::new`: both buffers hold every cell of
/// the rectangle, empty.
#[verifier::external_body]
pub(crate) fn field_new(width: i32, height: i32) -> (g: DenseGrid2D<u32>)
    requires
        0 < width,
        0 < height,
        width * height <= i32::MAX,
    ensures
        field_read(g) == empty_cells(width as int, height as int),
        field_write(g) == empty_cells(width as int, height as int),
{
    DenseGrid2D::new(width, height)
}

/// Relies on krabmaga's `DenseGrid2D::set_object_location`: the pending
/// buffer's cell drops any copy of `id` and takes `id` last; the read buffer
/// is untouched.
#[verifier::external_body]
pub(crate) fn field_set(g: &mut DenseGrid2D<u32>, id: u32, loc: ClammsInt2D)
    requires
        field_write(*old(g)).dom().contains(key(loc)),
    ensures
        field_read(*final(g)) == field_read(*old(g)),
        field_write(*final(g)) == field_write(*old(g)).insert(
            key(loc),
            placed(field_write(*old(g))[key(loc)], id),
        ),
{
    g.set_object_location(id, &Int2D { x: loc.x, y: loc.y })
}

/// Relies on krabmaga's `DenseGrid2D::get_objects`: the ids in a cell of the
/// read buffer, or `None` where it is empty.
#[verifier::external_body]
pub(crate) fn field_get(g: &DenseGrid2D<u32>, loc: ClammsInt2D) -> (r: Option<Vec<u32>>)
    requires
        field_read(*g).dom().contains(key(loc)),
    ensures
        r is None <==> field_read(*g)[key(loc)].len() == 0,
        r matches Some(v) ==> v@ == field_read(*g)[key(loc)],
{
    g.get_objects(&Int2D { x: loc.x, y: loc.y })
}

/// Relies on krabmaga's `Field::lazy_update` for `DenseGrid2D`: the buffers
/// swap, so the pending writes become readable, and the new pending buffer
/// is cleared.
#[verifier::external_body]
pub(crate) fn field_commit(g: &mut DenseGrid2D<u32>)
    ensures
        field_read(*final(g)) == field_write(*old(g)),
        field_write(*final(g)) == cleared(field_read(*old(g))),
{
    g.lazy_update()
}

/// Whether a cell of the read buffer holds some agent other than `me`.
pub open spec fn others_in(cell: Seq<u32>, me: u32) -> bool {
    exists|k: int| 0 <= k < cell.len() && cell[k] != me
}

/// Whether `v` holds an agent other than `me`.
fn holds_other(v: &Vec<u32>, me: u32) -> (r: bool)
    ensures
        r == others_in(v@, me),
{
    let mut i: usize = 0;
    while i < v.len()
        invariant
            0 <= i <= v@.len(),
            forall|k: int| 0 <= k < i ==> v@[k] == me,
        decreases v@.len() - i,
    {
        if v[i] != me {
            return true;
        }
        i += 1;
    }
    false
}

/// The cells of the read buffer that hold an agent other than `me`, scanned
/// column by column.
pub fn cells_with_others(g: &DenseGrid2D<u32>, width: u16, height: u16, me: u32) -> (r: Vec<
    ClammsInt2D,
>)
    requires
        forall|c: (int, int)|
            #[trigger] field_read(*g).dom().contains(c) <==> in_rect(c, width as int, height as int),
    ensures
        forall|k: int|
            0 <= k < r@.len() ==> in_rect(key(r@[k]), width as int, height as int) && others_in(
                field_read(*g)[key(r@[k])],
                me,
            ),
        forall|c: (int, int)|
            in_rect(c, width as int, height as int) && others_in(#[trigger] field_read(*g)[c], me)
                ==> exists|k: int| 0 <= k < r@.len() && key(r@[k]) == c,
{
    let ghost m = field_read(*g);
    let mut out: Vec<ClammsInt2D> = Vec::new();
    let mut x: u16 = 0;
    while x < width
        invariant
            m == field_read(*g),
            forall|c: (int, int)| #[trigger] m.dom().contains(c) <==> in_rect(c, width as int, height as int),
            0 <= x <= width,
            forall|k: int|
                0 <= k < out@.len() ==> in_rect(key(out@[k]), width as int, height as int)
                    && others_in(m[key(out@[k])], me),
            forall|c: (int, int)|
                in_rect(c, width as int, height as int) && c.0 < x && others_in(#[trigger] m[c], me)
                    ==> exists|k: int| 0 <= k < out@.len() && key(out@[k]) == c,
        decreases width - x,
    {
        let mut y: u16 = 0;
        while y < height
            invariant
                m == field_read(*g),
                forall|c: (int, int)| #[trigger] m.dom().contains(c) <==> in_rect(c, width as int, height as int),
                0 <= x < width,
                0 <= y <= height,
                forall|k: int|
                    0 <= k < out@.len() ==> in_rect(key(out@[k]), width as int, height as int)
                        && others_in(m[key(out@[k])], me),
                forall|c: (int, int)|
                    in_rect(c, width as int, height as int) && (c.0 < x || (c.0 == x && c.1 < y))
                        && others_in(#[trigger] m[c], me) ==> exists|k: int|
                        0 <= k < out@.len() && key(out@[k]) == c,
            decreases height - y,
        {
            let loc = ClammsInt2D { x: x as i32, y: y as i32 };
            assert(m.dom().contains(key(loc)));
            let ghost before = out@;
            match field_get(g, loc) {
                None => {},
                Some(ids) => {
                    if holds_other(&ids, me) {
                        out.push(loc);
                    }
                },
            }
            assert forall|c: (int, int)|
                in_rect(c, width as int, height as int) && (c.0 < x || (c.0 == x && c.1 < y + 1))
                    && others_in(#[trigger] m[c], me) implies exists|k: int|
                    0 <= k < out@.len() && key(out@[k]) == c by {
                if c == key(loc) {
                    assert(key(out@[out@.len() - 1]) == c);
                } else {
                    let k = choose|k: int| 0 <= k < before.len() && key(before[k]) == c;
                    assert(key(out@[k]) == c);
                }
            }
            y += 1;
        }
        x += 1;
    }
    out
}

} // verus!
