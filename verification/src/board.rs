//! The grid and its bombs: how cells are indexed, how a random layout is drawn
//! and how many bombs touch each cell.

use crate::error::GameError;
use crate::rng::{random_seed, seeded_rng, shuffle_layout};
use rand::rngs::StdRng;
use vstd::prelude::*;

verus! {

/// Whether `(x, y)` names a cell of a `width` by `height` grid.
pub open spec fn in_grid(width: int, height: int, x: int, y: int) -> bool {
    0 <= x < width && 0 <= y < height
}

/// The position of cell `(x, y)` in the row-major cell sequence.
pub open spec fn cell_index(width: int, x: int, y: int) -> int {
    y * width + x
}

/// Every cell of the grid has an index below `width * height`.
pub proof fn lemma_cell_index_in_range(width: int, height: int, x: int, y: int)
    requires
        in_grid(width, height, x, y),
    ensures
        0 <= cell_index(width, x, y) < width * height,
{
    assert(y * width >= 0) by (nonlinear_arith)
        requires
            y >= 0,
            width > 0,
    ;
    assert((y + 1) * width <= height * width) by (nonlinear_arith)
        requires
            y + 1 <= height,
            width > 0,
    ;
    assert((y + 1) * width == y * width + width) by (nonlinear_arith);
    assert(height * width == width * height) by (nonlinear_arith);
}

/// Two cells of the grid with the same index are the same cell: the index is
/// a one-to-one encoding of the coordinate pair.
pub proof fn lemma_cell_index_injective(width: int, x1: int, y1: int, x2: int, y2: int)
    requires
        0 <= x1 < width,
        0 <= x2 < width,
        cell_index(width, x1, y1) == cell_index(width, x2, y2),
    ensures
        x1 == x2,
        y1 == y2,
{
    if y1 < y2 {
        assert((y2 - y1) * width >= width) by (nonlinear_arith)
            requires
                y2 - y1 >= 1,
                width > 0,
        ;
        assert((y2 - y1) * width == y2 * width - y1 * width) by (nonlinear_arith);
    } else if y2 < y1 {
        assert((y1 - y2) * width >= width) by (nonlinear_arith)
            requires
                y1 - y2 >= 1,
                width > 0,
        ;
        assert((y1 - y2) * width == y1 * width - y2 * width) by (nonlinear_arith);
    }
}

/// Whether `(x, y)` is a cell of the grid that holds a bomb in `layout`.
pub open spec fn bomb_at(width: int, height: int, layout: Seq<bool>, x: int, y: int) -> bool {
    in_grid(width, height, x, y) && layout[cell_index(width, x, y)]
}

/// What `(x, y)` adds to a count of bombs: one for a bomb inside the grid,
/// nothing for a free cell or a coordinate off the grid.
pub open spec fn bomb_weight(width: int, height: int, layout: Seq<bool>, x: int, y: int) -> int {
    if bomb_at(width, height, layout, x, y) {
        1
    } else {
        0
    }
}

/// The number of bombs among the up to eight cells that touch `(x, y)`
/// horizontally, vertically or diagonally.
pub open spec fn adjacent_bombs(width: int, height: int, layout: Seq<bool>, x: int, y: int) -> int {
    bomb_weight(width, height, layout, x - 1, y - 1)
        + bomb_weight(width, height, layout, x - 1, y)
        + bomb_weight(width, height, layout, x - 1, y + 1)
        + bomb_weight(width, height, layout, x, y - 1)
        + bomb_weight(width, height, layout, x, y + 1)
        + bomb_weight(width, height, layout, x + 1, y - 1)
        + bomb_weight(width, height, layout, x + 1, y)
        + bomb_weight(width, height, layout, x + 1, y + 1)
}

/// The neighbour count recorded for cell `(x, y)`: its adjacent bombs, and by
/// convention zero for a cell that is a bomb itself.
pub open spec fn neighbor_count(width: int, height: int, layout: Seq<bool>, x: int, y: int) -> int {
    if layout[cell_index(width, x, y)] {
        0
    } else {
        adjacent_bombs(width, height, layout, x, y)
    }
}

/// The number of bombs in a layout.
pub open spec fn bomb_total(layout: Seq<bool>) -> nat
    decreases layout.len(),
{
    if layout.len() == 0 {
        0
    } else {
        bomb_total(layout.drop_last()) + if layout.last() {
            1nat
        } else {
            0nat
        }
    }
}

/// A layout holds no more bombs than it has cells.
pub proof fn lemma_bomb_total_bounded(layout: Seq<bool>)
    ensures
        bomb_total(layout) <= layout.len(),
    decreases layout.len(),
{
    if layout.len() > 0 {
        lemma_bomb_total_bounded(layout.drop_last());
    }
}

/// A neighbour count lies between zero and eight.
pub proof fn lemma_neighbor_count_bounded(
    width: int,
    height: int,
    layout: Seq<bool>,
    x: int,
    y: int,
)
    ensures
        0 <= adjacent_bombs(width, height, layout, x, y) <= 8,
        0 <= neighbor_count(width, height, layout, x, y) <= 8,
{
}

/// The bombs that touch `(x, y)`: the cells of the grid other than `(x, y)`
/// itself, at most one column and one row away, that hold a bomb.
pub open spec fn touching_bombs(width: int, height: int, layout: Seq<bool>, x: int, y: int) -> Set<
    (int, int),
> {
    Set::new(
        |q: (int, int)|
            q != (x, y) && -1 <= q.0 - x <= 1 && -1 <= q.1 - y <= 1 && bomb_at(
                width,
                height,
                layout,
                q.0,
                q.1,
            ),
    )
}

/// Adds `q` to a set of bombs if it is one.
spec fn with_bomb(
    found: Set<(int, int)>,
    width: int,
    height: int,
    layout: Seq<bool>,
    q: (int, int),
) -> Set<(int, int)> {
    if bomb_at(width, height, layout, q.0, q.1) {
        found.insert(q)
    } else {
        found
    }
}

/// Looking at one more cell adds its weight to the number of bombs found.
proof fn lemma_with_bomb_len(
    found: Set<(int, int)>,
    width: int,
    height: int,
    layout: Seq<bool>,
    q: (int, int),
)
    requires
        found.finite(),
        !found.contains(q),
    ensures
        with_bomb(found, width, height, layout, q).finite(),
        with_bomb(found, width, height, layout, q).len() == found.len() + bomb_weight(
            width,
            height,
            layout,
            q.0,
            q.1,
        ),
{
}

/// The neighbour count is the size of the set of bombs that touch the cell:
/// counting offset by offset finds every bomb next to the cell once.
pub proof fn lemma_adjacent_bombs_is_cardinality(
    width: int,
    height: int,
    layout: Seq<bool>,
    x: int,
    y: int,
)
    ensures
        touching_bombs(width, height, layout, x, y).finite(),
        adjacent_bombs(width, height, layout, x, y) == touching_bombs(
            width,
            height,
            layout,
            x,
            y,
        ).len(),
{
    let s0 = Set::<(int, int)>::empty();
    let s1 = with_bomb(s0, width, height, layout, (x - 1, y - 1));
    lemma_with_bomb_len(s0, width, height, layout, (x - 1, y - 1));
    let s2 = with_bomb(s1, width, height, layout, (x - 1, y));
    lemma_with_bomb_len(s1, width, height, layout, (x - 1, y));
    let s3 = with_bomb(s2, width, height, layout, (x - 1, y + 1));
    lemma_with_bomb_len(s2, width, height, layout, (x - 1, y + 1));
    let s4 = with_bomb(s3, width, height, layout, (x, y - 1));
    lemma_with_bomb_len(s3, width, height, layout, (x, y - 1));
    let s5 = with_bomb(s4, width, height, layout, (x, y + 1));
    lemma_with_bomb_len(s4, width, height, layout, (x, y + 1));
    let s6 = with_bomb(s5, width, height, layout, (x + 1, y - 1));
    lemma_with_bomb_len(s5, width, height, layout, (x + 1, y - 1));
    let s7 = with_bomb(s6, width, height, layout, (x + 1, y));
    lemma_with_bomb_len(s6, width, height, layout, (x + 1, y));
    let s8 = with_bomb(s7, width, height, layout, (x + 1, y + 1));
    lemma_with_bomb_len(s7, width, height, layout, (x + 1, y + 1));
    assert(s8 =~= touching_bombs(width, height, layout, x, y));
}

/// The layout before it is shuffled: `number` bombs, then free cells, `len`
/// entries in all.
pub open spec fn ordered_layout(len: nat, number: nat) -> Seq<bool> {
    Seq::new(len, |i: int| i < number)
}

/// The number of bombs in a layout is how often `true` occurs in it.
pub proof fn lemma_bomb_total_is_multiplicity(layout: Seq<bool>)
    ensures
        bomb_total(layout) == layout.to_multiset().count(true),
    decreases layout.len(),
{
    broadcast use vstd::seq_lib::group_to_multiset_ensures;

    if layout.len() == 0 {
        assert(layout.to_multiset().len() == 0);
    } else {
        lemma_bomb_total_is_multiplicity(layout.drop_last());
        assert(layout =~= layout.drop_last().push(layout.last()));
        assert(layout.to_multiset() =~= layout.drop_last().to_multiset().insert(layout.last()));
    }
}

/// The unshuffled layout holds exactly the bombs asked for.
pub proof fn lemma_ordered_layout_total(len: nat, number: nat)
    requires
        number <= len,
    ensures
        bomb_total(ordered_layout(len, number)) == number,
    decreases len,
{
    if len > 0 {
        let shorter = (len - 1) as nat;
        if number == len {
            assert(ordered_layout(len, number).drop_last() =~= ordered_layout(shorter, shorter));
            lemma_ordered_layout_total(shorter, shorter);
        } else {
            assert(ordered_layout(len, number).drop_last() =~= ordered_layout(shorter, number));
            lemma_ordered_layout_total(shorter, number);
        }
    }
}

/// The row-major index of cell `(x, y)` in a grid `width` cells wide.
pub fn grid_index(width: usize, x: usize, y: usize) -> (idx: usize)
    requires
        y * width + x <= usize::MAX,
    ensures
        idx == cell_index(width as int, x as int, y as int),
{
    assert(y * width >= 0) by (nonlinear_arith)
        requires
            y >= 0,
            width >= 0,
    ;
    y * width + x
}

/// Whether the signed coordinate `(x, y)` lies inside the grid.
pub fn is_in_bounds(width: usize, height: usize, x: i32, y: i32) -> (inside: bool)
    ensures
        inside == in_grid(width as int, height as int, x as int, y as int),
{
    x >= 0 && (x as usize) < width && y >= 0 && (y as usize) < height
}

/// One if the cell `(dx, dy)` away from `(x, y)` is a bomb of the grid, else
/// zero.
fn neighbor_weight(
    width: usize,
    height: usize,
    bomb_distribution: &[bool],
    x: usize,
    y: usize,
    dx: i32,
    dy: i32,
) -> (weight: u8)
    requires
        in_grid(width as int, height as int, x as int, y as int),
        bomb_distribution@.len() == width * height <= usize::MAX,
        -1 <= dx <= 1,
        -1 <= dy <= 1,
    ensures
        weight == bomb_weight(
            width as int,
            height as int,
            bomb_distribution@,
            x + dx,
            y + dy,
        ),
{
    if (dx < 0 && x == 0) || (dx > 0 && x + 1 >= width) {
        return 0;
    }
    if (dy < 0 && y == 0) || (dy > 0 && y + 1 >= height) {
        return 0;
    }
    let nx = if dx < 0 {
        x - 1
    } else if dx > 0 {
        x + 1
    } else {
        x
    };
    let ny = if dy < 0 {
        y - 1
    } else if dy > 0 {
        y + 1
    } else {
        y
    };
    proof {
        lemma_cell_index_in_range(width as int, height as int, nx as int, ny as int);
    }
    if bomb_distribution[grid_index(width, nx, ny)] {
        1
    } else {
        0
    }
}

/// The number of bombs that touch the cell `(x, y)`.
fn count_adjacent_bombs(
    width: usize,
    height: usize,
    bomb_distribution: &[bool],
    x: usize,
    y: usize,
) -> (count: u8)
    requires
        in_grid(width as int, height as int, x as int, y as int),
        bomb_distribution@.len() == width * height <= usize::MAX,
    ensures
        count == adjacent_bombs(width as int, height as int, bomb_distribution@, x as int, y as int),
{
    let mut count: u8 = neighbor_weight(width, height, bomb_distribution, x, y, -1, -1);
    count = count + neighbor_weight(width, height, bomb_distribution, x, y, -1, 0);
    count = count + neighbor_weight(width, height, bomb_distribution, x, y, -1, 1);
    count = count + neighbor_weight(width, height, bomb_distribution, x, y, 0, -1);
    count = count + neighbor_weight(width, height, bomb_distribution, x, y, 0, 1);
    count = count + neighbor_weight(width, height, bomb_distribution, x, y, 1, -1);
    count = count + neighbor_weight(width, height, bomb_distribution, x, y, 1, 0);
    count = count + neighbor_weight(width, height, bomb_distribution, x, y, 1, 1);
    count
}

/// For every cell of the grid, the number of bombs that touch it; zero for a
/// cell that is a bomb itself. `bomb_distribution` lists the cells row by row.
pub fn compute_neighbor_counts(width: usize, height: usize, bomb_distribution: &[bool]) -> (counts:
    Vec<u8>)
    requires
        bomb_distribution@.len() == width * height,
    ensures
        counts@.len() == width * height,
        forall|x: int, y: int|
            in_grid(width as int, height as int, x, y) ==> counts@[#[trigger] cell_index(
                width as int,
                x,
                y,
            )] == neighbor_count(width as int, height as int, bomb_distribution@, x, y),
{
    let mut neighbor_counts = vec![0u8;bomb_distribution.len()];
    proof {
        assert forall|cx: int, cy: int| in_grid(width as int, height as int, cx, cy) implies 0
            <= #[trigger] cell_index(width as int, cx, cy) < width * height by {
            lemma_cell_index_in_range(width as int, height as int, cx, cy);
        }
    }
    let mut x: usize = 0;
    while x < width
        invariant
            x <= width,
            bomb_distribution@.len() == width * height <= usize::MAX,
            neighbor_counts@.len() == width * height,
            forall|cx: int, cy: int|
                in_grid(width as int, height as int, cx, cy) ==> 0 <= #[trigger] cell_index(
                    width as int,
                    cx,
                    cy,
                ) < width * height,
            forall|cx: int, cy: int|
                in_grid(width as int, height as int, cx, cy) ==> neighbor_counts@[#[trigger] cell_index(
                    width as int,
                    cx,
                    cy,
                )] == if cx < x {
                    neighbor_count(width as int, height as int, bomb_distribution@, cx, cy)
                } else {
                    0
                },
        decreases width - x,
    {
        let mut y: usize = 0;
        while y < height
            invariant
                x < width,
                y <= height,
                bomb_distribution@.len() == width * height <= usize::MAX,
                neighbor_counts@.len() == width * height,
                forall|cx: int, cy: int|
                    in_grid(width as int, height as int, cx, cy) ==> 0 <= #[trigger] cell_index(
                        width as int,
                        cx,
                        cy,
                    ) < width * height,
                forall|cx: int, cy: int|
                    in_grid(width as int, height as int, cx, cy) ==> neighbor_counts@[#[trigger] cell_index(
                        width as int,
                        cx,
                        cy,
                    )] == if cx < x || (cx == x && cy < y) {
                        neighbor_count(width as int, height as int, bomb_distribution@, cx, cy)
                    } else {
                        0
                    },
            decreases height - y,
        {
            assert(0 <= cell_index(width as int, x as int, y as int) < width * height);
            let idx = grid_index(width, x, y);
            if !bomb_distribution[idx] {
                let count = count_adjacent_bombs(width, height, bomb_distribution, x, y);
                neighbor_counts[idx] = count;
                proof {
                    assert forall|cx: int, cy: int|
                        in_grid(width as int, height as int, cx, cy) && !(cx == x && cy == y)
                        implies #[trigger] cell_index(width as int, cx, cy) != idx by {
                        if cell_index(width as int, cx, cy) == idx {
                            lemma_cell_index_injective(width as int, cx, cy, x as int, y as int);
                        }
                    }
                }
            }
            y = y + 1;
        }
        x = x + 1;
    }
    neighbor_counts
}

/// A layout of `len` cells with `number` bombs in an order drawn from `rng`:
/// the bombs are written first, the free cells after them, and the whole is
/// shuffled.
fn shuffled_layout(len: usize, number: usize, rng: &mut StdRng) -> (array: Vec<bool>)
    requires
        number <= len,
    ensures
        array@.len() == len,
        bomb_total(array@) == number,
        array@.to_multiset() == ordered_layout(len as nat, number as nat).to_multiset(),
{
    let mut array = vec![true; number];
    let free_cells = len - number;
    let mut free = vec![false; free_cells];
    array.append(&mut free);
    assert(array@ =~= ordered_layout(len as nat, number as nat));
    shuffle_layout(&mut array, rng);
    proof {
        broadcast use vstd::seq_lib::group_to_multiset_ensures;

        lemma_ordered_layout_total(len as nat, number as nat);
        lemma_bomb_total_is_multiplicity(ordered_layout(len as nat, number as nat));
        lemma_bomb_total_is_multiplicity(array@);
        assert(array@.len() == array@.to_multiset().len());
    }
    array
}

/// A random array of `len` entries of which exactly `number` are `true`, in
/// an order drawn from a generator that is seeded afresh on every call, or
/// `InvalidConfiguration` if `len` entries cannot hold `number` `true`s.
pub fn generate_random_bool_array(len: usize, number: usize) -> (result: Result<
    Vec<bool>,
    GameError,
>)
    ensures
        result is Ok <==> number <= len,
        result matches Err(e) ==> e == GameError::InvalidConfiguration,
        result matches Ok(array) ==> ({
            &&& array@.len() == len
            &&& bomb_total(array@) == number
            &&& array@.to_multiset() == ordered_layout(len as nat, number as nat).to_multiset()
        }),
{
    if number > len {
        return Err(GameError::InvalidConfiguration);
    }
    let mut rng = seeded_rng(random_seed());
    Ok(shuffled_layout(len, number, &mut rng))
}

/// A random layout of `total_cells` cells with exactly `bomb_count` bombs, in
/// an order drawn from `rng`, or `InvalidConfiguration` if the cells cannot
/// hold that many bombs.
pub fn generate_bomb_layout(total_cells: usize, bomb_count: usize, rng: &mut StdRng) -> (result:
    Result<Vec<bool>, GameError>)
    ensures
        result is Ok <==> bomb_count <= total_cells,
        result matches Err(e) ==> e == GameError::InvalidConfiguration,
        result matches Ok(layout) ==> ({
            &&& layout@.len() == total_cells
            &&& bomb_total(layout@) == bomb_count
            &&& layout@.to_multiset() == ordered_layout(
                total_cells as nat,
                bomb_count as nat,
            ).to_multiset()
        }),
{
    if bomb_count > total_cells {
        return Err(GameError::InvalidConfiguration);
    }
    Ok(shuffled_layout(total_cells, bomb_count, rng))
}

} // verus!
