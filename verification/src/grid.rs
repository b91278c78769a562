//! Geometry of the toroidal grid: cells are numbered row by row, and the
//! edges wrap around, so every cell has four cardinal and eight surrounding
//! neighbours.

use vstd::prelude::*;

verus! {

/// Cells per side of the square grid.
pub const GRID_SIDE: usize = 32;
/// Number of cells of the grid, `GRID_SIDE` squared.
pub const GRID_SIZE: usize = 1024;

/// Action codes chosen by an agent's network.
pub const ACTION_STAY: usize = 0;
pub const ACTION_NORTH: usize = 1;
pub const ACTION_SOUTH: usize = 2;
pub const ACTION_EAST: usize = 3;
pub const ACTION_WEST: usize = 4;

pub open spec fn row_of(pos: int) -> int {
    pos / GRID_SIDE as int
}

pub open spec fn col_of(pos: int) -> int {
    pos % GRID_SIDE as int
}

pub open spec fn cell_at(row: int, col: int) -> int {
    row * GRID_SIDE as int + col
}

/// Row above, wrapping from the top row to the bottom one.
pub open spec fn row_up(row: int) -> int {
    (row + GRID_SIDE as int - 1) % GRID_SIDE as int
}

/// Row below, wrapping from the bottom row to the top one.
pub open spec fn row_down(row: int) -> int {
    (row + 1) % GRID_SIDE as int
}

/// Column to the right, wrapping around.
pub open spec fn col_right(col: int) -> int {
    (col + 1) % GRID_SIDE as int
}

/// Column to the left, wrapping around.
pub open spec fn col_left(col: int) -> int {
    (col + GRID_SIDE as int - 1) % GRID_SIDE as int
}

pub open spec fn north_of(pos: int) -> int {
    cell_at(row_up(row_of(pos)), col_of(pos))
}

pub open spec fn south_of(pos: int) -> int {
    cell_at(row_down(row_of(pos)), col_of(pos))
}

/// East keeps the row as it is (also outside the grid).
pub open spec fn east_of(pos: int) -> int {
    cell_at(row_of(pos), col_right(col_of(pos)))
}

/// West keeps the row as it is (also outside the grid).
pub open spec fn west_of(pos: int) -> int {
    cell_at(row_of(pos), col_left(col_of(pos)))
}

/// The four cardinal neighbours, in the order north, south, east, west.
pub open spec fn cardinal_spec(pos: int) -> Seq<int> {
    seq![north_of(pos), south_of(pos), east_of(pos), west_of(pos)]
}

/// The eight surrounding cells, clockwise from north:
/// N, NE, E, SE, S, SW, W, NW.
pub open spec fn moore_spec(pos: int) -> Seq<int> {
    let r = row_of(pos);
    let c = col_of(pos);
    seq![
        cell_at(row_up(r), c),
        cell_at(row_up(r), col_right(c)),
        cell_at(r, col_right(c)),
        cell_at(row_down(r), col_right(c)),
        cell_at(row_down(r), c),
        cell_at(row_down(r), col_left(c)),
        cell_at(r, col_left(c)),
        cell_at(row_up(r), col_left(c)),
    ]
}

/// Where an agent at `pos` ends up after `action`: codes 1 to 4 move it to
/// the north, south, east or west neighbour; any other code leaves it.
pub open spec fn move_target(pos: int, action: int) -> int {
    if action == ACTION_NORTH as int {
        north_of(pos)
    } else if action == ACTION_SOUTH as int {
        south_of(pos)
    } else if action == ACTION_EAST as int {
        east_of(pos)
    } else if action == ACTION_WEST as int {
        west_of(pos)
    } else {
        pos
    }
}

/// The four cardinal neighbours of `pos` on the torus: north, south, east,
/// west.
pub fn cardinal_neighbors(pos: usize) -> (r: [usize; 4])
    ensures
        forall|i: int| 0 <= i < 4 ==> r@[i] as int == #[trigger] cardinal_spec(pos as int)[i],
{
    let row = pos / GRID_SIDE;
    let col = pos % GRID_SIDE;
    let s = GRID_SIDE;
    assert(row * s <= pos) by (nonlinear_arith)
        requires row == pos / 32, s == 32;
    let r = [
        ((row + s - 1) % s) * s + col,
        ((row + 1) % s) * s + col,
        row * s + (col + 1) % s,
        row * s + (col + s - 1) % s,
    ];
    assert(forall|i: int| 0 <= i < 4 ==> r@[i] as int == #[trigger] cardinal_spec(pos as int)[i]);
    r
}

/// The eight cells around `pos` on the torus, clockwise from north
/// (N, NE, E, SE, S, SW, W, NW), against which the quorum gradient is read.
pub fn moore_neighbors(pos: usize) -> (r: [usize; 8])
    ensures
        forall|i: int| 0 <= i < 8 ==> r@[i] as int == #[trigger] moore_spec(pos as int)[i],
{
    let row = pos / GRID_SIDE;
    let col = pos % GRID_SIDE;
    let s = GRID_SIDE;
    assert(row * s <= pos) by (nonlinear_arith)
        requires row == pos / 32, s == 32;
    let up = (row + s - 1) % s;
    let down = (row + 1) % s;
    let right = (col + 1) % s;
    let left = (col + s - 1) % s;
    let r = [
        up * s + col,
        up * s + right,
        row * s + right,
        down * s + right,
        down * s + col,
        down * s + left,
        row * s + left,
        up * s + left,
    ];
    assert(forall|i: int| 0 <= i < 8 ==> r@[i] as int == #[trigger] moore_spec(pos as int)[i]);
    r
}

/// The cell an agent at `pos` moves to when its network picks `action`.
pub fn apply_action(pos: usize, action: usize) -> (r: usize)
    ensures
        r as int == move_target(pos as int, action as int),
        1 <= action <= 4 ==> r as int == cardinal_spec(pos as int)[action - 1],
        !(1 <= action <= 4) ==> r == pos,
        action == 1 ==> r as int == ((pos as int / 32 + 31) % 32) * 32 + pos as int % 32,
        action == 2 ==> r as int == ((pos as int / 32 + 1) % 32) * 32 + pos as int % 32,
        action == 3 ==> r as int == (pos as int / 32) * 32 + (pos as int % 32 + 1) % 32,
        action == 4 ==> r as int == (pos as int / 32) * 32 + (pos as int % 32 + 31) % 32,
{
    let nbrs = cardinal_neighbors(pos);
    assert(nbrs@[0] as int == cardinal_spec(pos as int)[0]);
    assert(nbrs@[1] as int == cardinal_spec(pos as int)[1]);
    assert(nbrs@[2] as int == cardinal_spec(pos as int)[2]);
    assert(nbrs@[3] as int == cardinal_spec(pos as int)[3]);
    if action == ACTION_NORTH {
        nbrs[0]
    } else if action == ACTION_SOUTH {
        nbrs[1]
    } else if action == ACTION_EAST {
        nbrs[2]
    } else if action == ACTION_WEST {
        nbrs[3]
    } else {
        pos
    }
}

/// Moving on the torus changes one coordinate by one step, wrapping at the
/// edges, and keeps the other: north and south keep the column and change the
/// row by -1 and +1 (modulo 32), east and west keep the row and change the
/// column by +1 and -1 (modulo 32); any other action stays. Opposite moves
/// undo each other.
pub proof fn lemma_actions_on_torus(pos: int)
    requires
        0 <= pos < GRID_SIZE as int,
    ensures
        ({
            let n = move_target(pos, 1);
            n % 32 == pos % 32 && n / 32 == (pos / 32 + 31) % 32
        }),
        ({
            let s = move_target(pos, 2);
            s % 32 == pos % 32 && s / 32 == (pos / 32 + 1) % 32
        }),
        ({
            let e = move_target(pos, 3);
            e / 32 == pos / 32 && e % 32 == (pos % 32 + 1) % 32
        }),
        ({
            let w = move_target(pos, 4);
            w / 32 == pos / 32 && w % 32 == (pos % 32 + 31) % 32
        }),
        forall|a: int| !(1 <= a <= 4) ==> #[trigger] move_target(pos, a) == pos,
        forall|a: int| 1 <= a <= 4 ==> 0 <= #[trigger] move_target(pos, a) < GRID_SIZE as int,
        move_target(move_target(pos, 1), 2) == pos,
        move_target(move_target(pos, 2), 1) == pos,
        move_target(move_target(pos, 3), 4) == pos,
        move_target(move_target(pos, 4), 3) == pos,
{
    lemma_cell_decompose(pos);
    let r = row_of(pos);
    let c = col_of(pos);
    lemma_cell_coords(row_up(r), c);
    lemma_cell_coords(row_down(r), c);
    lemma_cell_coords(r, col_right(c));
    lemma_cell_coords(r, col_left(c));
    lemma_moves_undo(pos);
}

proof fn lemma_cell_decompose(pos: int)
    requires
        0 <= pos < GRID_SIZE as int,
    ensures
        0 <= row_of(pos) < GRID_SIDE as int,
        0 <= col_of(pos) < GRID_SIDE as int,
        pos == cell_at(row_of(pos), col_of(pos)),
{
}

proof fn lemma_cell_coords(row: int, col: int)
    requires
        0 <= row < GRID_SIDE as int,
        0 <= col < GRID_SIDE as int,
    ensures
        0 <= cell_at(row, col) < GRID_SIZE as int,
        row_of(cell_at(row, col)) == row,
        col_of(cell_at(row, col)) == col,
{
    assert(0 <= cell_at(row, col) < GRID_SIZE as int) by (nonlinear_arith)
        requires 0 <= row < 32, 0 <= col < 32;
}

/// Every neighbour of a cell of the grid, cardinal or diagonal, is a cell of
/// the grid.
pub proof fn lemma_neighbors_in_grid(pos: int)
    requires
        0 <= pos < GRID_SIZE as int,
    ensures
        forall|i: int| 0 <= i < 4 ==> 0 <= #[trigger] cardinal_spec(pos)[i] < GRID_SIZE as int,
        forall|i: int| 0 <= i < 8 ==> 0 <= #[trigger] moore_spec(pos)[i] < GRID_SIZE as int,
{
    lemma_cell_decompose(pos);
    let r = row_of(pos);
    let c = col_of(pos);
    lemma_cell_coords(row_up(r), c);
    lemma_cell_coords(row_down(r), c);
    lemma_cell_coords(r, col_right(c));
    lemma_cell_coords(r, col_left(c));
    lemma_cell_coords(row_up(r), col_right(c));
    lemma_cell_coords(row_down(r), col_right(c));
    lemma_cell_coords(row_up(r), col_left(c));
    lemma_cell_coords(row_down(r), col_left(c));
}

/// The edges wrap: going north then south, south then north, east then west,
/// or west then east returns to the starting cell.
pub proof fn lemma_moves_undo(pos: int)
    requires
        0 <= pos < GRID_SIZE as int,
    ensures
        south_of(north_of(pos)) == pos,
        north_of(south_of(pos)) == pos,
        west_of(east_of(pos)) == pos,
        east_of(west_of(pos)) == pos,
{
    lemma_cell_decompose(pos);
    let r = row_of(pos);
    let c = col_of(pos);
    lemma_cell_coords(row_up(r), c);
    lemma_cell_coords(row_down(r), c);
    lemma_cell_coords(r, col_right(c));
    lemma_cell_coords(r, col_left(c));
}

/// The four cardinal neighbours of a cell are four different cells, none of
/// them the cell itself.
pub proof fn lemma_cardinal_distinct(pos: int)
    requires
        0 <= pos < GRID_SIZE as int,
    ensures
        forall|i: int, j: int|
            0 <= i < 4 && 0 <= j < 4 && i != j ==> #[trigger] cardinal_spec(pos)[i]
                != #[trigger] cardinal_spec(pos)[j],
        forall|i: int| 0 <= i < 4 ==> #[trigger] cardinal_spec(pos)[i] != pos,
{
    lemma_cell_decompose(pos);
    let r = row_of(pos);
    let c = col_of(pos);
    lemma_cell_coords(row_up(r), c);
    lemma_cell_coords(row_down(r), c);
    lemma_cell_coords(r, col_right(c));
    lemma_cell_coords(r, col_left(c));
}

/// Being a cardinal neighbour is symmetric: `q` is a neighbour of `p` exactly
/// when `p` is a neighbour of `q`.
#[verifier::spinoff_prover]
#[verifier::rlimit(40)]
pub proof fn lemma_cardinal_symmetric(p: int, q: int)
    requires
        0 <= p < GRID_SIZE as int,
        0 <= q < GRID_SIZE as int,
    ensures
        cardinal_spec(p).contains(q) <==> cardinal_spec(q).contains(p),
{
    lemma_moves_undo(p);
    lemma_moves_undo(q);
    let np = north_of(p);
    let sp = south_of(p);
    let ep = east_of(p);
    let wp = west_of(p);
    let nq = north_of(q);
    let sq = south_of(q);
    let eq = east_of(q);
    let wq = west_of(q);
    assert(cardinal_spec(p) =~= seq![np, sp, ep, wp]);
    assert(cardinal_spec(q) =~= seq![nq, sq, eq, wq]);
    assert(cardinal_spec(p).contains(q) <==> (q == np || q == sp || q == ep || q == wp)) by {
        if q == np || q == sp || q == ep || q == wp {
            if q == np { assert(cardinal_spec(p)[0] == q); }
            if q == sp { assert(cardinal_spec(p)[1] == q); }
            if q == ep { assert(cardinal_spec(p)[2] == q); }
            if q == wp { assert(cardinal_spec(p)[3] == q); }
        }
    }
    assert(cardinal_spec(q).contains(p) <==> (p == nq || p == sq || p == eq || p == wq)) by {
        if p == nq || p == sq || p == eq || p == wq {
            if p == nq { assert(cardinal_spec(q)[0] == p); }
            if p == sq { assert(cardinal_spec(q)[1] == p); }
            if p == eq { assert(cardinal_spec(q)[2] == p); }
            if p == wq { assert(cardinal_spec(q)[3] == p); }
        }
    }
}

/// The surrounding cells are the cardinal neighbours and the four diagonal
/// cells reached by one vertical and one horizontal step.
pub proof fn lemma_moore_from_cardinal(pos: int)
    requires
        0 <= pos < GRID_SIZE as int,
    ensures
        moore_spec(pos)[0] == north_of(pos),
        moore_spec(pos)[1] == east_of(north_of(pos)),
        moore_spec(pos)[2] == east_of(pos),
        moore_spec(pos)[3] == east_of(south_of(pos)),
        moore_spec(pos)[4] == south_of(pos),
        moore_spec(pos)[5] == west_of(south_of(pos)),
        moore_spec(pos)[6] == west_of(pos),
        moore_spec(pos)[7] == west_of(north_of(pos)),
{
    lemma_cell_decompose(pos);
    let r = row_of(pos);
    let c = col_of(pos);
    lemma_cell_coords(row_up(r), c);
    lemma_cell_coords(row_down(r), c);
}

} // verus!
