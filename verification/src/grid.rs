//! Cell positions, and the free cells of a grid in row-major order.

use vstd::pervasive::unreached;
use vstd::prelude::*;
use vstd::arithmetic::div_mod::{
    lemma_fundamental_div_mod_converse, lemma_multiply_divide_lt, lemma_mod_bound,
};
use vstd::arithmetic::mul::lemma_mul_upper_bound;

verus! {

/// A cell of the grid: column `x`, row `y`.
#[derive(Clone, Copy, Debug, PartialEq, Eq, Structural)]
pub struct Position {
    pub x: i32,
    pub y: i32,
}

/// The cell with row-major index `i` in a grid of `cols` columns.
pub open spec fn cell_at(cols: int, i: int) -> Position {
    Position { x: (i % cols) as i32, y: (i / cols) as i32 }
}

/// Whether `p` lies inside `[0, cols) x [0, rows)`.
pub open spec fn within(cols: int, rows: int, p: Position) -> bool {
    0 <= p.x < cols && 0 <= p.y < rows
}

/// How many of the cells with index in `[i, total)` are not in `body`.
pub open spec fn free_from(body: Seq<Position>, cols: int, total: int, i: int) -> nat
    decreases total - i,
{
    if i >= total {
        0
    } else if body.contains(cell_at(cols, i)) {
        free_from(body, cols, total, i + 1)
    } else {
        1 + free_from(body, cols, total, i + 1)
    }
}

/// The index of the `k`-th (from zero) cell not in `body` among those with
/// index in `[i, total)`, or `total` where fewer than `k + 1` are free.
pub open spec fn kth_free(body: Seq<Position>, cols: int, total: int, i: int, k: nat) -> int
    decreases total - i,
{
    if i >= total {
        total
    } else if body.contains(cell_at(cols, i)) {
        kth_free(body, cols, total, i + 1, k)
    } else if k == 0 {
        i
    } else {
        kth_free(body, cols, total, i + 1, (k - 1) as nat)
    }
}

/// The number of cells of a `cols` by `rows` grid that `body` leaves free.
/// A grid without columns or rows has none.
pub open spec fn free_cells(body: Seq<Position>, cols: int, rows: int) -> nat {
    if cols <= 0 || rows <= 0 {
        0
    } else {
        free_from(body, cols, cols * rows, 0)
    }
}

/// The `k`-th free cell of the grid, counted from zero in row-major order.
pub open spec fn nth_free_cell(body: Seq<Position>, cols: int, rows: int, k: nat) -> Position {
    cell_at(cols, kth_free(body, cols, cols * rows, 0, k))
}

/// Every index below `cols * rows` names a cell inside the grid.
proof fn lemma_cell_within(cols: int, rows: int, i: int)
    requires
        0 < cols <= i32::MAX,
        0 < rows <= i32::MAX,
        0 <= i < cols * rows,
    ensures
        within(cols, rows, cell_at(cols, i)),
        cell_at(cols, i).x == i % cols,
        cell_at(cols, i).y == i / cols,
{
    lemma_mod_bound(i, cols);
    lemma_multiply_divide_lt(i, cols, rows);
    assert(0 <= i / cols) by (nonlinear_arith)
        requires
            0 <= i,
            0 < cols,
    ;
}

/// Every cell inside the grid has an index below `cols * rows`.
proof fn lemma_index_of_cell(cols: int, rows: int, p: Position) -> (i: int)
    requires
        0 < cols,
        within(cols, rows, p),
    ensures
        0 <= i < cols * rows,
        cell_at(cols, i) == p,
{
    let i = p.y * cols + p.x;
    lemma_fundamental_div_mod_converse(i, cols, p.y as int, p.x as int);
    assert(0 <= p.y * cols && p.y * cols + cols <= rows * cols && rows * cols == cols * rows)
        by (nonlinear_arith)
        requires
            0 <= p.y < rows,
            0 < cols,
    ;
    i
}

/// Some cell from index `i` on is free exactly where the count from `i` on
/// is positive.
proof fn lemma_free_from_positive(body: Seq<Position>, cols: int, total: int, i: int)
    ensures
        free_from(body, cols, total, i) > 0 <==> exists|j: int|
            i <= j < total && !body.contains(#[trigger] cell_at(cols, j)),
    decreases total - i,
{
    if i < total {
        lemma_free_from_positive(body, cols, total, i + 1);
        if free_from(body, cols, total, i) > 0 {
            if body.contains(cell_at(cols, i)) {
                let j = choose|j: int|
                    i + 1 <= j < total && !body.contains(#[trigger] cell_at(cols, j));
                assert(i <= j < total && !body.contains(cell_at(cols, j)));
            } else {
                assert(i <= i < total && !body.contains(cell_at(cols, i)));
            }
        }
        if exists|j: int| i <= j < total && !body.contains(#[trigger] cell_at(cols, j)) {
            let j = choose|j: int| i <= j < total && !body.contains(#[trigger] cell_at(cols, j));
            if j > i {
                assert(i + 1 <= j < total && !body.contains(cell_at(cols, j)));
            }
        }
    }
}

/// Where more than `k` cells from index `i` on are free, the `k`-th of them
/// has an index from `i` to below `total` and is free.
proof fn lemma_kth_free_is_free(body: Seq<Position>, cols: int, total: int, i: int, k: nat)
    requires
        k < free_from(body, cols, total, i),
    ensures
        i <= kth_free(body, cols, total, i, k) < total,
        !body.contains(cell_at(cols, kth_free(body, cols, total, i, k))),
    decreases total - i,
{
    if i < total {
        if body.contains(cell_at(cols, i)) {
            lemma_kth_free_is_free(body, cols, total, i + 1, k);
        } else if k > 0 {
            lemma_kth_free_is_free(body, cols, total, i + 1, (k - 1) as nat);
        }
    }
}

/// The free cell with index `j` is the `k`-th from index `i` on, for the
/// `k` that this function returns.
proof fn lemma_rank_of_free(body: Seq<Position>, cols: int, total: int, i: int, j: int) -> (k: nat)
    requires
        i <= j < total,
        !body.contains(cell_at(cols, j)),
    ensures
        k < free_from(body, cols, total, i),
        kth_free(body, cols, total, i, k) == j,
    decreases total - i,
{
    if i == j {
        0
    } else if body.contains(cell_at(cols, i)) {
        lemma_rank_of_free(body, cols, total, i + 1, j)
    } else {
        let below = lemma_rank_of_free(body, cols, total, i + 1, j);
        below + 1
    }
}

/// Later draws select later cells.
proof fn lemma_kth_free_increases(
    body: Seq<Position>,
    cols: int,
    total: int,
    i: int,
    k1: nat,
    k2: nat,
)
    requires
        k1 < k2 < free_from(body, cols, total, i),
    ensures
        kth_free(body, cols, total, i, k1) < kth_free(body, cols, total, i, k2),
    decreases total - i,
{
    if i < total {
        if body.contains(cell_at(cols, i)) {
            lemma_kth_free_increases(body, cols, total, i + 1, k1, k2);
        } else if k1 > 0 {
            lemma_kth_free_increases(body, cols, total, i + 1, (k1 - 1) as nat, (k2 - 1) as nat);
        } else {
            lemma_kth_free_is_free(body, cols, total, i + 1, (k2 - 1) as nat);
        }
    }
}

/// The grid has room exactly where one of its cells is off the body.
pub proof fn law_room_means_a_free_cell(body: Seq<Position>, cols: int, rows: int)
    requires
        cols <= i32::MAX,
        rows <= i32::MAX,
    ensures
        free_cells(body, cols, rows) > 0 <==> exists|p: Position|
            within(cols, rows, p) && !body.contains(p),
{
    if cols > 0 && rows > 0 {
        lemma_free_from_positive(body, cols, cols * rows, 0);
        if free_cells(body, cols, rows) > 0 {
            let j = choose|j: int|
                0 <= j < cols * rows && !body.contains(#[trigger] cell_at(cols, j));
            lemma_cell_within(cols, rows, j);
            assert(within(cols, rows, cell_at(cols, j)) && !body.contains(cell_at(cols, j)));
        }
        if exists|p: Position| within(cols, rows, p) && !body.contains(p) {
            let p = choose|p: Position| within(cols, rows, p) && !body.contains(p);
            let j = lemma_index_of_cell(cols, rows, p);
            assert(0 <= j < cols * rows && !body.contains(cell_at(cols, j)));
        }
    }
}

/// The draws below `free_cells` select exactly the free cells of the grid:
/// each selects a cell on the grid and off the body, and each such cell is
/// selected by one of them.
pub proof fn law_draws_cover_the_free_cells(body: Seq<Position>, cols: int, rows: int, p: Position)
    requires
        cols <= i32::MAX,
        rows <= i32::MAX,
    ensures
        (within(cols, rows, p) && !body.contains(p)) <==> exists|k: nat|
            k < free_cells(body, cols, rows) && p == #[trigger] nth_free_cell(body, cols, rows, k),
{
    if cols > 0 && rows > 0 {
        let total = cols * rows;
        if within(cols, rows, p) && !body.contains(p) {
            let j = lemma_index_of_cell(cols, rows, p);
            let k = lemma_rank_of_free(body, cols, total, 0, j);
            assert(k < free_cells(body, cols, rows) && p == nth_free_cell(body, cols, rows, k));
        }
        if exists|k: nat|
            k < free_cells(body, cols, rows) && p == #[trigger] nth_free_cell(body, cols, rows, k) {
            let k = choose|k: nat|
                k < free_cells(body, cols, rows) && p == #[trigger] nth_free_cell(
                    body,
                    cols,
                    rows,
                    k,
                );
            lemma_kth_free_is_free(body, cols, total, 0, k);
            lemma_cell_within(cols, rows, kth_free(body, cols, total, 0, k));
        }
    }
}

/// Two different draws below `free_cells` select two different cells.
pub proof fn law_draws_select_distinct_cells(
    body: Seq<Position>,
    cols: int,
    rows: int,
    k1: nat,
    k2: nat,
)
    requires
        cols <= i32::MAX,
        rows <= i32::MAX,
        k1 < k2 < free_cells(body, cols, rows),
    ensures
        nth_free_cell(body, cols, rows, k1) != nth_free_cell(body, cols, rows, k2),
{
    let total = cols * rows;
    lemma_kth_free_increases(body, cols, total, 0, k1, k2);
    lemma_kth_free_is_free(body, cols, total, 0, k1);
    lemma_kth_free_is_free(body, cols, total, 0, k2);
    let j1 = kth_free(body, cols, total, 0, k1);
    let j2 = kth_free(body, cols, total, 0, k2);
    lemma_cell_within(cols, rows, j1);
    lemma_cell_within(cols, rows, j2);
    if cell_at(cols, j1) == cell_at(cols, j2) {
        assert(j1 == cols * (j1 / cols) + j1 % cols && j2 == cols * (j2 / cols) + j2 % cols)
            by (nonlinear_arith)
            requires
                cols > 0,
        ;
    }
}

/// Whether `p` is one of the cells of `body`.
pub fn occupied(body: &Vec<Position>, p: Position) -> (r: bool)
    ensures
        r == body@.contains(p),
{
    let mut j: usize = 0;
    while j < body.len()
        invariant
            j <= body.len(),
            forall|m: int| 0 <= m < j ==> body@[m] != p,
        decreases body.len() - j,
    {
        if body[j].x == p.x && body[j].y == p.y {
            return true;
        }
        j += 1;
    }
    false
}

/// The number of cells of the grid, which fits in `u64`.
fn cell_total(cols: i32, rows: i32) -> (total: u64)
    requires
        cols > 0,
        rows > 0,
    ensures
        total == cols * rows,
        total > 0,
{
    proof {
        lemma_mul_upper_bound(cols as int, i32::MAX as int, rows as int, i32::MAX as int);
        assert(cols * rows >= 1) by (nonlinear_arith)
            requires
                cols >= 1,
                rows >= 1,
        ;
    }
    (cols as u64) * (rows as u64)
}

/// The cell with index `i`, computed.
fn cell_of(cols: i32, rows: i32, i: u64) -> (p: Position)
    requires
        cols > 0,
        rows > 0,
        i < cols * rows,
    ensures
        p == cell_at(cols as int, i as int),
        within(cols as int, rows as int, p),
{
    proof {
        lemma_cell_within(cols as int, rows as int, i as int);
    }
    let c: u64 = cols as u64;
    Position { x: (i % c) as i32, y: (i / c) as i32 }
}

/// Counts the free cells of the grid.
pub fn count_free(body: &Vec<Position>, cols: i32, rows: i32) -> (n: u64)
    ensures
        n == free_cells(body@, cols as int, rows as int),
{
    if cols <= 0 || rows <= 0 {
        return 0;
    }
    let total: u64 = cell_total(cols, rows);
    let mut i: u64 = 0;
    let mut n: u64 = 0;
    while i < total
        invariant
            cols > 0,
            rows > 0,
            total == cols * rows,
            i <= total,
            n <= i,
            n + free_from(body@, cols as int, total as int, i as int) == free_from(
                body@,
                cols as int,
                total as int,
                0,
            ),
        decreases total - i,
    {
        let p = cell_of(cols, rows, i);
        if !occupied(body, p) {
            n += 1;
        }
        i += 1;
    }
    n
}

/// Finds the `k`-th free cell of the grid, counted from zero in row-major
/// order.
pub fn select_free(body: &Vec<Position>, cols: i32, rows: i32, k: u64) -> (p: Position)
    requires
        k < free_cells(body@, cols as int, rows as int),
    ensures
        p == nth_free_cell(body@, cols as int, rows as int, k as nat),
        within(cols as int, rows as int, p),
        !body@.contains(p),
{
    let total: u64 = cell_total(cols, rows);
    let mut i: u64 = 0;
    let mut left: u64 = k;
    while i < total
        invariant
            cols > 0,
            rows > 0,
            total == cols * rows,
            i <= total,
            left < free_from(body@, cols as int, total as int, i as int),
            kth_free(body@, cols as int, total as int, i as int, left as nat) == kth_free(
                body@,
                cols as int,
                total as int,
                0,
                k as nat,
            ),
        decreases total - i,
    {
        let p = cell_of(cols, rows, i);
        if !occupied(body, p) {
            if left == 0 {
                return p;
            }
            left -= 1;
        }
        i += 1;
    }
    // More than `left` cells from `i` on are free, so the scan cannot run out.
    unreached()
}

} // verus!
