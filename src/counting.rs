//! Counting occupied cells line by line: whichever direction sweeps the
//! board, its lines together hold every occupied cell exactly once.
use vstd::prelude::*;
use crate::board::{cell_index, occupied, Piece};
use crate::direction::{line_col, line_row, Direction};
use crate::resolve::board_line;

verus! {

pub open spec fn ind(c: Option<Piece>) -> int {
    if c is Some {
        1
    } else {
        0
    }
}

/// `g(0) + ... + g(n - 1)`.
pub open spec fn sum(n: int, g: spec_fn(int) -> int) -> int
    decreases n,
{
    if n <= 0 {
        0
    } else {
        sum(n - 1, g) + g(n - 1)
    }
}

pub proof fn lemma_sum_ext(n: int, g1: spec_fn(int) -> int, g2: spec_fn(int) -> int)
    requires
        forall|k: int| 0 <= k < n ==> #[trigger] g1(k) == g2(k),
    ensures
        sum(n, g1) == sum(n, g2),
    decreases n,
{
    if n > 0 {
        lemma_sum_ext(n - 1, g1, g2);
    }
}

pub proof fn lemma_sum_zero(n: int, g: spec_fn(int) -> int)
    requires
        forall|k: int| 0 <= k < n ==> #[trigger] g(k) == 0,
    ensures
        sum(n, g) == 0,
    decreases n,
{
    if n > 0 {
        lemma_sum_zero(n - 1, g);
    }
}

pub proof fn lemma_sum_add(n: int, g1: spec_fn(int) -> int, g2: spec_fn(int) -> int)
    ensures
        sum(n, |k: int| g1(k) + g2(k)) == sum(n, g1) + sum(n, g2),
    decreases n,
{
    if n > 0 {
        lemma_sum_add(n - 1, g1, g2);
    }
}

pub proof fn lemma_sum_shift(n: int, g: spec_fn(int) -> int)
    requires
        n >= 1,
    ensures
        sum(n, g) == g(0) + sum(n - 1, |j: int| g(j + 1)),
    decreases n,
{
    let g1 = |j: int| g(j + 1);
    if n > 1 {
        lemma_sum_shift(n - 1, g);
        assert(sum(n - 1, g1) == sum(n - 2, g1) + g1(n - 2));
    } else {
        assert(sum(n - 1, g1) == 0);
        assert(sum(n - 1, g) == 0);
    }
}

pub proof fn lemma_sum_reverse(n: int, g: spec_fn(int) -> int)
    ensures
        sum(n, |k: int| g(n - 1 - k)) == sum(n, g),
    decreases n,
{
    if n > 0 {
        let h = |k: int| g(n - 1 - k);
        let g1 = |j: int| g(j + 1);
        lemma_sum_reverse(n - 1, g1);
        lemma_sum_ext(n - 1, h, |k: int| g1(n - 1 - 1 - k));
        lemma_sum_shift(n, g);
    }
}

pub proof fn lemma_sum_split(a: int, b: int, g: spec_fn(int) -> int)
    requires
        a >= 0,
        b >= 0,
    ensures
        sum(a + b, g) == sum(a, g) + sum(b, |j: int| g(a + j)),
    decreases b,
{
    if b > 0 {
        lemma_sum_split(a, b - 1, g);
    }
}

/// Summing a row-major grid row by row.
pub proof fn lemma_sum_rows(r: int, c: int, g: spec_fn(int) -> int)
    requires
        r >= 0,
        c >= 0,
    ensures
        sum(r * c, g) == sum(r, |i: int| sum(c, |j: int| g(i * c + j))),
    decreases r,
{
    if r > 0 {
        lemma_sum_rows(r - 1, c, g);
        assert(r * c == (r - 1) * c + c) by (nonlinear_arith);
        assert((r - 1) * c >= 0) by (nonlinear_arith)
            requires
                r >= 1,
                c >= 0,
        ;
        lemma_sum_split((r - 1) * c, c, g);
        let rows = |i: int| sum(c, |j: int| g(i * c + j));
        assert(rows(r - 1) == sum(c, |j: int| g((r - 1) * c + j)));
        assert(sum(r, rows) == sum(r - 1, rows) + rows(r - 1));
        assert(sum((r - 1) * c, g) == sum(r - 1, rows));
        assert(sum(r * c, g) == sum((r - 1) * c + c, g));
        assert(sum((r - 1) * c + c, g) == sum((r - 1) * c, g) + sum(c, |j: int| g((r - 1) * c + j)));
        assert(sum(r * c, g) == sum(r, rows));
    } else {
        assert(r * c == 0) by (nonlinear_arith)
            requires
                r == 0,
        ;
    }
}

/// Summing a grid by rows or by columns gives the same.
pub proof fn lemma_sum_swap(r: int, c: int, f: spec_fn(int, int) -> int)
    requires
        r >= 0,
    ensures
        sum(r, |i: int| sum(c, |j: int| f(i, j))) == sum(c, |j: int| sum(r, |i: int| f(i, j))),
    decreases r,
{
    if r > 0 {
        lemma_sum_swap(r - 1, c, f);
        let a = |j: int| sum(r - 1, |i: int| f(i, j));
        let b = |j: int| f(r - 1, j);
        lemma_sum_add(c, a, b);
        let lhs = |i: int| sum(c, |j: int| f(i, j));
        assert(sum(r, lhs) == sum(r - 1, lhs) + lhs(r - 1));
        assert(lhs(r - 1) == sum(c, b));
        let colsum = |j: int| sum(r, |i: int| f(i, j));
        let ab = |j: int| a(j) + b(j);
        assert forall|j: int| 0 <= j < c implies #[trigger] colsum(j) == ab(j) by {
            let col = |i: int| f(i, j);
            assert(sum(r, col) == sum(r - 1, col) + col(r - 1));
        }
        lemma_sum_ext(c, colsum, ab);
        assert(sum(r - 1, lhs) == sum(c, a));
        assert(sum(c, ab) == sum(c, a) + sum(c, b));
        assert(sum(r, lhs) == sum(c, colsum));
    } else {
        lemma_sum_zero(c, |j: int| sum(r, |i: int| f(i, j)));
    }
}

pub proof fn lemma_occupied_sum(s: Seq<Option<Piece>>)
    ensures
        occupied(s) == sum(s.len() as int, |k: int| ind(s[k])),
    decreases s.len(),
{
    if s.len() > 0 {
        let p = s.drop_last();
        lemma_occupied_sum(p);
        lemma_sum_ext(p.len() as int, |k: int| ind(p[k]), |k: int| ind(s[k]));
    }
}

/// Occupied cells over the first `n` lines of a board in direction `dir`.
pub open spec fn lines_occupied(cells: Seq<Option<Piece>>, size: int, dir: Direction, n: int) -> nat
    decreases n,
{
    if n <= 0 {
        0
    } else {
        lines_occupied(cells, size, dir, n - 1) + occupied(board_line(cells, size, dir, n - 1))
    }
}

proof fn lemma_lines_occupied_sum(cells: Seq<Option<Piece>>, size: int, dir: Direction, n: int)
    ensures
        lines_occupied(cells, size, dir, n) == sum(n, |l: int| occupied(board_line(cells, size, dir, l)) as int),
    decreases n,
{
    if n > 0 {
        lemma_lines_occupied_sum(cells, size, dir, n - 1);
    }
}

/// The lines of any direction hold, together, every occupied cell of the
/// board once.
pub proof fn lemma_lines_cover_board(cells: Seq<Option<Piece>>, size: int, dir: Direction)
    requires
        size >= 1,
        cells.len() == size * size,
    ensures
        lines_occupied(cells, size, dir, size) == occupied(cells),
{
    let f = |r: int, c: int| ind(cells[cell_index(r, c, size)]);
    let rows = |i: int| sum(size, |j: int| f(i, j));
    let cols = |j: int| sum(size, |i: int| f(i, j));
    let g = |k: int| ind(cells[k]);
    lemma_occupied_sum(cells);
    assert(occupied(cells) == sum(size * size, g));
    lemma_sum_rows(size, size, g);
    let flat_rows = |i: int| sum(size, |j: int| g(i * size + j));
    assert(sum(size * size, g) == sum(size, flat_rows));
    assert forall|i: int| 0 <= i < size implies #[trigger] flat_rows(i) == rows(i) by {
        lemma_sum_ext(size, |j: int| g(i * size + j), |j: int| f(i, j));
    }
    lemma_sum_ext(size, flat_rows, rows);
    assert(occupied(cells) == sum(size, rows));
    lemma_sum_swap(size, size, f);
    assert(sum(size, rows) == sum(size, cols));
    lemma_lines_occupied_sum(cells, size, dir, size);
    let per_line = |l: int| occupied(board_line(cells, size, dir, l)) as int;
    assert forall|l: int| 0 <= l < size implies #[trigger] per_line(l) == match dir {
        Direction::Up | Direction::Down => cols(l),
        Direction::Left | Direction::Right => rows(l),
    } by {
        let line = board_line(cells, size, dir, l);
        lemma_occupied_sum(line);
        match dir {
            Direction::Up => {
                lemma_sum_ext(size, |k: int| ind(line[k]), |i: int| f(i, l));
            },
            Direction::Down => {
                lemma_sum_ext(size, |k: int| ind(line[k]), |k: int| (|i: int| f(i, l))(size - 1 - k));
                lemma_sum_reverse(size, |i: int| f(i, l));
            },
            Direction::Left => {
                lemma_sum_ext(size, |k: int| ind(line[k]), |j: int| f(l, j));
            },
            Direction::Right => {
                lemma_sum_ext(size, |k: int| ind(line[k]), |k: int| (|j: int| f(l, j))(size - 1 - k));
                lemma_sum_reverse(size, |j: int| f(l, j));
            },
        }
    }
    match dir {
        Direction::Up | Direction::Down => {
            lemma_sum_ext(size, per_line, cols);
        },
        Direction::Left | Direction::Right => {
            lemma_sum_ext(size, per_line, rows);
        },
    }
}

} // verus!
