//! The four move directions and how each one sweeps the board in lines.
use vstd::prelude::*;
use crate::board::{in_board, Pos};

verus! {

/// A direction tiles move toward.
#[derive(Clone, Copy, Debug, PartialEq, Eq, Structural)]
pub enum Direction {
    Up,
    Down,
    Left,
    Right,
}

/// Row of the `k`-th cell, from the leading edge, of line `line` when
/// moving in `dir`.
pub open spec fn line_row(dir: Direction, size: int, line: int, k: int) -> int {
    match dir {
        Direction::Up => k,
        Direction::Down => size - 1 - k,
        Direction::Left => line,
        Direction::Right => line,
    }
}

/// Column of the `k`-th cell, from the leading edge, of line `line` when
/// moving in `dir`.
pub open spec fn line_col(dir: Direction, size: int, line: int, k: int) -> int {
    match dir {
        Direction::Up => line,
        Direction::Down => line,
        Direction::Left => k,
        Direction::Right => size - 1 - k,
    }
}

pub open spec fn line_pos(dir: Direction, size: int, line: int, k: int) -> Pos {
    Pos { row: line_row(dir, size, line, k) as usize, col: line_col(dir, size, line, k) as usize }
}

/// The `k`-th cell of line `line`, counted from the edge tiles move toward.
/// Up scans each column from the top, Down from the bottom, Left scans
/// each row from the left, Right from the right.
pub fn line_cell(dir: Direction, size: usize, line: usize, k: usize) -> (p: Pos)
    requires
        line < size,
        k < size,
    ensures
        p == line_pos(dir, size as int, line as int, k as int),
        in_board(p, size as int),
{
    match dir {
        Direction::Up => Pos { row: k, col: line },
        Direction::Down => Pos { row: size - 1 - k, col: line },
        Direction::Left => Pos { row: line, col: k },
        Direction::Right => Pos { row: line, col: size - 1 - k },
    }
}

/// Different (line, slot) pairs of one direction are different cells.
pub proof fn lemma_line_pos_injective(dir: Direction, size: int, l1: int, k1: int, l2: int, k2: int)
    requires
        0 <= l1 < size,
        0 <= k1 < size,
        0 <= l2 < size,
        0 <= k2 < size,
        l1 != l2 || k1 != k2,
        size <= usize::MAX,
    ensures
        line_pos(dir, size, l1, k1) != line_pos(dir, size, l2, k2),
        in_board(line_pos(dir, size, l1, k1), size),
{
    match dir {
        Direction::Up => {},
        Direction::Down => {},
        Direction::Left => {},
        Direction::Right => {},
    }
}

} // verus!
