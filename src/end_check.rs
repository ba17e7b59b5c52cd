//! The end condition: no empty cell and no two orthogonal neighbours of
//! equal value.
use vstd::prelude::*;
use crate::board::{cell_index, lemma_index_bound, Board, Piece, MAX_SIZE};

verus! {

pub open spec fn value_at(cells: Seq<Option<Piece>>, size: int, row: int, col: int) -> u64 {
    cells[cell_index(row, col, size)]->Some_0.value
}

pub open spec fn full(cells: Seq<Option<Piece>>) -> bool {
    forall|i: int| 0 <= i < cells.len() ==> #[trigger] cells[i] is Some
}

/// No cell has a right or lower neighbour of the same value.
pub open spec fn no_adjacent_equal(cells: Seq<Option<Piece>>, size: int) -> bool {
    forall|r: int, c: int|
        0 <= r < size && 0 <= c < size ==> {
            &&& (c + 1 < size ==> #[trigger] value_at(cells, size, r, c) != value_at(cells, size, r, c + 1))
            &&& (r + 1 < size ==> value_at(cells, size, r, c) != value_at(cells, size, r + 1, c))
        }
}

/// The board is terminal: full, with no move left.
pub open spec fn game_over(cells: Seq<Option<Piece>>, size: int) -> bool {
    full(cells) && no_adjacent_equal(cells, size)
}

/// Whether the board has reached the end condition.
pub fn check_game_end(board: &Board) -> (r: bool)
    requires
        board.wf(),
    ensures
        r == game_over(board@, board.size as int),
{
    if !board.is_full() {
        return false;
    }
    let size = board.size;
    let ghost s = size as int;
    let mut r: usize = 0;
    while r < size
        invariant
            board.wf(),
            size == board.size,
            s == size,
            r <= size,
            full(board@),
            forall|r2: int, c: int|
                0 <= r2 < r && 0 <= c < size ==> {
                    &&& (c + 1 < size ==> #[trigger] value_at(board@, s, r2, c) != value_at(board@, s, r2, c + 1))
                    &&& (r2 + 1 < size ==> value_at(board@, s, r2, c) != value_at(board@, s, r2 + 1, c))
                },
        decreases size - r,
    {
        let mut c: usize = 0;
        while c < size
            invariant
                board.wf(),
                size == board.size,
                s == size,
                r < size,
                c <= size,
                full(board@),
                forall|r2: int, c2: int|
                    (0 <= r2 < r && 0 <= c2 < size) || (r2 == r && 0 <= c2 < c) ==> {
                        &&& (c2 + 1 < size ==> #[trigger] value_at(board@, s, r2, c2) != value_at(board@, s, r2, c2 + 1))
                        &&& (r2 + 1 < size ==> value_at(board@, s, r2, c2) != value_at(board@, s, r2 + 1, c2))
                    },
            decreases size - c,
        {
            let here = board.get(crate::board::Pos { row: r, col: c });
            proof {
                lemma_index_bound(r as int, c as int, s);
            }
            let v = match here {
                Some(p) => p.value,
                None => 0,
            };
            if c + 1 < size {
                proof {
                    lemma_index_bound(r as int, c + 1, s);
                }
                let right = board.get(crate::board::Pos { row: r, col: c + 1 });
                if let Some(q) = right {
                    if q.value == v {
                        assert(value_at(board@, s, r as int, c as int) == value_at(board@, s, r as int, c + 1));
                        return false;
                    }
                }
            }
            if r + 1 < size {
                proof {
                    lemma_index_bound(r + 1, c as int, s);
                }
                let below = board.get(crate::board::Pos { row: r + 1, col: c });
                if let Some(q) = below {
                    if q.value == v {
                        assert(value_at(board@, s, r as int, c as int) == value_at(board@, s, r + 1, c as int));
                        return false;
                    }
                }
            }
            c = c + 1;
        }
        r = r + 1;
    }
    true
}

} // verus!
