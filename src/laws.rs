//! Properties of a move that hold for every line and every board.
use vstd::prelude::*;
use crate::board::{occupied, valid_cells, Board, Piece, MAX_SIZE};
use crate::counting::{lemma_lines_cover_board, lines_occupied};
use crate::direction::Direction;
use crate::resolve::{
    board_line, lemma_scan_bounds, line_gain, line_moves, line_stack, merge_count, move_gain,
    move_merges, scan, settled_line, LineMove, Slot,
};

verus! {

/// Sum of the values that the merges of `mv` create.
pub open spec fn merged_sum(mv: Seq<LineMove>) -> nat
    decreases mv.len(),
{
    if mv.len() == 0 {
        0
    } else {
        merged_sum(mv.drop_last()) + if mv.last().survivor is Some {
            (2 * mv.last().value) as nat
        } else {
            0nat
        }
    }
}

/// Occupied cells over the first `n` lines once the move has settled.
pub open spec fn settled_occupied(cells: Seq<Option<Piece>>, size: int, dir: Direction, n: int) -> nat
    decreases n,
{
    if n <= 0 {
        0
    } else {
        settled_occupied(cells, size, dir, n - 1) + occupied(
            settled_line(board_line(cells, size, dir, n - 1)),
        )
    }
}

proof fn lemma_occupied_prefix(s: Seq<Option<Piece>>, m: int)
    requires
        0 <= m <= s.len(),
        forall|k: int| 0 <= k < s.len() ==> (#[trigger] s[k] is Some <==> k < m),
    ensures
        occupied(s) == m,
    decreases s.len(),
{
    if s.len() > 0 {
        let p = s.drop_last();
        if m == s.len() {
            lemma_occupied_prefix(p, m - 1);
        } else {
            lemma_occupied_prefix(p, m);
        }
    }
}

/// A settled line holds as many tiles as the line before the move, less
/// one for each merge.
pub proof fn lemma_line_occupancy(line: Seq<Option<Piece>>)
    requires
        valid_cells(line),
        line.len() <= MAX_SIZE,
    ensures
        occupied(settled_line(line)) + merge_count(line_moves(line)) == occupied(line),
{
    lemma_scan_bounds(line);
    lemma_occupied_prefix(settled_line(line), line_stack(line).len() as int);
}

/// Summed over the lines of a move, the settled board holds as many tiles
/// as before, less one for each merge.
pub proof fn lemma_move_occupancy(cells: Seq<Option<Piece>>, size: int, dir: Direction, n: int)
    requires
        1 <= size <= MAX_SIZE,
        0 <= n <= size,
        cells.len() == size * size,
        valid_cells(cells),
    ensures
        settled_occupied(cells, size, dir, n) + move_merges(cells, size, dir, n) == lines_occupied(
            cells,
            size,
            dir,
            n,
        ),
    decreases n,
{
    if n > 0 {
        lemma_move_occupancy(cells, size, dir, n - 1);
        let line = board_line(cells, size, dir, n - 1);
        assert(valid_cells(line)) by {
            assert forall|k: int| 0 <= k < line.len() && (#[trigger] line[k]) is Some implies crate::board::valid_value(line[k]->Some_0.value) by {
                crate::resolve::lemma_line_pos_index(dir, size, n - 1, k);
            }
        }
        lemma_line_occupancy(line);
    }
}

proof fn lemma_settled_lines(b: &Board, dir: Direction, settled: &Board, n: int)
    requires
        b.wf(),
        settled.wf(),
        settled.size == b.size,
        0 <= n <= b.size,
        forall|l: int, k: int|
            0 <= l < b.size && 0 <= k < b.size ==> #[trigger] settled.at(
                crate::direction::line_pos(dir, b.size as int, l, k),
            ) == settled_line(board_line(b@, b.size as int, dir, l))[k],
    ensures
        lines_occupied(settled@, b.size as int, dir, n) == settled_occupied(b@, b.size as int, dir, n),
    decreases n,
{
    if n > 0 {
        let s = b.size as int;
        lemma_settled_lines(b, dir, settled, n - 1);
        let l = n - 1;
        assert forall|k: int| 0 <= k < s implies #[trigger] board_line(settled@, s, dir, l)[k]
            == settled_line(board_line(b@, s, dir, l))[k] by {
            crate::resolve::lemma_line_pos_index(dir, s, l, k);
            assert(settled.at(crate::direction::line_pos(dir, s, l, k)) == settled_line(
                board_line(b@, s, dir, l),
            )[k]);
        }
        assert(board_line(settled@, s, dir, l) =~= settled_line(board_line(b@, s, dir, l)));
    }
}

/// Once a move has settled, the board holds as many tiles as before it,
/// less one for each merge. `settled` is any board that places each line's
/// settled cells as `resolve_move` promises.
pub proof fn lemma_board_occupancy(b: &Board, dir: Direction, settled: &Board)
    requires
        b.wf(),
        settled.wf(),
        settled.size == b.size,
        forall|l: int, k: int|
            0 <= l < b.size && 0 <= k < b.size ==> #[trigger] settled.at(
                crate::direction::line_pos(dir, b.size as int, l, k),
            ) == settled_line(board_line(b@, b.size as int, dir, l))[k],
    ensures
        occupied(settled@) + move_merges(b@, b.size as int, dir, b.size as int) == occupied(b@),
{
    let s = b.size as int;
    lemma_move_occupancy(b@, s, dir, s);
    lemma_settled_lines(b, dir, settled, s);
    lemma_lines_cover_board(b@, s, dir);
    lemma_lines_cover_board(settled@, s, dir);
}

/// Slots are handed out in scan order without gaps: a tile that does not
/// merge goes to the slot after every tile placed before it, and a merging
/// tile goes to the slot of the tile placed last before it.
pub proof fn lemma_slide_targets(line: Seq<Option<Piece>>)
    requires
        valid_cells(line),
        line.len() <= MAX_SIZE,
    ensures
        forall|j: int|
            0 <= j < line_moves(line).len() ==> (#[trigger] line_moves(line)[j]).to == if line_moves(
                line,
            )[j].survivor is None {
                j - merge_count(line_moves(line).take(j))
            } else {
                j - merge_count(line_moves(line).take(j)) - 1
            },
    decreases line.len(),
{
    if line.len() > 0 {
        let p = line.drop_last();
        assert(valid_cells(p)) by {
            assert forall|i: int| 0 <= i < p.len() && (#[trigger] p[i]) is Some implies crate::board::valid_value(p[i]->Some_0.value) by {
                assert(line[i] == p[i]);
            }
        }
        lemma_slide_targets(p);
        lemma_scan_bounds(p);
        let mv = line_moves(p);
        let mv2 = line_moves(line);
        if line.last() is Some {
            assert(line[line.len() - 1] is Some);
            assert(mv2.drop_last() == mv);
            assert forall|j: int| 0 <= j < mv.len() implies mv2.take(j) == mv.take(j) && mv2[j] == mv[j] by {
                assert(mv2.take(j) =~= mv.take(j));
            }
            assert(mv2.take(mv.len() as int) =~= mv);
        } else {
            assert(scan(line) == scan(p));
        }
    }
}

/// The score gain of a line is the sum of the values its merges create.
pub proof fn lemma_line_gain(line: Seq<Option<Piece>>)
    ensures
        line_gain(line) == merged_sum(line_moves(line)),
    decreases line.len(),
{
    if line.len() > 0 {
        let p = line.drop_last();
        lemma_line_gain(p);
        if line.last() is Some {
            assert(line_moves(line).drop_last() == line_moves(p));
        }
    }
}

/// The score gain of a move is the sum, over its lines, of the values its
/// merges create.
pub open spec fn move_merged_sum(cells: Seq<Option<Piece>>, size: int, dir: Direction, n: int) -> nat
    decreases n,
{
    if n <= 0 {
        0
    } else {
        move_merged_sum(cells, size, dir, n - 1) + merged_sum(line_moves(board_line(cells, size, dir, n - 1)))
    }
}

pub proof fn lemma_move_gain(cells: Seq<Option<Piece>>, size: int, dir: Direction, n: int)
    ensures
        move_gain(cells, size, dir, n) == move_merged_sum(cells, size, dir, n),
    decreases n,
{
    if n > 0 {
        lemma_move_gain(cells, size, dir, n - 1);
        lemma_line_gain(board_line(cells, size, dir, n - 1));
    }
}

/// Every merge joins two tiles of equal value: the surviving tile came to
/// the same slot earlier in the scan with the same value, without merging,
/// and the slot ends up holding the survivor with double that value.
pub proof fn lemma_merge_doubles(line: Seq<Option<Piece>>)
    requires
        valid_cells(line),
        line.len() <= MAX_SIZE,
    ensures
        forall|j: int|
            #![trigger line_moves(line)[j]]
            0 <= j < line_moves(line).len() && line_moves(line)[j].survivor is Some ==> {
                let m = line_moves(line)[j];
                &&& exists|i: int|
                    #![trigger line_moves(line)[i]]
                    0 <= i < j && line_moves(line)[i].tile == m.survivor->Some_0
                        && line_moves(line)[i].survivor is None && line_moves(line)[i].to == m.to
                        && line_moves(line)[i].value == m.value
                &&& line_stack(line)[m.to as int] == Slot {
                    piece: Piece { id: m.survivor->Some_0, value: (2 * m.value) as u64 },
                    merged: true,
                }
            },
        forall|t: int|
            #![trigger line_stack(line)[t]]
            0 <= t < line_stack(line).len() && !line_stack(line)[t].merged ==> exists|i: int|
                #![trigger line_moves(line)[i]]
                0 <= i < line_moves(line).len() && line_moves(line)[i].survivor is None
                    && line_moves(line)[i].to == t && line_moves(line)[i].tile
                    == line_stack(line)[t].piece.id && line_moves(line)[i].value
                    == line_stack(line)[t].piece.value,
    decreases line.len(),
{
    if line.len() > 0 {
        let p = line.drop_last();
        assert(valid_cells(p)) by {
            assert forall|i: int| 0 <= i < p.len() && (#[trigger] p[i]) is Some implies crate::board::valid_value(p[i]->Some_0.value) by {
                assert(line[i] == p[i]);
            }
        }
        lemma_merge_doubles(p);
        lemma_scan_bounds(p);
        lemma_scan_bounds(line);
        let st = line_stack(p);
        let mv = line_moves(p);
        let st2 = line_stack(line);
        let mv2 = line_moves(line);
        if let Some(x) = line.last() {
            assert(line[line.len() - 1] is Some);
            assert(mv2.drop_last() == mv);
            assert forall|i: int| 0 <= i < mv.len() implies mv2[i] == mv[i] by {}
            if st.len() > 0 && crate::resolve::can_merge(st.last(), x) {
                let n = st.len() - 1;
                assert forall|j: int|
                    #![trigger mv2[j]]
                    0 <= j < mv2.len() && mv2[j].survivor is Some implies {
                        let m = mv2[j];
                        &&& exists|i: int|
                            #![trigger mv2[i]]
                            0 <= i < j && mv2[i].tile == m.survivor->Some_0 && mv2[i].survivor is None
                                && mv2[i].to == m.to && mv2[i].value == m.value
                        &&& st2[m.to as int] == Slot {
                            piece: Piece { id: m.survivor->Some_0, value: (2 * m.value) as u64 },
                            merged: true,
                        }
                    } by {
                    if j < mv.len() {
                        assert(mv[j] == mv2[j]);
                        let i = choose|i: int|
                            #![trigger mv[i]]
                            0 <= i < j && mv[i].tile == mv[j].survivor->Some_0 && mv[i].survivor is None
                                && mv[i].to == mv[j].to && mv[i].value == mv[j].value;
                        assert(mv2[i] == mv[i]);
                        assert(st[mv[j].to as int].merged);
                    } else {
                        assert(!st[n].merged);
                        let i = choose|i: int|
                            #![trigger mv[i]]
                            0 <= i < mv.len() && mv[i].survivor is None && mv[i].to == n
                                && mv[i].tile == st[n].piece.id && mv[i].value == st[n].piece.value;
                        assert(mv2[i] == mv[i]);
                    }
                }
                assert forall|t: int|
                    #![trigger st2[t]]
                    0 <= t < st2.len() && !st2[t].merged implies exists|i: int|
                        #![trigger mv2[i]]
                        0 <= i < mv2.len() && mv2[i].survivor is None && mv2[i].to == t
                            && mv2[i].tile == st2[t].piece.id && mv2[i].value == st2[t].piece.value by {
                    assert(st2[t] == st[t]);
                    let i = choose|i: int|
                        #![trigger mv[i]]
                        0 <= i < mv.len() && mv[i].survivor is None && mv[i].to == t
                            && mv[i].tile == st[t].piece.id && mv[i].value == st[t].piece.value;
                    assert(mv2[i] == mv[i]);
                }
            } else {
                assert forall|j: int|
                    #![trigger mv2[j]]
                    0 <= j < mv2.len() && mv2[j].survivor is Some implies {
                        let m = mv2[j];
                        &&& exists|i: int|
                            #![trigger mv2[i]]
                            0 <= i < j && mv2[i].tile == m.survivor->Some_0 && mv2[i].survivor is None
                                && mv2[i].to == m.to && mv2[i].value == m.value
                        &&& st2[m.to as int] == Slot {
                            piece: Piece { id: m.survivor->Some_0, value: (2 * m.value) as u64 },
                            merged: true,
                        }
                    } by {
                    assert(mv[j] == mv2[j]);
                    let i = choose|i: int|
                        #![trigger mv[i]]
                        0 <= i < j && mv[i].tile == mv[j].survivor->Some_0 && mv[i].survivor is None
                            && mv[i].to == mv[j].to && mv[i].value == mv[j].value;
                    assert(mv2[i] == mv[i]);
                }
                assert forall|t: int|
                    #![trigger st2[t]]
                    0 <= t < st2.len() && !st2[t].merged implies exists|i: int|
                        #![trigger mv2[i]]
                        0 <= i < mv2.len() && mv2[i].survivor is None && mv2[i].to == t
                            && mv2[i].tile == st2[t].piece.id && mv2[i].value == st2[t].piece.value by {
                    if t < st.len() {
                        assert(st2[t] == st[t]);
                        let i = choose|i: int|
                            #![trigger mv[i]]
                            0 <= i < mv.len() && mv[i].survivor is None && mv[i].to == t
                                && mv[i].tile == st[t].piece.id && mv[i].value == st[t].piece.value;
                        assert(mv2[i] == mv[i]);
                    } else {
                        assert(mv2[mv.len() as int].to == t);
                    }
                }
            }
        } else {
            assert(scan(line) == scan(p));
        }
    }
}

} // verus!
