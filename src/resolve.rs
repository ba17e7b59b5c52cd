//! The move resolver: how one line compacts and merges toward its leading
//! edge, and how a whole board does so in a given direction.
use vstd::prelude::*;
use crate::board::{cell_index, in_board, lemma_index_bound, occupied, valid_cells, valid_value, Board, Piece, Pos, MAX_MERGEABLE, MAX_SIZE, MAX_TILE};
use crate::direction::{lemma_line_pos_injective, line_cell, line_col, line_pos, line_row, Direction};

verus! {

/// What happens to one tile of a line: it goes to slot `to` of the line
/// (counted from the leading edge), and, when `survivor` is set, is
/// absorbed there into that tile.
#[derive(Clone, Copy, Debug, PartialEq, Eq, Structural)]
pub struct LineMove {
    pub tile: u64,
    pub value: u64,
    pub from: usize,
    pub to: usize,
    pub survivor: Option<u64>,
}

/// A tile placed at the front of a line during a move, and whether it has
/// already taken part in a merge this move.
#[derive(Clone, Copy, Debug, PartialEq, Eq, Structural)]
pub struct Slot {
    pub piece: Piece,
    pub merged: bool,
}

/// An incoming tile merges into the last placed one when their values are
/// equal, the placed one has not merged yet this move, and the doubled
/// value stays within `MAX_TILE`.
pub open spec fn can_merge(top: Slot, p: Piece) -> bool {
    top.piece.value == p.value && !top.merged && p.value <= MAX_MERGEABLE
}

/// The compaction stack, the moves and the score gain after scanning
/// `line` from its leading edge.
pub open spec fn scan(line: Seq<Option<Piece>>) -> (Seq<Slot>, Seq<LineMove>, nat)
    decreases line.len(),
{
    if line.len() == 0 {
        (seq![], seq![], 0)
    } else {
        let (st, mv, g) = scan(line.drop_last());
        let k = (line.len() - 1) as usize;
        match line.last() {
            None => (st, mv, g),
            Some(p) => if st.len() > 0 && can_merge(st.last(), p) {
                let top = st.last();
                let n = (st.len() - 1) as usize;
                (
                    st.update(n as int, Slot { piece: Piece { id: top.piece.id, value: (2 * p.value) as u64 }, merged: true }),
                    mv.push(LineMove { tile: p.id, value: p.value, from: k, to: n, survivor: Some(top.piece.id) }),
                    (g + 2 * p.value) as nat,
                )
            } else {
                (
                    st.push(Slot { piece: p, merged: false }),
                    mv.push(LineMove { tile: p.id, value: p.value, from: k, to: st.len() as usize, survivor: None }),
                    g,
                )
            },
        }
    }
}

pub open spec fn line_stack(line: Seq<Option<Piece>>) -> Seq<Slot> {
    scan(line).0
}

pub open spec fn line_moves(line: Seq<Option<Piece>>) -> Seq<LineMove> {
    scan(line).1
}

pub open spec fn line_gain(line: Seq<Option<Piece>>) -> nat {
    scan(line).2
}

/// The line once every tile has reached its slot: the placed tiles first,
/// then empty cells.
pub open spec fn settled_line(line: Seq<Option<Piece>>) -> Seq<Option<Piece>> {
    Seq::new(
        line.len(),
        |k: int|
            if k < line_stack(line).len() {
                Some(line_stack(line)[k].piece)
            } else {
                None
            },
    )
}

/// Number of moves that merge a tile into another.
pub open spec fn merge_count(mv: Seq<LineMove>) -> nat
    decreases mv.len(),
{
    if mv.len() == 0 {
        0
    } else {
        merge_count(mv.drop_last()) + if mv.last().survivor is Some { 1nat } else { 0nat }
    }
}

pub proof fn lemma_scan_bounds(line: Seq<Option<Piece>>)
    requires
        valid_cells(line),
        line.len() <= MAX_SIZE,
    ensures
        line_stack(line).len() <= line.len(),
        line_moves(line).len() == occupied(line),
        line_stack(line).len() + merge_count(line_moves(line)) == occupied(line),
        forall|t: int| 0 <= t < line_stack(line).len() ==> valid_value(#[trigger] line_stack(line)[t].piece.value),
        line_gain(line) <= line.len() * MAX_TILE,
        forall|j: int|
            0 <= j < line_moves(line).len() ==> (#[trigger] line_moves(line)[j]).from < line.len()
                && line_moves(line)[j].to < line_stack(line).len()
                && valid_value(line_moves(line)[j].value)
                && (line_moves(line)[j].survivor is Some ==> line_moves(line)[j].value <= MAX_MERGEABLE),
    decreases line.len(),
{
    if line.len() > 0 {
        let p = line.drop_last();
        assert(valid_cells(p)) by {
            assert forall|i: int| 0 <= i < p.len() && (#[trigger] p[i]) is Some implies valid_value(p[i]->Some_0.value) by {
                assert(line[i] == p[i]);
            }
        }
        lemma_scan_bounds(p);
        let st = line_stack(p);
        let mv = line_moves(p);
        if let Some(x) = line.last() {
            assert(line[line.len() - 1] is Some);
            assert(line_moves(line).drop_last() == mv);
            if st.len() > 0 && can_merge(st.last(), x) {
                crate::board::lemma_double_valid(x.value);
            }
        }
    }
}

/// Resolves one line, given in scan order from its leading edge: the
/// moves of its tiles, the score gain, and the line once settled.
pub fn resolve_line(line: &Vec<Option<Piece>>) -> (r: (Vec<LineMove>, u64, Vec<Option<Piece>>))
    requires
        valid_cells(line@),
        line@.len() <= MAX_SIZE,
    ensures
        r.0@ == line_moves(line@),
        r.1 == line_gain(line@),
        r.2@ == settled_line(line@),
{
    let n = line.len();
    let mut stack: Vec<Slot> = Vec::new();
    let mut moves: Vec<LineMove> = Vec::new();
    let mut gain: u64 = 0;
    let mut k: usize = 0;
    while k < n
        invariant
            n == line@.len(),
            n <= MAX_SIZE,
            k <= n,
            valid_cells(line@),
            stack@ == line_stack(line@.take(k as int)),
            moves@ == line_moves(line@.take(k as int)),
            gain == line_gain(line@.take(k as int)),
        decreases n - k,
    {
        let ghost pre = line@.take(k as int);
        assert(line@.take(k + 1).drop_last() == pre);
        assert(valid_cells(pre)) by {
            assert forall|i: int| 0 <= i < pre.len() && (#[trigger] pre[i]) is Some implies valid_value(pre[i]->Some_0.value) by {
                assert(line@[i] == pre[i]);
            }
        }
        proof {
            lemma_scan_bounds(pre);
        }
        if let Some(p) = line[k] {
            let len = stack.len();
            if len > 0 && stack[len - 1].piece.value == p.value && !stack[len - 1].merged
                && p.value <= MAX_MERGEABLE {
                let top = stack[len - 1];
                let doubled = 2 * p.value;
                stack.set(len - 1, Slot { piece: Piece { id: top.piece.id, value: doubled }, merged: true });
                moves.push(LineMove { tile: p.id, value: p.value, from: k, to: len - 1, survivor: Some(top.piece.id) });
                assert(gain <= k * MAX_TILE);
                assert(k * MAX_TILE <= MAX_SIZE * MAX_TILE) by (nonlinear_arith)
                    requires
                        k <= MAX_SIZE,
                ;
                gain = gain + doubled;
            } else {
                moves.push(LineMove { tile: p.id, value: p.value, from: k, to: len, survivor: None });
                stack.push(Slot { piece: p, merged: false });
            }
        }
        k = k + 1;
    }
    assert(line@.take(n as int) == line@);
    let mut settled: Vec<Option<Piece>> = Vec::new();
    let mut j: usize = 0;
    proof {
        lemma_scan_bounds(line@);
    }
    while j < n
        invariant
            j <= n,
            n == line@.len(),
            stack@ == line_stack(line@),
            stack@.len() <= n,
            settled@ == settled_line(line@).take(j as int),
        decreases n - j,
    {
        if j < stack.len() {
            settled.push(Some(stack[j].piece));
        } else {
            settled.push(None);
        }
        j = j + 1;
        assert(settled@ =~= settled_line(line@).take(j as int));
    }
    assert(settled@ =~= settled_line(line@));
    (moves, gain, settled)
}


/// Where a tile goes in a move: it slides to a cell, or it slides there
/// and is absorbed into the surviving tile `survivor`.
#[derive(Clone, Copy, Debug, PartialEq, Eq, Structural)]
pub enum MoveType {
    Slide(Pos),
    MergeInto(Pos, u64),
}

/// The instruction a move gives one tile: its identity, its value at the
/// start of the move, the cell it starts from, and where it goes.
#[derive(Clone, Copy, Debug, PartialEq, Eq, Structural)]
pub struct Instruction {
    pub tile: u64,
    pub value: u64,
    pub from: Pos,
    pub kind: MoveType,
}

/// Line `l` of the board for a move in `dir`, in scan order.
pub open spec fn board_line(cells: Seq<Option<Piece>>, size: int, dir: Direction, l: int) -> Seq<
    Option<Piece>,
> {
    Seq::new(
        size as nat,
        |k: int| cells[cell_index(line_row(dir, size, l, k), line_col(dir, size, l, k), size)],
    )
}

pub open spec fn to_instruction(m: LineMove, size: int, dir: Direction, l: int) -> Instruction {
    let to = line_pos(dir, size, l, m.to as int);
    Instruction {
        tile: m.tile,
        value: m.value,
        from: line_pos(dir, size, l, m.from as int),
        kind: match m.survivor {
            None => MoveType::Slide(to),
            Some(s) => MoveType::MergeInto(to, s),
        },
    }
}

pub open spec fn line_instructions(cells: Seq<Option<Piece>>, size: int, dir: Direction, l: int) -> Seq<
    Instruction,
> {
    line_moves(board_line(cells, size, dir, l)).map_values(|m: LineMove| to_instruction(m, size, dir, l))
}

/// The instructions of the first `n` lines of a move, line after line.
pub open spec fn move_instructions(cells: Seq<Option<Piece>>, size: int, dir: Direction, n: int) -> Seq<
    Instruction,
>
    decreases n,
{
    if n <= 0 {
        seq![]
    } else {
        move_instructions(cells, size, dir, n - 1) + line_instructions(cells, size, dir, n - 1)
    }
}

/// The score gain of the first `n` lines of a move.
pub open spec fn move_gain(cells: Seq<Option<Piece>>, size: int, dir: Direction, n: int) -> nat
    decreases n,
{
    if n <= 0 {
        0
    } else {
        move_gain(cells, size, dir, n - 1) + line_gain(board_line(cells, size, dir, n - 1))
    }
}

/// Number of merges over the first `n` lines of a move.
pub open spec fn move_merges(cells: Seq<Option<Piece>>, size: int, dir: Direction, n: int) -> nat
    decreases n,
{
    if n <= 0 {
        0
    } else {
        move_merges(cells, size, dir, n - 1) + merge_count(line_moves(board_line(cells, size, dir, n - 1)))
    }
}

/// The outcome of resolving a move: one instruction per tile, the score
/// gain, and the board as it stands once every instruction is carried out.
pub struct MoveOutcome {
    pub instructions: Vec<Instruction>,
    pub gain: u64,
    pub settled: Board,
}

pub proof fn lemma_board_line_valid(b: &Board, dir: Direction, l: int)
    requires
        b.wf(),
        0 <= l < b.size,
    ensures
        valid_cells(board_line(b@, b.size as int, dir, l)),
        board_line(b@, b.size as int, dir, l).len() == b.size,
{
    let s = b.size as int;
    let line = board_line(b@, s, dir, l);
    assert forall|k: int| 0 <= k < line.len() && (#[trigger] line[k]) is Some implies valid_value(line[k]->Some_0.value) by {
        lemma_index_bound(line_row(dir, s, l, k), line_col(dir, s, l, k), s);
    }
}

/// Two different cells of a board have different storage indices.
pub proof fn lemma_index_injective(r1: int, c1: int, r2: int, c2: int, size: int)
    requires
        0 <= r1 < size,
        0 <= c1 < size,
        0 <= r2 < size,
        0 <= c2 < size,
        r1 != r2 || c1 != c2,
    ensures
        cell_index(r1, c1, size) != cell_index(r2, c2, size),
{
    if r1 == r2 {
    } else if r1 < r2 {
        assert(r1 * size + size <= r2 * size) by (nonlinear_arith)
            requires
                r1 < r2,
                size >= 0,
        ;
    } else {
        assert(r2 * size + size <= r1 * size) by (nonlinear_arith)
            requires
                r2 < r1,
                size >= 0,
        ;
    }
}

pub proof fn lemma_line_pos_index(dir: Direction, size: int, l: int, k: int)
    requires
        0 <= l < size,
        0 <= k < size,
        size <= MAX_SIZE,
    ensures
        in_board(line_pos(dir, size, l, k), size),
        0 <= cell_index(line_pos(dir, size, l, k).row as int, line_pos(dir, size, l, k).col as int, size) < size * size,
{
    let p = line_pos(dir, size, l, k);
    match dir {
        Direction::Up => {},
        Direction::Down => {},
        Direction::Left => {},
        Direction::Right => {},
    }
    lemma_index_bound(p.row as int, p.col as int, size);
}

/// What every instruction of a move satisfies: a valid value, both cells
/// on the board, and a merging tile small enough to be doubled.
pub open spec fn instruction_ok(ins: Instruction, size: int) -> bool {
    &&& valid_value(ins.value)
    &&& in_board(ins.from, size)
    &&& match ins.kind {
        MoveType::Slide(to) => in_board(to, size),
        MoveType::MergeInto(to, _) => in_board(to, size) && ins.value <= MAX_MERGEABLE,
    }
}

/// Resolves a move of the whole board in `dir`, line after line.
pub fn resolve_move(board: &Board, dir: Direction) -> (r: MoveOutcome)
    requires
        board.wf(),
    ensures
        r.instructions@ == move_instructions(board@, board.size as int, dir, board.size as int),
        r.gain == move_gain(board@, board.size as int, dir, board.size as int),
        forall|i: int| 0 <= i < r.instructions@.len() ==> instruction_ok(#[trigger] r.instructions@[i], board.size as int),
        r.settled.wf(),
        r.settled.size == board.size,
        forall|l: int, k: int|
            0 <= l < board.size && 0 <= k < board.size ==> #[trigger] r.settled.at(
                line_pos(dir, board.size as int, l, k),
            ) == settled_line(board_line(board@, board.size as int, dir, l))[k],
{
    let size = board.size;
    let ghost s = size as int;
    let mut instructions: Vec<Instruction> = Vec::new();
    let mut gain: u64 = 0;
    let mut settled = Board::new(size);
    let mut l: usize = 0;
    assert forall|l2: int, k: int|
        l <= l2 < size && 0 <= k < size implies #[trigger] settled.at(line_pos(dir, s, l2, k)) is None by {
        lemma_line_pos_index(dir, s, l2, k);
    }
    while l < size
        invariant
            board.wf(),
            size == board.size,
            s == size,
            l <= size,
            settled.wf(),
            settled.size == size,
            instructions@ == move_instructions(board@, s, dir, l as int),
            forall|i: int| 0 <= i < instructions@.len() ==> instruction_ok(#[trigger] instructions@[i], s),
            gain == move_gain(board@, s, dir, l as int),
            gain <= l * size * MAX_TILE,
            forall|l2: int, k: int|
                0 <= l2 < l && 0 <= k < size ==> #[trigger] settled.at(line_pos(dir, s, l2, k))
                    == settled_line(board_line(board@, s, dir, l2))[k],
            forall|l2: int, k: int|
                l <= l2 < size && 0 <= k < size ==> #[trigger] settled.at(line_pos(dir, s, l2, k))
                    is None,
        decreases size - l,
    {
        let ghost bl = board_line(board@, s, dir, l as int);
        let mut line: Vec<Option<Piece>> = Vec::new();
        let mut k: usize = 0;
        while k < size
            invariant
                board.wf(),
                settled.wf(),
                settled.size == size,
                size == board.size,
                s == size,
                l < size,
                k <= size,
                forall|l2: int, k2: int|
                    0 <= l2 < l && 0 <= k2 < size ==> #[trigger] settled.at(line_pos(dir, s, l2, k2))
                        == settled_line(board_line(board@, s, dir, l2))[k2],
                forall|l2: int, k2: int|
                    l <= l2 < size && 0 <= k2 < size ==> #[trigger] settled.at(line_pos(dir, s, l2, k2))
                        is None,
                bl == board_line(board@, s, dir, l as int),
                line@ == bl.take(k as int),
            decreases size - k,
        {
            let p = line_cell(dir, size, l, k);
            let c = board.get(p);
            line.push(c);
            k = k + 1;
            assert(line@ =~= bl.take(k as int));
        }
        assert(line@ =~= bl);
        proof {
            lemma_board_line_valid(board, dir, l as int);
            lemma_scan_bounds(bl);
        }
        let (moves, line_gain_v, settled_line_v) = resolve_line(&line);
        let mut k: usize = 0;
        while k < size
            invariant
                board.wf(),
                size == board.size,
                s == size,
                l < size,
                k <= size,
                settled.wf(),
                settled.size == size,
                settled_line_v@ == settled_line(bl),
                bl == board_line(board@, s, dir, l as int),
                forall|t: int| 0 <= t < line_stack(bl).len() ==> valid_value(#[trigger] line_stack(bl)[t].piece.value),
                forall|l2: int, k2: int|
                    0 <= l2 < l && 0 <= k2 < size ==> #[trigger] settled.at(line_pos(dir, s, l2, k2))
                        == settled_line(board_line(board@, s, dir, l2))[k2],
                forall|k2: int|
                    0 <= k2 < k ==> #[trigger] settled.at(line_pos(dir, s, l as int, k2))
                        == settled_line(bl)[k2],
                forall|l2: int, k2: int|
                    l <= l2 < size && 0 <= k2 < size && (l2 != l || k2 >= k) ==> #[trigger] settled.at(line_pos(dir, s, l2, k2))
                        is None,
            decreases size - k,
        {
            let p = line_cell(dir, size, l, k);
            let c = settled_line_v[k];
            let ghost prev = settled;
            settled.set(p, c);
            proof {
                assert forall|l2: int, k2: int|
                    0 <= l2 < size && 0 <= k2 < size && (l2 != l || k2 != k) implies
                    #[trigger] settled.at(line_pos(dir, s, l2, k2)) == prev.at(line_pos(dir, s, l2, k2)) by {
                    lemma_line_pos_injective(dir, s, l as int, k as int, l2, k2);
                    lemma_line_pos_index(dir, s, l2, k2);
                    lemma_line_pos_index(dir, s, l as int, k as int);
                    let q = line_pos(dir, s, l2, k2);
                    assert(p != q);
                    assert(p.row != q.row || p.col != q.col);
                    lemma_index_injective(p.row as int, p.col as int, q.row as int, q.col as int, s);
                }
                lemma_line_pos_index(dir, s, l as int, k as int);
                assert(settled.at(line_pos(dir, s, l as int, k as int)) == settled_line(bl)[k as int]);
            }
            k = k + 1;
        }
        let ghost before = instructions@;
        let mut j: usize = 0;
        while j < moves.len()
            invariant
                l < size,
                s == size,
                size <= MAX_SIZE,
                moves@ == line_moves(bl),
                forall|j2: int| 0 <= j2 < moves@.len() ==> (#[trigger] moves@[j2]).from < size && moves@[j2].to < size
                    && valid_value(moves@[j2].value)
                    && (moves@[j2].survivor is Some ==> moves@[j2].value <= MAX_MERGEABLE),
                forall|i: int| 0 <= i < instructions@.len() ==> instruction_ok(#[trigger] instructions@[i], s),
                j <= moves@.len(),
                instructions@ == before + moves@.take(j as int).map_values(
                    |m: LineMove| to_instruction(m, s, dir, l as int),
                ),
            decreases moves@.len() - j,
        {
            let m = moves[j];
            let from = line_cell(dir, size, l, m.from);
            let to = line_cell(dir, size, l, m.to);
            let kind = match m.survivor {
                None => MoveType::Slide(to),
                Some(sv) => MoveType::MergeInto(to, sv),
            };
            instructions.push(Instruction { tile: m.tile, value: m.value, from, kind });
            j = j + 1;
            assert(moves@.take(j as int) =~= moves@.take(j - 1).push(m));
            assert(instructions@ =~= before + moves@.take(j as int).map_values(
                |m: LineMove| to_instruction(m, s, dir, l as int),
            ));
        }
        assert(moves@.take(j as int) =~= moves@);
        assert(gain + line_gain_v <= (l + 1) * size * MAX_TILE) by (nonlinear_arith)
            requires
                gain <= l * size * MAX_TILE,
                line_gain_v <= size * MAX_TILE,
        ;
        assert((l + 1) * size * MAX_TILE <= MAX_SIZE * MAX_SIZE * MAX_TILE) by (nonlinear_arith)
            requires
                l < size,
                size <= MAX_SIZE,
        ;
        gain = gain + line_gain_v;
        l = l + 1;
    }
    MoveOutcome { instructions, gain, settled }
}

} // verus!
