//! The turn state machine: one owning context for the board, the live
//! tiles, the pending move instructions, the phase and the score.
use vstd::prelude::*;
use crate::board::{
    cell_index, empty_indices, in_board, lemma_empty_indices, lemma_index_bound,
    lemma_occupied_fill, occupied, valid_value, Board, Piece, Pos, MAX_SIZE,
};
use crate::end_check::{check_game_end, game_over};
use crate::score::ScoreTracker;
use crate::spawn::{random_below, spawn_value};
use crate::resolve::{instruction_ok, move_gain, move_instructions, resolve_move, Instruction, MoveType};
use crate::direction::Direction;
use crate::score::capped_sum;

verus! {

/// Where the turn stands.
#[derive(Clone, Copy, Debug, PartialEq, Eq, Structural)]
pub enum Phase {
    Setup,
    AwaitingInput,
    Animating,
    PostAnimation,
    GameOver,
}

/// A live tile: its identity, its value and the cell it stands on.
#[derive(Clone, Copy, Debug, PartialEq, Eq, Structural)]
pub struct Tile {
    pub id: u64,
    pub value: u64,
    pub pos: Pos,
}

pub open spec fn tile_ok(t: Tile, size: int) -> bool {
    valid_value(t.value) && in_board(t.pos, size)
}

/// The board rebuilt from live tiles: every cell empty, then each tile
/// written on its cell in turn.
pub open spec fn rebuilt(size: int, tiles: Seq<Tile>) -> Seq<Option<Piece>>
    decreases tiles.len(),
{
    if tiles.len() == 0 {
        Seq::new((size * size) as nat, |i: int| None)
    } else {
        let t = tiles.last();
        rebuilt(size, tiles.drop_last()).update(
            cell_index(t.pos.row as int, t.pos.col as int, size),
            Some(Piece { id: t.id, value: t.value }),
        )
    }
}

pub open spec fn next_id_after(id: u64) -> u64 {
    if id == u64::MAX {
        0
    } else {
        (id + 1) as u64
    }
}

pub open spec fn max_u64(a: u64, b: u64) -> u64 {
    if a >= b {
        a
    } else {
        b
    }
}

pub open spec fn min_nat(a: nat, b: nat) -> nat {
    if a <= b {
        a
    } else {
        b
    }
}

/// The `j`-th identity handed out from `start` on.
pub open spec fn fresh_id(start: u64, j: nat) -> u64
    decreases j,
{
    if j == 0 {
        start
    } else {
        next_id_after(fresh_id(start, (j - 1) as nat))
    }
}

/// Phases between turns, where the board is authoritative.
pub open spec fn between_turns(p: Phase) -> bool {
    p == Phase::Setup || p == Phase::AwaitingInput || p == Phase::GameOver
}

/// `e` lists distinct empty cells of `cells`.
pub open spec fn empty_list(e: Seq<usize>, cells: Seq<Option<Piece>>) -> bool {
    &&& forall|k: int| 0 <= k < e.len() ==> (#[trigger] e[k]) < cells.len() && cells[e[k] as int] is None
    &&& forall|k: int, m: int| 0 <= k < m < e.len() ==> e[k] != e[m]
}

/// `j` is the first pending instruction for tile `id`.
pub open spec fn is_first_instr(s: Seq<Instruction>, id: u64, j: int) -> bool {
    &&& 0 <= j < s.len()
    &&& s[j].tile == id
    &&& forall|k: int| 0 <= k < j ==> (#[trigger] s[k]).tile != id
}

/// The live tiles once tile `id` has finished sliding to `to`.
pub open spec fn slid(tiles: Seq<Tile>, id: u64, to: Pos) -> Seq<Tile> {
    tiles.map_values(|t: Tile| if t.id == id { Tile { id: t.id, value: t.value, pos: to } } else { t })
}

/// The live tiles once tile `absorbed` has merged into `survivor`, which
/// now carries `value`.
pub open spec fn after_merge(tiles: Seq<Tile>, absorbed: u64, survivor: u64, value: u64) -> Seq<Tile>
    decreases tiles.len(),
{
    if tiles.len() == 0 {
        seq![]
    } else {
        let rest = after_merge(tiles.drop_last(), absorbed, survivor, value);
        let t = tiles.last();
        if t.id == absorbed {
            rest
        } else if t.id == survivor {
            rest.push(Tile { id: t.id, value, pos: t.pos })
        } else {
            rest.push(t)
        }
    }
}

/// The game: everything the turn state machine owns.
pub struct Game {
    pub board: Board,
    pub tiles: Vec<Tile>,
    pub pending: Vec<Instruction>,
    pub phase: Phase,
    pub score: ScoreTracker,
    pub score_to_add: u64,
    pub next_id: u64,
}

impl Game {
    pub open spec fn wf(&self) -> bool {
        &&& self.wf_core()
        &&& between_turns(self.phase) ==> self.board@ == rebuilt(self.size(), self.tiles@)
        &&& between_turns(self.phase) ==> self.score_to_add == 0
    }

    /// `wf` without the tie between board and live tiles.
    pub open spec fn wf_core(&self) -> bool {
        &&& self.board.wf()
        &&& self.score.wf()
        &&& forall|i: int|
            0 <= i < self.tiles@.len() ==> tile_ok(#[trigger] self.tiles@[i], self.board.size as int)
        &&& forall|i: int|
            0 <= i < self.pending@.len() ==> instruction_ok(
                #[trigger] self.pending@[i],
                self.board.size as int,
            )
        &&& self.phase != Phase::Animating ==> self.pending@.len() == 0
    }

    pub open spec fn size(&self) -> int {
        self.board.size as int
    }

    /// A game on an empty board of side `size`, in the setup phase.
    pub fn new(size: usize) -> (g: Game)
        requires
            1 <= size <= MAX_SIZE,
        ensures
            g.wf(),
            g.board.size == size,
            forall|i: int| 0 <= i < g.board@.len() ==> g.board@[i] is None,
            g.tiles@.len() == 0,
            g.pending@.len() == 0,
            g.phase == Phase::Setup,
            g.score.score == 0,
            g.score.high_score == 0,
            g.score_to_add == 0,
    {
        let g = Game {
            board: Board::new(size),
            tiles: Vec::new(),
            pending: Vec::new(),
            phase: Phase::Setup,
            score: ScoreTracker::new(),
            score_to_add: 0,
            next_id: 0,
        };
        assert(g.board@ =~= rebuilt(size as int, g.tiles@));
        g
    }

    /// Puts a new tile of `value` on the empty cell at index `cell`.
    pub fn create_piece(&mut self, cell: usize, value: u64)
        requires
            old(self).wf(),
            cell < old(self).board@.len(),
            old(self).board@[cell as int] is None,
            valid_value(value),
        ensures
            final(self).wf(),
            final(self).score.high_score >= old(self).score.high_score,
            final(self).board.size == old(self).board.size,
            final(self).board@ == old(self).board@.update(
                cell as int,
                Some(Piece { id: old(self).next_id, value }),
            ),
            final(self).tiles@.len() == old(self).tiles@.len() + 1,
            final(self).tiles@.drop_last() == old(self).tiles@,
            final(self).tiles@.last().id == old(self).next_id,
            final(self).tiles@.last().value == value,
            cell_index(
                final(self).tiles@.last().pos.row as int,
                final(self).tiles@.last().pos.col as int,
                final(self).board.size as int,
            ) == cell,
            final(self).next_id == next_id_after(old(self).next_id),
            final(self).pending == old(self).pending,
            final(self).phase == old(self).phase,
            final(self).score == old(self).score,
            final(self).score_to_add == old(self).score_to_add,
    {
        let pos = Board::to_pos(cell, self.board.size);
        let id = self.next_id;
        self.board.set(pos, Some(Piece { id, value }));
        self.tiles.push(Tile { id, value, pos });
        self.next_id = if self.next_id == u64::MAX {
            0
        } else {
            self.next_id + 1
        };
        assert(self.tiles@.drop_last() =~= old(self).tiles@);
        assert(self.tiles@.last() == Tile { id, value, pos });
    }

    /// Places the tile of one spawn draw: `pick` chooses the cell among the
    /// listed empty cells, and that cell leaves the list; `roll` chooses the
    /// value, 4 on 0 and 2 otherwise.
    pub fn place_drawn_piece(&mut self, empties: &mut Vec<usize>, pick: usize, roll: usize)
        requires
            old(self).wf(),
            pick < old(empties)@.len(),
            empty_list(old(empties)@, old(self).board@),
        ensures
            final(self).wf(),
            final(self).score.high_score >= old(self).score.high_score,
            final(empties)@ == old(empties)@.remove(pick as int),
            empty_list(final(empties)@, final(self).board@),
            final(self).board.size == old(self).board.size,
            final(self).board@ == old(self).board@.update(
                old(empties)@[pick as int] as int,
                Some(Piece { id: old(self).next_id, value: if roll == 0 { 4u64 } else { 2u64 } }),
            ),
            final(self).tiles@.drop_last() == old(self).tiles@,
            final(self).tiles@.len() == old(self).tiles@.len() + 1,
            final(self).tiles@.last().id == old(self).next_id,
            final(self).tiles@.last().value == if roll == 0 { 4u64 } else { 2u64 },
            cell_index(
                final(self).tiles@.last().pos.row as int,
                final(self).tiles@.last().pos.col as int,
                final(self).board.size as int,
            ) == old(empties)@[pick as int],
            final(self).next_id == next_id_after(old(self).next_id),
            final(self).pending == old(self).pending,
            final(self).phase == old(self).phase,
            final(self).score == old(self).score,
            final(self).score_to_add == old(self).score_to_add,
    {
        let ghost before = empties@;
        let cell = empties.remove(pick);
        let value = spawn_value(roll);
        proof {
            crate::board::lemma_spawn_values_valid();
        }
        self.create_piece(cell, value);
        assert forall|k: int| 0 <= k < empties@.len() implies (#[trigger] empties@[k])
            < self.board@.len() && self.board@[empties@[k] as int] is None by {
            if k < pick {
                assert(empties@[k] == before[k]);
                assert(before[k] != before[pick as int]);
            } else {
                assert(empties@[k] == before[k + 1]);
                assert(before[k + 1] != before[pick as int]);
            }
        }
        assert forall|k: int, m: int| 0 <= k < m < empties@.len() implies empties@[k]
            != empties@[m] by {
            let k2 = if k < pick { k } else { k + 1 };
            let m2 = if m < pick { m } else { m + 1 };
            assert(empties@[k] == before[k2]);
            assert(empties@[m] == before[m2]);
        }
    }

    /// One step of the host loop: ends the animation phase when nothing is
    /// pending, and closes the turn that then stands in `PostAnimation`.
    pub fn tick(&mut self)
        requires
            old(self).wf(),
        ensures
            final(self).wf(),
            final(self).score.high_score >= old(self).score.high_score,
            old(self).phase != Phase::Animating && old(self).phase != Phase::PostAnimation ==> *final(self) == *old(self),
            old(self).phase == Phase::Animating && old(self).pending@.len() > 0 ==> *final(self) == *old(self),
            old(self).phase == Phase::PostAnimation || (old(self).phase == Phase::Animating
                && old(self).pending@.len() == 0) ==> {
                let r = rebuilt(old(self).size(), old(self).tiles@);
                &&& final(self).board.size == old(self).board.size
                &&& final(self).board@.len() == r.len()
                &&& occupied(final(self).board@) == occupied(r) + min_nat(1, (r.len() - occupied(r)) as nat)
                &&& forall|i: int| 0 <= i < r.len() && r[i] is Some ==> final(self).board@[i] == r[i]
                &&& final(self).score.score == capped_sum(old(self).score.score, old(self).score_to_add)
                &&& final(self).score.high_score == max_u64(old(self).score.high_score, final(self).score.score)
                &&& final(self).score_to_add == 0
                &&& final(self).pending@.len() == 0
                &&& final(self).phase == if game_over(final(self).board@, final(self).size()) {
                    Phase::GameOver
                } else {
                    Phase::AwaitingInput
                }
            },
    {
        self.check_anim_end();
        self.post_anim();
    }

    /// Spawns up to `count` tiles on distinct cells drawn at random among
    /// the empty ones, each worth 4 one time in ten and 2 otherwise, then
    /// runs the end check: a terminal board ends the game.
    pub fn add_piece_event(&mut self, count: usize)
        requires
            old(self).wf(),
            between_turns(old(self).phase),
        ensures
            final(self).wf(),
            final(self).score.high_score >= old(self).score.high_score,
            final(self).board.size == old(self).board.size,
            final(self).board@.len() == old(self).board@.len(),
            occupied(final(self).board@) == occupied(old(self).board@) + min_nat(
                count as nat,
                (old(self).board@.len() - occupied(old(self).board@)) as nat,
            ),
            forall|i: int|
                0 <= i < old(self).board@.len() && old(self).board@[i] is Some ==> final(self).board@[i] == old(self).board@[i],
            forall|i: int|
                0 <= i < old(self).board@.len() && old(self).board@[i] is None && (#[trigger] final(self).board@[i]) is Some ==> final(self).board@[i]->Some_0.value == 2
                    || final(self).board@[i]->Some_0.value == 4,
            final(self).tiles@.subrange(0, old(self).tiles@.len() as int) == old(self).tiles@,
            final(self).tiles@.len() + occupied(old(self).board@) == old(self).tiles@.len() + occupied(final(self).board@),
            final(self).next_id == fresh_id(old(self).next_id, (final(self).tiles@.len() - old(self).tiles@.len()) as nat),
            forall|k: int|
                old(self).tiles@.len() <= k < final(self).tiles@.len() ==> {
                    let t = #[trigger] final(self).tiles@[k];
                    let c = cell_index(t.pos.row as int, t.pos.col as int, final(self).size());
                    &&& t.id == fresh_id(old(self).next_id, (k - old(self).tiles@.len()) as nat)
                    &&& old(self).board@[c] is None
                    &&& final(self).board@[c] == Some(Piece { id: t.id, value: t.value })
                },
            final(self).pending == old(self).pending,
            final(self).score == old(self).score,
            final(self).score_to_add == old(self).score_to_add,
            final(self).phase == if game_over(final(self).board@, final(self).board.size as int) {
                Phase::GameOver
            } else {
                old(self).phase
            },
    {
        let mut empties = self.board.empty_cells();
        proof {
            crate::board::lemma_board_len(&old(self).board);
            lemma_empty_indices(old(self).board@);
            crate::board::lemma_occupied_le(old(self).board@);
        }
        let ghost n_empty = empties@.len();
        let ghost n0 = old(self).tiles@.len();
        let mut placed: usize = 0;
        while placed < count && empties.len() > 0
            invariant
                self.wf(),
                between_turns(self.phase),
                self.board.size == old(self).board.size,
                self.board@.len() == old(self).board@.len(),
                placed <= count,
                empties@.len() + placed == n_empty,
                n_empty == old(self).board@.len() - occupied(old(self).board@),
                occupied(self.board@) == occupied(old(self).board@) + placed,
                empty_list(empties@, self.board@),
                forall|i: int|
                    0 <= i < old(self).board@.len() && old(self).board@[i] is Some ==> self.board@[i]
                        == old(self).board@[i],
                forall|i: int|
                    0 <= i < old(self).board@.len() && old(self).board@[i] is None && (#[trigger] self.board@[i]) is Some ==> self.board@[i]->Some_0.value == 2
                        || self.board@[i]->Some_0.value == 4,
                self.tiles@.subrange(0, n0 as int) == old(self).tiles@,
                self.tiles@.len() == n0 + placed,
                self.next_id == fresh_id(old(self).next_id, placed as nat),
                forall|k: int|
                    n0 <= k < self.tiles@.len() ==> {
                        let t = #[trigger] self.tiles@[k];
                        let c = cell_index(t.pos.row as int, t.pos.col as int, self.size());
                        &&& t.id == fresh_id(old(self).next_id, (k - n0) as nat)
                        &&& old(self).board@[c] is None
                        &&& self.board@[c] == Some(Piece { id: t.id, value: t.value })
                    },
                self.pending == old(self).pending,
                self.score == old(self).score,
                self.score_to_add == old(self).score_to_add,
                self.phase == old(self).phase,
            decreases count - placed,
        {
            let pick = random_below(empties.len());
            let roll = random_below(10);
            let ghost cell = empties@[pick as int];
            let ghost prev = *self;
            proof {
                lemma_occupied_fill(self.board@, cell as int, Piece { id: self.next_id, value: if roll == 0 { 4u64 } else { 2u64 } });
            }
            self.place_drawn_piece(&mut empties, pick, roll);
            assert(self.tiles@.subrange(0, n0 as int) =~= prev.tiles@.subrange(0, n0 as int));
            assert forall|k: int| n0 <= k < self.tiles@.len() implies {
                let t = #[trigger] self.tiles@[k];
                let c = cell_index(t.pos.row as int, t.pos.col as int, self.size());
                &&& t.id == fresh_id(old(self).next_id, (k - n0) as nat)
                &&& old(self).board@[c] is None
                &&& self.board@[c] == Some(Piece { id: t.id, value: t.value })
            } by {
                let t = self.tiles@[k];
                assert(tile_ok(t, self.size()));
                lemma_index_bound(t.pos.row as int, t.pos.col as int, self.size());
                if k < self.tiles@.len() - 1 {
                    assert(t == prev.tiles@[k]);
                } else {
                    assert(fresh_id(old(self).next_id, (k - n0) as nat) == fresh_id(old(self).next_id, placed as nat));
                }
            }
            placed = placed + 1;
        }
        if check_game_end(&self.board) {
            self.phase = Phase::GameOver;
        }
    }

    /// Resolves a move in `dir` when input is awaited: the instructions
    /// become the pending set, the gain is kept for the end of the turn, and
    /// the phase becomes `Animating`. In any other phase nothing changes.
    pub fn process_move(&mut self, dir: Direction)
        requires
            old(self).wf(),
        ensures
            final(self).wf(),
            final(self).score.high_score >= old(self).score.high_score,
            old(self).phase != Phase::AwaitingInput ==> *final(self) == *old(self),
            old(self).phase == Phase::AwaitingInput ==> {
                &&& final(self).pending@ == move_instructions(
                    old(self).board@,
                    old(self).size(),
                    dir,
                    old(self).size(),
                )
                &&& final(self).score_to_add == move_gain(old(self).board@, old(self).size(), dir, old(self).size())
                &&& final(self).phase == Phase::Animating
                &&& final(self).board == old(self).board
                &&& final(self).tiles == old(self).tiles
                &&& final(self).score == old(self).score
                &&& final(self).next_id == old(self).next_id
            },
    {
        if self.phase != Phase::AwaitingInput {
            return;
        }
        let outcome = resolve_move(&self.board, dir);
        self.pending = outcome.instructions;
        self.score_to_add = outcome.gain;
        self.phase = Phase::Animating;
    }

    /// Takes the completion of tile `id`'s animation. A slide puts the tile
    /// on its target cell; a merge gives the survivor the doubled value and
    /// removes the absorbed tile. The instruction leaves the pending set. A
    /// signal for a tile with no pending instruction changes nothing.
    pub fn anim_completed_event(&mut self, id: u64)
        requires
            old(self).wf(),
        ensures
            final(self).wf(),
            final(self).score.high_score >= old(self).score.high_score,
            (forall|j: int| 0 <= j < old(self).pending@.len() ==> (#[trigger] old(self).pending@[j]).tile != id)
                ==> *final(self) == *old(self),
            forall|j: int|
                is_first_instr(old(self).pending@, id, j) ==> {
                    &&& final(self).pending@ == old(self).pending@.remove(j)
                    &&& final(self).tiles@ == match old(self).pending@[j].kind {
                        MoveType::Slide(to) => slid(old(self).tiles@, id, to),
                        MoveType::MergeInto(_, survivor) => after_merge(
                            old(self).tiles@,
                            id,
                            survivor,
                            (2 * old(self).pending@[j].value) as u64,
                        ),
                    }
                },
            final(self).board == old(self).board,
            final(self).phase == old(self).phase,
            final(self).score == old(self).score,
            final(self).score_to_add == old(self).score_to_add,
            final(self).next_id == old(self).next_id,
    {
        let ghost s = self.size();
        let mut j: usize = 0;
        while j < self.pending.len() && self.pending[j].tile != id
            invariant
                j <= self.pending@.len(),
                forall|k: int| 0 <= k < j ==> (#[trigger] self.pending@[k]).tile != id,
            decreases self.pending@.len() - j,
        {
            j = j + 1;
        }
        if j == self.pending.len() {
            return;
        }
        let ins = self.pending.remove(j);
        assert(instruction_ok(old(self).pending@[j as int], s));
        match ins.kind {
            MoveType::Slide(to) => {
                let mut i: usize = 0;
                while i < self.tiles.len()
                    invariant
                        self.board == old(self).board,
                        self.phase == old(self).phase,
                        self.score == old(self).score,
                        self.score_to_add == old(self).score_to_add,
                        self.next_id == old(self).next_id,
                        self.pending@ == old(self).pending@.remove(j as int),
                        s == self.size(),
                        in_board(to, s),
                        i <= self.tiles@.len(),
                        self.tiles@.len() == old(self).tiles@.len(),
                        forall|k: int| 0 <= k < i ==> #[trigger] self.tiles@[k] == slid(old(self).tiles@, id, to)[k],
                        forall|k: int| i <= k < self.tiles@.len() ==> #[trigger] self.tiles@[k] == old(self).tiles@[k],
                    decreases self.tiles@.len() - i,
                {
                    let t = self.tiles[i];
                    if t.id == id {
                        self.tiles.set(i, Tile { id: t.id, value: t.value, pos: to });
                    }
                    i = i + 1;
                }
                assert(self.tiles@ =~= slid(old(self).tiles@, id, to));
            },
            MoveType::MergeInto(_, survivor) => {
                proof {
                    crate::board::lemma_double_valid(ins.value);
                }
                let doubled = 2 * ins.value;
                let mut kept: Vec<Tile> = Vec::new();
                let mut i: usize = 0;
                while i < self.tiles.len()
                    invariant
                        self.board == old(self).board,
                        self.phase == old(self).phase,
                        self.score == old(self).score,
                        self.score_to_add == old(self).score_to_add,
                        self.next_id == old(self).next_id,
                        self.pending@ == old(self).pending@.remove(j as int),
                        s == self.size(),
                        valid_value(doubled),
                        i <= self.tiles@.len(),
                        self.tiles@ == old(self).tiles@,
                        forall|k: int| 0 <= k < self.tiles@.len() ==> tile_ok(#[trigger] self.tiles@[k], s),
                        forall|k: int| 0 <= k < kept@.len() ==> tile_ok(#[trigger] kept@[k], s),
                        kept@ == after_merge(self.tiles@.take(i as int), id, survivor, doubled),
                    decreases self.tiles@.len() - i,
                {
                    let t = self.tiles[i];
                    assert(self.tiles@.take(i + 1).drop_last() =~= self.tiles@.take(i as int));
                    if t.id == id {
                    } else if t.id == survivor {
                        kept.push(Tile { id: t.id, value: doubled, pos: t.pos });
                    } else {
                        kept.push(t);
                    }
                    i = i + 1;
                }
                assert(self.tiles@.take(i as int) =~= self.tiles@);
                self.tiles = kept;
            },
        }
        assert forall|k: int| 0 <= k < self.pending@.len() implies instruction_ok(
            #[trigger] self.pending@[k],
            s,
        ) by {
            if k < j {
                assert(self.pending@[k] == old(self).pending@[k]);
            } else {
                assert(self.pending@[k] == old(self).pending@[k + 1]);
            }
        }
    }

    /// Ends the animation phase once no instruction is pending.
    pub fn check_anim_end(&mut self)
        requires
            old(self).wf(),
        ensures
            final(self).wf(),
            final(self).score.high_score >= old(self).score.high_score,
            final(self).phase == if old(self).phase == Phase::Animating && old(self).pending@.len()
                == 0 {
                Phase::PostAnimation
            } else {
                old(self).phase
            },
            final(self).board == old(self).board,
            final(self).tiles == old(self).tiles,
            final(self).pending == old(self).pending,
            final(self).score == old(self).score,
            final(self).score_to_add == old(self).score_to_add,
            final(self).next_id == old(self).next_id,
    {
        if self.phase == Phase::Animating && self.pending.len() == 0 {
            self.phase = Phase::PostAnimation;
        }
    }

    /// Closes a turn: rebuilds the board from the live tiles, adds the
    /// move's gain to the score, awaits input again and spawns one tile,
    /// whether or not the move changed anything. Outside `PostAnimation`
    /// nothing changes.
    pub fn post_anim(&mut self)
        requires
            old(self).wf(),
        ensures
            final(self).wf(),
            final(self).score.high_score >= old(self).score.high_score,
            old(self).phase != Phase::PostAnimation ==> *final(self) == *old(self),
            old(self).phase == Phase::PostAnimation ==> {
                let r = rebuilt(old(self).size(), old(self).tiles@);
                &&& final(self).board.size == old(self).board.size
                &&& final(self).board@.len() == r.len()
                &&& occupied(final(self).board@) == occupied(r) + min_nat(1, (r.len() - occupied(r)) as nat)
                &&& forall|i: int| 0 <= i < r.len() && r[i] is Some ==> final(self).board@[i] == r[i]
                &&& final(self).score.score == capped_sum(old(self).score.score, old(self).score_to_add)
                &&& final(self).score.high_score == max_u64(old(self).score.high_score, final(self).score.score)
                &&& final(self).score_to_add == 0
                &&& final(self).pending == old(self).pending
                &&& final(self).phase == if game_over(final(self).board@, final(self).size()) {
                    Phase::GameOver
                } else {
                    Phase::AwaitingInput
                }
            },
    {
        if self.phase != Phase::PostAnimation {
            return;
        }
        self.set_board();
        self.score.add(self.score_to_add);
        self.score_to_add = 0;
        self.phase = Phase::AwaitingInput;
        proof {
            crate::board::lemma_occupied_le(self.board@);
        }
        self.add_piece_event(1);
    }

    /// Starts a new game from any phase: every live tile and pending
    /// instruction is dropped, the board emptied, the score reset (the high
    /// score stays), two tiles spawned and input awaited. Late completion
    /// signals for the dropped tiles then find no instruction.
    pub fn new_game_event(&mut self)
        requires
            old(self).wf(),
        ensures
            final(self).wf(),
            final(self).score.high_score >= old(self).score.high_score,
            final(self).board.size == old(self).board.size,
            final(self).board@.len() == old(self).board@.len(),
            occupied(final(self).board@) == min_nat(2, old(self).board@.len()),
            final(self).tiles@.len() == occupied(final(self).board@),
            forall|k: int|
                0 <= k < final(self).tiles@.len() ==> {
                    let t = #[trigger] final(self).tiles@[k];
                    &&& t.id == fresh_id(old(self).next_id, k as nat)
                    &&& final(self).board@[cell_index(t.pos.row as int, t.pos.col as int, final(self).size())]
                        == Some(Piece { id: t.id, value: t.value })
                },
            final(self).board@ == rebuilt(final(self).size(), final(self).tiles@),
            final(self).pending@.len() == 0,
            final(self).score.score == 0,
            final(self).score.high_score == old(self).score.high_score,
            final(self).score_to_add == 0,
            final(self).phase == if game_over(final(self).board@, final(self).size()) {
                Phase::GameOver
            } else {
                Phase::AwaitingInput
            },
    {
        self.board.clear();
        self.tiles = Vec::new();
        self.pending = Vec::new();
        assert(self.board@ =~= rebuilt(self.size(), self.tiles@));
        self.score.reset();
        self.score_to_add = 0;
        self.phase = Phase::AwaitingInput;
        proof {
            crate::board::lemma_occupied_empty(self.board@);
        }
        self.add_piece_event(2);
    }

    /// Leaves the setup phase: two tiles are spawned and input awaited.
    /// Outside `Setup` nothing changes.
    pub fn start_game(&mut self)
        requires
            old(self).wf(),
        ensures
            final(self).wf(),
            final(self).score.high_score >= old(self).score.high_score,
            old(self).phase != Phase::Setup ==> *final(self) == *old(self),
            old(self).phase == Phase::Setup ==> {
                &&& final(self).board.size == old(self).board.size
                &&& final(self).board@.len() == old(self).board@.len()
                &&& final(self).pending == old(self).pending
                &&& final(self).score_to_add == old(self).score_to_add
                &&& final(self).tiles@.subrange(0, old(self).tiles@.len() as int) == old(self).tiles@
                &&& occupied(final(self).board@) == occupied(old(self).board@) + min_nat(
                    2,
                    (old(self).board@.len() - occupied(old(self).board@)) as nat,
                )
                &&& final(self).phase == if game_over(final(self).board@, final(self).size()) {
                    Phase::GameOver
                } else {
                    Phase::AwaitingInput
                }
            },
            final(self).score == old(self).score,
    {
        if self.phase != Phase::Setup {
            return;
        }
        self.phase = Phase::AwaitingInput;
        self.add_piece_event(2);
    }

    /// Rebuilds the board from the live tiles.
    pub fn set_board(&mut self)
        requires
            old(self).wf(),
        ensures
            final(self).wf(),
            final(self).score.high_score >= old(self).score.high_score,
            final(self).board.size == old(self).board.size,
            final(self).board@ == rebuilt(old(self).board.size as int, old(self).tiles@),
            final(self).tiles == old(self).tiles,
            final(self).pending == old(self).pending,
            final(self).phase == old(self).phase,
            final(self).score == old(self).score,
            final(self).score_to_add == old(self).score_to_add,
            final(self).next_id == old(self).next_id,
    {
        let ghost s = self.board.size as int;
        self.board.clear();
        assert(self.board@ =~= rebuilt(s, self.tiles@.take(0)));
        let mut i: usize = 0;
        while i < self.tiles.len()
            invariant
                self.wf_core(),
                s == self.board.size,
                self.board.size == old(self).board.size,
                self.tiles == old(self).tiles,
                self.pending == old(self).pending,
                self.phase == old(self).phase,
                self.score == old(self).score,
                self.score_to_add == old(self).score_to_add,
                self.next_id == old(self).next_id,
                i <= self.tiles@.len(),
                self.board@ == rebuilt(s, self.tiles@.take(i as int)),
            decreases self.tiles@.len() - i,
        {
            let t = self.tiles[i];
            assert(tile_ok(self.tiles@[i as int], s));
            self.board.set(t.pos, Some(Piece { id: t.id, value: t.value }));
            assert(self.tiles@.take(i + 1).drop_last() =~= self.tiles@.take(i as int));
            i = i + 1;
        }
        assert(self.tiles@.take(i as int) =~= self.tiles@);
    }
}

} // verus!
