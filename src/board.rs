//! The grid of tile slots, stored row-major.
use vstd::prelude::*;

verus! {

/// Largest board side this library handles.
pub const MAX_SIZE: usize = 256;

/// Largest tile value a board may hold; a merge never goes past it.
pub const MAX_TILE: u64 = 1099511627776;

/// Half of `MAX_TILE`: the largest value that may still be doubled.
pub const MAX_MERGEABLE: u64 = 549755813888;

/// A tile value is a power of two.
pub open spec fn is_pow2(v: nat) -> bool
    decreases v,
{
    if v <= 1 {
        v == 1
    } else {
        v % 2 == 0 && is_pow2(v / 2)
    }
}

/// A value a tile may carry: a power of two, at least 2, at most `MAX_TILE`.
pub open spec fn valid_value(v: u64) -> bool {
    2 <= v <= MAX_TILE && is_pow2(v as nat)
}

pub proof fn lemma_double_valid(v: u64)
    requires
        valid_value(v),
        v <= MAX_MERGEABLE,
    ensures
        valid_value((2 * v) as u64),
{
    assert(is_pow2((2 * v) as nat));
}

pub proof fn lemma_spawn_values_valid()
    ensures
        valid_value(2),
        valid_value(4),
{
    reveal_with_fuel(is_pow2, 3);
}

/// A cell of the board, addressed by row and column.
#[derive(Clone, Copy, Debug, PartialEq, Eq, Structural)]
pub struct Pos {
    pub row: usize,
    pub col: usize,
}

/// What the board records of a tile standing on a cell.
#[derive(Clone, Copy, Debug, PartialEq, Eq, Structural)]
pub struct Piece {
    pub id: u64,
    pub value: u64,
}

pub open spec fn cell_index(row: int, col: int, size: int) -> int {
    row * size + col
}

pub open spec fn in_board(p: Pos, size: int) -> bool {
    p.row < size && p.col < size
}

pub open spec fn valid_cells(s: Seq<Option<Piece>>) -> bool {
    forall|i: int| 0 <= i < s.len() && (#[trigger] s[i]) is Some ==> valid_value(s[i]->Some_0.value)
}

/// Number of occupied cells of a sequence of cells.
pub open spec fn occupied(s: Seq<Option<Piece>>) -> nat
    decreases s.len(),
{
    if s.len() == 0 {
        0
    } else {
        occupied(s.drop_last()) + if s.last() is Some { 1nat } else { 0nat }
    }
}

/// Indices of the empty cells, in increasing order.
pub open spec fn empty_indices(s: Seq<Option<Piece>>) -> Seq<usize>
    decreases s.len(),
{
    if s.len() == 0 {
        seq![]
    } else if s.last() is None {
        empty_indices(s.drop_last()).push((s.len() - 1) as usize)
    } else {
        empty_indices(s.drop_last())
    }
}

pub proof fn lemma_empty_indices(s: Seq<Option<Piece>>)
    requires
        s.len() <= usize::MAX,
    ensures
        empty_indices(s).len() + occupied(s) == s.len(),
        forall|k: int|
            0 <= k < empty_indices(s).len() ==> {
                let i = #[trigger] empty_indices(s)[k];
                &&& i < s.len()
                &&& s[i as int] is None
            },
        forall|k: int, m: int|
            0 <= k < m < empty_indices(s).len() ==> empty_indices(s)[k] < empty_indices(s)[m],
        forall|i: int|
            0 <= i < s.len() && s[i] is None ==> empty_indices(s).contains(i as usize),
    decreases s.len(),
{
    if s.len() > 0 {
        let p = s.drop_last();
        lemma_empty_indices(p);
        let e = empty_indices(s);
        let ep = empty_indices(p);
        assert forall|k: int| 0 <= k < e.len() implies {
            let i = #[trigger] e[k];
            &&& i < s.len()
            &&& s[i as int] is None
        } by {
            if k < ep.len() {
                assert(e[k] == ep[k]);
                assert(p[ep[k] as int] == s[ep[k] as int]);
            }
        }
        assert forall|k: int, m: int| 0 <= k < m < e.len() implies e[k] < e[m] by {
            assert(e[k] == ep[k]);
            if m < ep.len() {
                assert(e[m] == ep[m]);
            }
        }
        assert forall|i: int| 0 <= i < s.len() && s[i] is None implies e.contains(i as usize) by {
            if i < s.len() - 1 {
                assert(p[i] is None);
                let k = choose|k: int| 0 <= k < ep.len() && ep[k] == i as usize;
                assert(e[k] == i as usize);
            } else {
                assert(e.last() == i as usize);
            }
        }
    }
}

/// The square grid of tile slots, row-major: cell (row, col) is at index
/// `row * size + col`.
pub struct Board {
    pub size: usize,
    pub cells: Vec<Option<Piece>>,
}

impl View for Board {
    type V = Seq<Option<Piece>>;

    open spec fn view(&self) -> Seq<Option<Piece>> {
        self.cells@
    }
}

impl Board {
    pub open spec fn wf(&self) -> bool {
        &&& 1 <= self.size <= MAX_SIZE
        &&& self.cells@.len() == self.size * self.size
        &&& valid_cells(self.cells@)
    }

    /// The cell at `p`, as the model sees it.
    pub open spec fn at(&self, p: Pos) -> Option<Piece> {
        self.cells@[cell_index(p.row as int, p.col as int, self.size as int)]
    }

    /// An empty board of side `size`.
    pub fn new(size: usize) -> (b: Board)
        requires
            1 <= size <= MAX_SIZE,
        ensures
            b.wf(),
            b.size == size,
            forall|i: int| 0 <= i < b@.len() ==> b@[i] is None,
    {
        assert(size * size <= MAX_SIZE * MAX_SIZE) by (nonlinear_arith)
            requires
                size <= MAX_SIZE,
        ;
        let n = size * size;
        let mut cells: Vec<Option<Piece>> = Vec::new();
        while cells.len() < n
            invariant
                cells.len() <= n,
                forall|i: int| 0 <= i < cells@.len() ==> cells@[i] is None,
            decreases n - cells.len(),
        {
            cells.push(None);
        }
        Board { size, cells }
    }

    /// Index of a cell in the row-major storage.
    pub fn to_index(p: Pos, size: usize) -> (i: usize)
        requires
            in_board(p, size as int),
            size <= MAX_SIZE,
        ensures
            i == cell_index(p.row as int, p.col as int, size as int),
            i < size * size,
    {
        proof {
            lemma_index_bound(p.row as int, p.col as int, size as int);
            assert(size * size <= MAX_SIZE * MAX_SIZE) by (nonlinear_arith)
                requires
                    size <= MAX_SIZE,
            ;
            assert(p.row * size <= size * size) by (nonlinear_arith)
                requires
                    p.row < size,
            ;
        }
        p.row * size + p.col
    }

    /// The cell stored at index `i`.
    pub fn to_pos(i: usize, size: usize) -> (p: Pos)
        requires
            1 <= size <= MAX_SIZE,
            i < size * size,
        ensures
            in_board(p, size as int),
            cell_index(p.row as int, p.col as int, size as int) == i,
    {
        let p = Pos { row: i / size, col: i % size };
        assert(p.row < size) by (nonlinear_arith)
            requires
                i < size * size,
                p.row == i / size,
                size >= 1,
        ;
        assert(i == (i / size) * size + i % size) by (nonlinear_arith)
            requires
                size >= 1,
        ;
        p
    }

    pub fn get(&self, p: Pos) -> (r: Option<Piece>)
        requires
            self.wf(),
            in_board(p, self.size as int),
        ensures
            r == self.at(p),
    {
        let i = Board::to_index(p, self.size);
        self.cells[i]
    }

    pub fn set(&mut self, p: Pos, v: Option<Piece>)
        requires
            old(self).wf(),
            in_board(p, old(self).size as int),
            v matches Some(x) ==> valid_value(x.value),
        ensures
            final(self).wf(),
            final(self).size == old(self).size,
            final(self)@ == old(self)@.update(
                cell_index(p.row as int, p.col as int, old(self).size as int),
                v,
            ),
    {
        let i = Board::to_index(p, self.size);
        self.cells.set(i, v);
    }

    /// Empties every cell.
    pub fn clear(&mut self)
        requires
            old(self).wf(),
        ensures
            final(self).wf(),
            final(self).size == old(self).size,
            final(self)@.len() == old(self)@.len(),
            forall|i: int| 0 <= i < final(self)@.len() ==> final(self)@[i] is None,
    {
        let n = self.cells.len();
        let mut i: usize = 0;
        while i < n
            invariant
                self.wf(),
                self.size == old(self).size,
                self.cells@.len() == n,
                i <= n,
                forall|j: int| 0 <= j < i ==> self.cells@[j] is None,
            decreases n - i,
        {
            self.cells.set(i, None);
            i = i + 1;
        }
    }

    /// Indices of the empty cells, in increasing order.
    pub fn empty_cells(&self) -> (r: Vec<usize>)
        requires
            self.wf(),
        ensures
            r@ == empty_indices(self@),
    {
        let mut r: Vec<usize> = Vec::new();
        let mut i: usize = 0;
        while i < self.cells.len()
            invariant
                i <= self.cells@.len(),
                r@ == empty_indices(self@.take(i as int)),
            decreases self.cells@.len() - i,
        {
            assert(self@.take(i + 1).drop_last() == self@.take(i as int));
            if self.cells[i].is_none() {
                r.push(i);
            }
            i = i + 1;
        }
        assert(self@.take(i as int) == self@);
        r
    }

    /// Whether every cell holds a tile.
    pub fn is_full(&self) -> (r: bool)
        requires
            self.wf(),
        ensures
            r == (forall|i: int| 0 <= i < self@.len() ==> #[trigger] self@[i] is Some),
    {
        let mut i: usize = 0;
        while i < self.cells.len()
            invariant
                i <= self.cells@.len(),
                forall|j: int| 0 <= j < i ==> #[trigger] self@[j] is Some,
            decreases self.cells@.len() - i,
        {
            if self.cells[i].is_none() {
                return false;
            }
            i = i + 1;
        }
        true
    }
}

pub proof fn lemma_index_bound(row: int, col: int, size: int)
    requires
        0 <= row < size,
        0 <= col < size,
    ensures
        0 <= cell_index(row, col, size) < size * size,
{
    assert(row * size + col < size * size) by (nonlinear_arith)
        requires
            0 <= row < size,
            0 <= col < size,
    ;
    assert(row * size >= 0) by (nonlinear_arith)
        requires
            0 <= row,
            0 <= size,
    ;
}


/// Filling an empty cell adds one occupied cell.
pub proof fn lemma_occupied_fill(s: Seq<Option<Piece>>, i: int, p: Piece)
    requires
        0 <= i < s.len(),
        s[i] is None,
    ensures
        occupied(s.update(i, Some(p))) == occupied(s) + 1,
    decreases s.len(),
{
    let t = s.update(i, Some(p));
    if i == s.len() - 1 {
        assert(t.drop_last() == s.drop_last());
    } else {
        assert(t.drop_last() == s.drop_last().update(i, Some(p)));
        lemma_occupied_fill(s.drop_last(), i, p);
    }
}

/// A board with no tile has no occupied cell.
pub proof fn lemma_occupied_empty(s: Seq<Option<Piece>>)
    requires
        forall|i: int| 0 <= i < s.len() ==> s[i] is None,
    ensures
        occupied(s) == 0,
    decreases s.len(),
{
    if s.len() > 0 {
        lemma_occupied_empty(s.drop_last());
    }
}

pub proof fn lemma_occupied_le(s: Seq<Option<Piece>>)
    ensures
        occupied(s) <= s.len(),
    decreases s.len(),
{
    if s.len() > 0 {
        lemma_occupied_le(s.drop_last());
    }
}


pub proof fn lemma_board_len(b: &Board)
    requires
        b.wf(),
    ensures
        b@.len() <= MAX_SIZE * MAX_SIZE,
{
    let s = b.size as int;
    assert(s * s <= MAX_SIZE * MAX_SIZE) by (nonlinear_arith)
        requires
            1 <= s <= MAX_SIZE,
    ;
}

} // verus!
