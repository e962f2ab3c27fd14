//! Tiles of the 8x8 board and straight-line paths across it.

use vstd::prelude::*;

verus! {

/// A position on the board (0-7 for row and col).
#[derive(Clone, Copy, PartialEq, Eq, Structural, Debug, Hash)]
pub struct Position {
    pub row: u8,
    pub col: u8,
}

impl Position {
    /// Both coordinates lie on the 8x8 board.
    pub open spec fn in_bounds(self) -> bool {
        self.row < 8 && self.col < 8
    }

    /// The single 0-63 index a tile is bijective with.
    pub open spec fn spec_index(self) -> int {
        self.row * 8 + self.col
    }

    /// Builds a tile from coordinates, refusing anything off the board.
    pub fn from_coords(row: usize, col: usize) -> (r: Option<Position>)
        ensures
            match r {
                Some(p) => row < 8 && col < 8 && p.row == row && p.col == col,
                None => row >= 8 || col >= 8,
            },
    {
        if row < 8 && col < 8 {
            Some(Position { row: row as u8, col: col as u8 })
        } else {
            None
        }
    }

    /// The (row, col) pair of this tile.
    pub fn to_index(&self) -> (r: (usize, usize))
        ensures
            r.0 == self.row,
            r.1 == self.col,
    {
        (self.row as usize, self.col as usize)
    }

    /// The 0-63 index of an on-board tile.
    pub fn index(&self) -> (r: u8)
        requires
            self.in_bounds(),
        ensures
            r == self.spec_index(),
            r < 64,
    {
        self.row * 8 + self.col
    }

    /// The tile with the given 0-63 index.
    pub fn from_index(idx: u8) -> (r: Position)
        requires
            idx < 64,
        ensures
            r.in_bounds(),
            r.spec_index() == idx,
    {
        Position { row: idx / 8, col: idx % 8 }
    }
}

/// On-board tiles and 0-63 indices correspond one to one.
pub proof fn lemma_index_bijective(p: Position, q: Position)
    requires
        p.in_bounds(),
        q.in_bounds(),
        p.spec_index() == q.spec_index(),
    ensures
        p == q,
{
}

/// Row offset of direction `d` (0-7 enumerates the eight king directions).
pub open spec fn delta_row(d: int) -> int {
    if d == 0 || d == 1 || d == 2 {
        -1
    } else if d == 3 || d == 4 {
        0
    } else {
        1
    }
}

/// Column offset of direction `d`.
pub open spec fn delta_col(d: int) -> int {
    if d == 0 || d == 3 || d == 5 {
        -1
    } else if d == 1 || d == 6 {
        0
    } else {
        1
    }
}

/// The row and column offsets of direction `d`.
pub fn dir_delta(d: u8) -> (r: (i8, i8))
    requires
        d < 8,
    ensures
        r.0 == delta_row(d as int),
        r.1 == delta_col(d as int),
{
    match d {
        0 => (-1, -1),
        1 => (-1, 0),
        2 => (-1, 1),
        3 => (0, -1),
        4 => (0, 1),
        5 => (1, -1),
        6 => (1, 0),
        _ => (1, 1),
    }
}

/// Row after `k` steps from `from` in direction `d` (may leave the board).
pub open spec fn line_row(from: Position, d: int, k: int) -> int
    decreases k,
{
    if k <= 0 {
        from.row as int
    } else {
        line_row(from, d, k - 1) + delta_row(d)
    }
}

/// Column after `k` steps from `from` in direction `d`.
pub open spec fn line_col(from: Position, d: int, k: int) -> int
    decreases k,
{
    if k <= 0 {
        from.col as int
    } else {
        line_col(from, d, k - 1) + delta_col(d)
    }
}

/// The tile `k` steps from `from` in direction `d` lies on the board.
pub open spec fn line_in_bounds(from: Position, d: int, k: int) -> bool {
    0 <= line_row(from, d, k) < 8 && 0 <= line_col(from, d, k) < 8
}

/// The tile `k` steps from `from` in direction `d`, as a `Position`.
/// Meaningful only where `line_in_bounds` holds.
pub open spec fn line_position(from: Position, d: int, k: int) -> Position {
    Position { row: line_row(from, d, k) as u8, col: line_col(from, d, k) as u8 }
}

/// The ordered tiles 1 through `k` steps out from `from` in direction `d`.
pub open spec fn line_path(from: Position, d: int, k: int) -> Seq<Position> {
    Seq::new(k as nat, |j: int| line_position(from, d, j + 1))
}

/// One step from `p` in direction `d`; `None` where that leaves the board.
pub fn step_dir(p: Position, d: u8) -> (r: Option<Position>)
    requires
        p.in_bounds(),
        d < 8,
    ensures
        match r {
            Some(q) => {
                &&& q.in_bounds()
                &&& q.row as int == p.row + delta_row(d as int)
                &&& q.col as int == p.col + delta_col(d as int)
            },
            None => !(0 <= p.row + delta_row(d as int) < 8 && 0 <= p.col + delta_col(
                d as int,
            ) < 8),
        },
{
    let (dr, dc) = dir_delta(d);
    let nr = p.row as i16 + dr as i16;
    let nc = p.col as i16 + dc as i16;
    if nr >= 0 && nr < 8 && nc >= 0 && nc < 8 {
        Some(Position { row: nr as u8, col: nc as u8 })
    } else {
        None
    }
}

/// A path of positions (wrapper to avoid nested `Vec` issues in callers).
#[derive(Clone, Debug)]
pub struct PositionPath {
    pub positions: Vec<Position>,
}

impl View for PositionPath {
    type V = Seq<Position>;

    open spec fn view(&self) -> Seq<Position> {
        self.positions@
    }
}

/// The list holds a path equal to `p`.
pub open spec fn path_list_contains(list: Seq<PositionPath>, p: Seq<Position>) -> bool {
    exists|i: int| 0 <= i < list.len() && list[i]@ == p
}

/// Appending a path to a list adds exactly that path to what it holds.
pub proof fn lemma_path_list_push(list: Seq<PositionPath>, elem: PositionPath, p: Seq<Position>)
    ensures
        path_list_contains(list.push(elem), p) <==> (path_list_contains(list, p) || elem@ == p),
{
    if path_list_contains(list.push(elem), p) {
        let i = choose|i: int| 0 <= i < list.push(elem).len() && list.push(elem)[i]@ == p;
        if i < list.len() {
            assert(list[i]@ == p);
        }
    }
    if path_list_contains(list, p) {
        let i = choose|i: int| 0 <= i < list.len() && list[i]@ == p;
        assert(list.push(elem)[i]@ == p);
    }
    if elem@ == p {
        assert(list.push(elem)[list.len() as int]@ == p);
    }
}

/// Whether two tile vectors hold the same tiles in the same order.
pub fn positions_equal(a: &Vec<Position>, b: &Vec<Position>) -> (r: bool)
    ensures
        r == (a@ == b@),
{
    if a.len() != b.len() {
        assert(a@ != b@);
        return false;
    }
    let n = a.len();
    let mut k: usize = 0;
    while k < n
        invariant
            n == a.len(),
            n == b.len(),
            k <= n,
            forall|j: int| 0 <= j < k ==> a@[j] == b@[j],
        decreases n - k,
    {
        if a[k] != b[k] {
            assert(a@ != b@);
            return false;
        }
        k = k + 1;
    }
    proof {
        assert(a@ =~= b@);
    }
    true
}

/// Whether the list holds a path equal to `p`.
pub fn path_list_member(list: &Vec<PositionPath>, p: &Vec<Position>) -> (r: bool)
    ensures
        r == path_list_contains(list@, p@),
{
    let n = list.len();
    let mut k: usize = 0;
    while k < n
        invariant
            n == list.len(),
            k <= n,
            forall|j: int| 0 <= j < k ==> list@[j]@ != p@,
        decreases n - k,
    {
        if positions_equal(&list[k].positions, p) {
            return true;
        }
        k = k + 1;
    }
    false
}

/// The tiles 1 through `k` steps out from `from` in direction `d`, as a
/// vector; every step must stay on the board.
pub fn line_vec(from: Position, d: u8, k: u8) -> (r: Vec<Position>)
    requires
        from.in_bounds(),
        d < 8,
        forall|j: int| 1 <= j <= k ==> line_in_bounds(from, d as int, j),
    ensures
        r@ == line_path(from, d as int, k as int),
{
    let mut r: Vec<Position> = Vec::new();
    let mut cur = from;
    let mut step: u8 = 0;
    while step < k
        invariant
            from.in_bounds(),
            d < 8,
            step <= k,
            forall|j: int| 1 <= j <= k ==> line_in_bounds(from, d as int, j),
            cur.row == line_row(from, d as int, step as int),
            cur.col == line_col(from, d as int, step as int),
            cur.in_bounds(),
            r@.len() == step,
            forall|j: int| 0 <= j < step ==> r@[j] == line_position(from, d as int, j + 1),
        decreases k - step,
    {
        assert(line_in_bounds(from, d as int, step + 1));
        let next = match step_dir(cur, d) {
            Some(q) => q,
            None => {
                proof {
                    assert(false);
                }
                cur
            },
        };
        r.push(next);
        cur = next;
        step = step + 1;
    }
    proof {
        assert(r@ =~= line_path(from, d as int, k as int));
    }
    r
}

/// Chebyshev distance: the larger of the row and column differences.
pub open spec fn cheb(p: Position, q: Position) -> int {
    let dr = if p.row >= q.row {
        p.row - q.row
    } else {
        q.row - p.row
    };
    let dc = if p.col >= q.col {
        p.col - q.col
    } else {
        q.col - p.col
    };
    if dr >= dc {
        dr
    } else {
        dc
    }
}

/// Chebyshev distance between two tiles.
pub fn chebyshev(p: Position, q: Position) -> (r: u8)
    ensures
        r == cheb(p, q),
{
    let dr = if p.row >= q.row {
        p.row - q.row
    } else {
        q.row - p.row
    };
    let dc = if p.col >= q.col {
        p.col - q.col
    } else {
        q.col - p.col
    };
    if dr >= dc {
        dr
    } else {
        dc
    }
}

} // verus!
