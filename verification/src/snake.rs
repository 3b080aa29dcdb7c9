//! The snake: an ordered sequence of grid cells (head first), a heading,
//! and the most recently removed tail cell, kept so that eating can grow
//! the snake back by one cell.

use vstd::prelude::*;

verus! {

/// One of the four headings the snake can move in on the grid.
#[derive(Copy, Clone, PartialEq, Eq, Structural, Debug)]
pub enum Direction {
    Up,
    Down,
    Left,
    Right,
}

/// The heading pointing the opposite way: Up and Down swap, Left and Right swap.
pub open spec fn dir_opposite(d: Direction) -> Direction {
    match d {
        Direction::Up => Direction::Down,
        Direction::Down => Direction::Up,
        Direction::Left => Direction::Right,
        Direction::Right => Direction::Left,
    }
}

impl Direction {
    /// Returns the opposite heading; a turn into it would make the snake
    /// run straight into its own neck, so such inputs are rejected.
    pub fn opposite(&self) -> (r: Direction)
        ensures
            r == dir_opposite(*self),
    {
        match *self {
            Direction::Up => Direction::Down,
            Direction::Down => Direction::Up,
            Direction::Left => Direction::Right,
            Direction::Right => Direction::Left,
        }
    }
}

/// One grid cell, identified by its column `x` and row `y`.
#[derive(Copy, Clone, PartialEq, Eq, Structural, Debug)]
pub struct Block {
    pub x: i32,
    pub y: i32,
}

/// The cell one step away from `p` in heading `d`. Rows grow downwards,
/// so Up decreases `y` and Down increases it.
pub open spec fn step_of(d: Direction, p: (int, int)) -> (int, int) {
    match d {
        Direction::Up => (p.0, p.1 - 1),
        Direction::Down => (p.0, p.1 + 1),
        Direction::Left => (p.0 - 1, p.1),
        Direction::Right => (p.0 + 1, p.1),
    }
}

/// Mathematical model of a snake: the heading, the body cells head first,
/// and the cell most recently removed from the back, if any.
#[verifier::ext_equal]
pub ghost struct SnakeView {
    pub direction: Direction,
    pub body: Seq<(int, int)>,
    pub tail: Option<(int, int)>,
}

/// The body a new snake starts with: three cells in a row at height `y`,
/// head at `x + 2`, heading Right, with no removed tail yet.
pub open spec fn snake_initial(x: int, y: int) -> SnakeView {
    SnakeView {
        direction: Direction::Right,
        body: seq![(x + 2, y), (x + 1, y), (x, y)],
        tail: None,
    }
}

/// Holds when no two body cells coincide.
pub open spec fn no_duplicates(body: Seq<(int, int)>) -> bool {
    forall|i: int, j: int| 0 <= i < j < body.len() ==> body[i] != body[j]
}

impl SnakeView {
    /// A snake always occupies at least one cell.
    pub open spec fn wf(self) -> bool {
        self.body.len() >= 1
    }

    /// The cell the head occupies.
    pub open spec fn head(self) -> (int, int) {
        self.body[0]
    }

    /// The heading a move would use: the given one, or the current one if
    /// none is given.
    pub open spec fn heading_of(self, dir: Option<Direction>) -> Direction {
        match dir {
            Some(d) => d,
            None => self.direction,
        }
    }

    /// The cell the head would occupy after one step using `dir`.
    pub open spec fn next_head_cell(self, dir: Option<Direction>) -> (int, int) {
        step_of(self.heading_of(dir), self.head())
    }

    /// Whether `p` coincides with a body cell other than the current tail
    /// cell. The tail cell is exempt because it is vacated by the time a
    /// move into it completes.
    pub open spec fn overlaps_except_tail(self, p: (int, int)) -> bool {
        exists|i: int| 0 <= i < self.body.len() - 1 && self.body[i] == p
    }

    /// The snake after one step using `dir`: the new head cell is put in
    /// front, the last cell is removed and remembered as the removed tail.
    pub open spec fn moved(self, dir: Option<Direction>) -> SnakeView {
        SnakeView {
            direction: self.heading_of(dir),
            body: seq![self.next_head_cell(dir)] + self.body.drop_last(),
            tail: Some(self.body.last()),
        }
    }

    /// The snake after the removed tail cell is appended back to the body.
    pub open spec fn restored(self) -> SnakeView {
        SnakeView { body: self.body.push(self.tail.unwrap()), ..self }
    }
}

/// A snake on the grid. The body is kept head first; `tail` is the cell
/// most recently removed by a move, available for restoration after eating.
pub struct Snake {
    direction: Direction,
    body: Vec<Block>,
    tail: Option<Block>,
}

impl View for Snake {
    type V = SnakeView;

    closed spec fn view(&self) -> SnakeView {
        SnakeView {
            direction: self.direction,
            body: self.body@.map_values(|b: Block| (b.x as int, b.y as int)),
            tail: match self.tail {
                Some(b) => Some((b.x as int, b.y as int)),
                None => None,
            },
        }
    }
}

impl Snake {
    /// Builds a length-3 snake heading Right whose tail cell is `(x, y)`
    /// and whose head cell is `(x + 2, y)`.
    pub fn new(x: i32, y: i32) -> (s: Snake)
        requires
            x + 2 <= i32::MAX,
        ensures
            s@ == snake_initial(x as int, y as int),
            s@.wf(),
    {
        let mut body: Vec<Block> = Vec::new();
        body.push(Block { x: x + 2, y });
        body.push(Block { x: x + 1, y });
        body.push(Block { x, y });
        let s = Snake { direction: Direction::Right, body, tail: None };
        proof {
            assert(s@.body =~= snake_initial(x as int, y as int).body);
            assert(s@ =~= snake_initial(x as int, y as int));
        }
        s
    }

    /// The cell the head occupies.
    pub fn head_position(&self) -> (p: (i32, i32))
        requires
            self@.wf(),
        ensures
            (p.0 as int, p.1 as int) == self@.head(),
    {
        let b = self.body[0];
        (b.x, b.y)
    }

    /// The current heading.
    pub fn head_direction(&self) -> (d: Direction)
        ensures
            d == self@.direction,
    {
        self.direction
    }

    /// The cell the head would occupy after one step using `dir`, without
    /// moving; used to look ahead before committing a move.
    pub fn next_head(&self, dir: Option<Direction>) -> (p: (i32, i32))
        requires
            self@.wf(),
            i32::MIN <= self@.next_head_cell(dir).0 <= i32::MAX,
            i32::MIN <= self@.next_head_cell(dir).1 <= i32::MAX,
        ensures
            (p.0 as int, p.1 as int) == self@.next_head_cell(dir),
    {
        let (head_x, head_y): (i32, i32) = self.head_position();
        let moving_dir = match dir {
            Some(d) => d,
            None => self.direction,
        };
        match moving_dir {
            Direction::Up => (head_x, head_y - 1),
            Direction::Down => (head_x, head_y + 1),
            Direction::Left => (head_x - 1, head_y),
            Direction::Right => (head_x + 1, head_y),
        }
    }

    /// Takes one step: `dir`, if given, becomes the heading (no legality
    /// check here; the caller rejects reversals), the new head cell is put
    /// in front, and the last cell is removed and remembered. The body
    /// length never changes.
    pub fn move_forward(&mut self, dir: Option<Direction>)
        requires
            old(self)@.wf(),
            i32::MIN <= old(self)@.next_head_cell(dir).0 <= i32::MAX,
            i32::MIN <= old(self)@.next_head_cell(dir).1 <= i32::MAX,
        ensures
            final(self)@ == old(self)@.moved(dir),
            final(self)@.body.len() == old(self)@.body.len(),
            final(self)@.wf(),
    {
        match dir {
            Some(d) => self.direction = d,
            None => {},
        }

        let (last_x, last_y): (i32, i32) = self.head_position();
        let new_block = match self.direction {
            Direction::Up => Block { x: last_x, y: last_y - 1 },
            Direction::Down => Block { x: last_x, y: last_y + 1 },
            Direction::Left => Block { x: last_x - 1, y: last_y },
            Direction::Right => Block { x: last_x + 1, y: last_y },
        };

        self.body.insert(0, new_block);
        let removed_block = self.body.remove(self.body.len() - 1);
        self.tail = Some(removed_block);
        proof {
            assert(self@.body =~= old(self)@.moved(dir).body);
            assert(self@ =~= old(self)@.moved(dir));
        }
    }

    /// Appends the removed tail cell back to the body, growing the snake by
    /// exactly one cell. Meant to be called at most once per move; calling
    /// it again before the next move duplicates a cell.
    pub fn restore_tail(&mut self)
        requires
            old(self)@.tail is Some,
        ensures
            final(self)@ == old(self)@.restored(),
            final(self)@.body.len() == old(self)@.body.len() + 1,
    {
        let blk = match self.tail {
            Some(b) => b,
            None => Block { x: 0, y: 0 },
        };
        self.body.push(blk);
        proof {
            assert(self@.body =~= old(self)@.restored().body);
            assert(self@ =~= old(self)@.restored());
        }
    }

    /// Whether `(x, y)` coincides with a body cell other than the current
    /// tail cell: exactly the first `len - 1` cells are examined, head
    /// first, so a length-1 body matches nothing.
    pub fn overlap_tail(&self, x: i32, y: i32) -> (r: bool)
        requires
            self@.wf(),
        ensures
            r == self@.overlaps_except_tail((x as int, y as int)),
    {
        let n: usize = self.body.len();
        let mut i: usize = 0;
        while i < n - 1
            invariant
                self@.wf(),
                n == self@.body.len(),
                n == self.body@.len(),
                0 <= i <= n - 1,
                forall|j: int| 0 <= j < i ==> self@.body[j] != (x as int, y as int),
            decreases n - 1 - i,
        {
            let b = self.body[i];
            if x == b.x && y == b.y {
                assert(self@.body[i as int] == (x as int, y as int));
                return true;
            }
            i += 1;
        }
        false
    }

    /// The number of cells the body occupies.
    pub fn len(&self) -> (n: usize)
        ensures
            n == self@.body.len(),
    {
        self.body.len()
    }

    /// The `i`-th body cell, counted from the head.
    pub fn block_at(&self, i: usize) -> (b: Block)
        requires
            i < self@.body.len(),
        ensures
            (b.x as int, b.y as int) == self@.body[i as int],
    {
        self.body[i]
    }
}

/// For every heading, the prospective next head is one of the four cells
/// bordering the current head along an axis, it is the cell that matches the
/// heading used, and no other heading yields that same cell.
pub proof fn lemma_next_head_adjacent(s: SnakeView, d: Direction)
    requires
        s.wf(),
    ensures
        ({
            let h = s.head();
            let n = s.next_head_cell(Some(d));
            &&& (d == Direction::Up ==> n == (h.0, h.1 - 1))
            &&& (d == Direction::Down ==> n == (h.0, h.1 + 1))
            &&& (d == Direction::Left ==> n == (h.0 - 1, h.1))
            &&& (d == Direction::Right ==> n == (h.0 + 1, h.1))
            &&& ((n.0 == h.0 && (n.1 == h.1 - 1 || n.1 == h.1 + 1)) || (n.1 == h.1 && (n.0 == h.0
                - 1 || n.0 == h.0 + 1)))
            &&& forall|d2: Direction| s.next_head_cell(Some(d2)) == n ==> d2 == d
        }),
{
    assert forall|d2: Direction| s.next_head_cell(Some(d2)) == s.next_head_cell(Some(d)) implies d2
        == d by {
        match d2 {
            Direction::Up => {},
            Direction::Down => {},
            Direction::Left => {},
            Direction::Right => {},
        }
    }
}

/// A single-cell snake overlaps nothing: only the first `len - 1` cells are
/// examined, so on a length-1 body the check is disabled — even the cell the
/// snake itself occupies counts as its own vacating tail.
pub proof fn lemma_overlap_single_cell(s: SnakeView, p: (int, int))
    requires
        s.body.len() == 1,
    ensures
        !s.overlaps_except_tail(p),
{
}

/// On a snake of length at least two whose cells are pairwise distinct, the
/// overlap test is false on the current tail cell's own coordinates and true
/// on every other occupied cell.
pub proof fn lemma_overlap_except_tail(s: SnakeView)
    requires
        s.body.len() >= 2,
        no_duplicates(s.body),
    ensures
        !s.overlaps_except_tail(s.body.last()),
        forall|i: int| 0 <= i < s.body.len() - 1 ==> s.overlaps_except_tail(#[trigger] s.body[i]),
{
    if s.overlaps_except_tail(s.body.last()) {
        let j = choose|j: int| 0 <= j < s.body.len() - 1 && s.body[j] == s.body.last();
        assert(s.body[j] == s.body[s.body.len() - 1]);
        assert(false);
    }
    assert forall|i: int| 0 <= i < s.body.len() - 1 implies s.overlaps_except_tail(
        #[trigger] s.body[i],
    ) by {
        assert(0 <= i < s.body.len() - 1 && s.body[i] == s.body[i]);
    }
}

} // verus!
