//! The game state machine: it owns the snake, the food, the board limits,
//! the game-over flag and the elapsed-time counter, and it drives every
//! transition — direction changes, per-frame updates, eating, death and the
//! restart countdown. Time is counted in whole milliseconds.

use rand::Rng;
use vstd::prelude::*;

use crate::snake::{dir_opposite, snake_initial, Direction, Snake, SnakeView};

verus! {

/// Once this many milliseconds have accumulated, the next update advances
/// the snake one cell.
pub const MOVING_PERIOD_MS: u64 = 200;

/// Once the game is over and this many milliseconds have accumulated, the
/// next update restarts the game.
pub const RESTART_TIME_MS: u64 = 1000;

/// Mathematical model of the whole game state.
#[verifier::ext_equal]
pub ghost struct GameView {
    pub snake: SnakeView,
    pub food_exists: bool,
    pub food: (int, int),
    pub width: int,
    pub height: int,
    pub game_over: bool,
    pub waiting_time: int,
}

impl GameView {
    /// Whether `p` lies strictly inside the board: the outermost ring of
    /// cells is the border and is lethal to enter.
    pub open spec fn cell_inside(self, p: (int, int)) -> bool {
        &&& 0 < p.0 < self.width - 1
        &&& 0 < p.1 < self.height - 1
    }

    /// The board is large enough to hold the starting snake, and every
    /// snake cell — including the removed tail cell, which a meal may put
    /// back — lies strictly inside the border.
    pub open spec fn board_ok(self) -> bool {
        &&& 6 <= self.width
        &&& 4 <= self.height
        &&& self.snake.wf()
        &&& forall|i: int|
            0 <= i < self.snake.body.len() ==> self.cell_inside(#[trigger] self.snake.body[i])
        &&& match self.snake.tail {
            Some(p) => self.cell_inside(p),
            None => true,
        }
    }

    /// Everything `board_ok` holds, and the elapsed-time counter has not
    /// run past the restart threshold, the largest value an update can
    /// leave behind.
    pub open spec fn wf(self) -> bool {
        &&& self.board_ok()
        &&& 0 <= self.waiting_time <= RESTART_TIME_MS
    }

    /// Whether a move using `dir` keeps the snake alive: the prospective
    /// head cell hits neither the body (the vacating tail cell excepted)
    /// nor the border.
    pub open spec fn alive_with(self, dir: Option<Direction>) -> bool {
        let n = self.snake.next_head_cell(dir);
        &&& !self.snake.overlaps_except_tail(n)
        &&& self.cell_inside(n)
    }

    /// The state after checking for a meal: if food exists where the head
    /// now is, the food is consumed and the removed tail cell grows back.
    pub open spec fn after_eat(self) -> GameView {
        if self.food_exists && self.food == self.snake.head() {
            GameView { food_exists: false, snake: self.snake.restored(), ..self }
        } else {
            self
        }
    }

    /// One snake update using `dir`: a legal move is committed and checked
    /// for a meal; a lethal one only sets the game-over flag. Either way
    /// the elapsed-time counter starts over.
    pub open spec fn stepped(self, dir: Option<Direction>) -> GameView {
        if self.alive_with(dir) {
            let moved = GameView { snake: self.snake.moved(dir), ..self };
            GameView { waiting_time: 0, ..moved.after_eat() }
        } else {
            GameView { game_over: true, waiting_time: 0, ..self }
        }
    }

    /// The reaction to a key mapped to `dir`: ignored when the game is
    /// over, when the key maps to no direction, or when it would reverse
    /// the heading; otherwise an immediate snake update.
    pub open spec fn keyed(self, dir: Option<Direction>) -> GameView {
        if self.game_over {
            self
        } else {
            match dir {
                None => self,
                Some(d) => if d == dir_opposite(self.snake.direction) {
                    self
                } else {
                    self.stepped(Some(d))
                },
            }
        }
    }

    /// The state a restart produces: the starting snake, food back at its
    /// fixed starting cell, flags and counter cleared, board kept.
    pub open spec fn restarted(self) -> GameView {
        GameView {
            snake: snake_initial(2, 2),
            food_exists: true,
            food: (6, 4),
            game_over: false,
            waiting_time: 0,
            ..self
        }
    }

    /// The same state with the elapsed-time counter set to `wt`.
    pub open spec fn with_waiting(self, wt: int) -> GameView {
        GameView { waiting_time: wt, ..self }
    }

    /// Whether `p` is a cell food may be placed on: inside the sampled
    /// square and not covered by the snake (the vacating tail excepted).
    /// Both coordinates range over the width of the board; see `add_food`.
    pub open spec fn food_cell_ok(self, p: (int, int)) -> bool {
        &&& 1 <= p.0 <= self.width - 2
        &&& 1 <= p.1 <= self.width - 2
        &&& !self.snake.overlaps_except_tail(p)
    }

    /// How a food-placement pass relates the state before to the state
    /// after: nothing but the food changes; if any cell is available, food
    /// is placed on an available cell; if none is, nothing changes at all.
    pub open spec fn food_placed(self, g1: GameView) -> bool {
        &&& g1 == GameView { food_exists: g1.food_exists, food: g1.food, ..self }
        &&& ((exists|p: (int, int)| self.food_cell_ok(p)) ==> g1.food_exists && self.food_cell_ok(
            g1.food,
        ))
        &&& (!(exists|p: (int, int)| self.food_cell_ok(p)) ==> g1 == self)
    }

    /// The food phase of an update: runs only while no food exists.
    pub open spec fn food_phase(self, g1: GameView) -> bool {
        if self.food_exists {
            g1 == self
        } else {
            self.food_placed(g1)
        }
    }
}

/// The state a fresh game starts in on a `w` by `h` board.
pub open spec fn game_initial(w: int, h: int) -> GameView {
    GameView {
        snake: snake_initial(2, 2),
        food_exists: true,
        food: (6, 4),
        width: w,
        height: h,
        game_over: false,
        waiting_time: 0,
    }
}

/// Relies on `rand::Rng::gen_range` on the thread-local generator: returns
/// an index drawn uniformly from `0 .. n`; it panics only on an empty
/// range, which the precondition rules out.
#[verifier::external_body]
fn random_index(n: usize) -> (r: usize)
    requires
        0 < n,
    ensures
        r < n,
{
    rand::thread_rng().gen_range(0..n)
}

/// Whether the cell `(a, b)` appears among the listed cells.
spec fn cell_listed(v: Seq<(i32, i32)>, a: int, b: int) -> bool {
    exists|j: int| 0 <= j < v.len() && ((#[trigger] v[j]).0 as int, v[j].1 as int) == (a, b)
}

/// Appending a cell to the list keeps every cell already listed.
proof fn lemma_cell_listed_push(v: Seq<(i32, i32)>, e: (i32, i32), a: int, b: int)
    requires
        cell_listed(v, a, b),
    ensures
        cell_listed(v.push(e), a, b),
{
    let j = choose|j: int| 0 <= j < v.len() && ((#[trigger] v[j]).0 as int, v[j].1 as int) == (
        a,
        b,
    );
    assert(v.push(e)[j] == v[j]);
}

/// Collects every cell of the square `1 ..= width - 2` (both axes) that the
/// snake does not cover, the vacating tail cell excepted.
fn free_cells(snake: &Snake, width: i32) -> (v: Vec<(i32, i32)>)
    requires
        snake@.wf(),
        3 <= width,
    ensures
        forall|j: int|
            0 <= j < v@.len() ==> 1 <= (#[trigger] v@[j]).0 <= width - 2 && 1 <= v@[j].1 <= width
                - 2 && !snake@.overlaps_except_tail((v@[j].0 as int, v@[j].1 as int)),
        forall|a: int, b: int|
            #![trigger snake@.overlaps_except_tail((a, b))]
            1 <= a <= width - 2 && 1 <= b <= width - 2 && !snake@.overlaps_except_tail((a, b))
                ==> cell_listed(v@, a, b),
{
    let mut v: Vec<(i32, i32)> = Vec::new();
    let hi: i32 = width - 1;
    let mut y: i32 = 1;
    while y < hi
        invariant
            snake@.wf(),
            hi == width - 1,
            3 <= width,
            1 <= y <= hi,
            forall|j: int|
                0 <= j < v@.len() ==> 1 <= (#[trigger] v@[j]).0 <= width - 2 && 1 <= v@[j].1
                    <= width - 2 && !snake@.overlaps_except_tail((v@[j].0 as int, v@[j].1 as int)),
            forall|a: int, b: int|
                #![trigger snake@.overlaps_except_tail((a, b))]
                1 <= a <= width - 2 && 1 <= b < y as int && !snake@.overlaps_except_tail((a, b))
                    ==> cell_listed(v@, a, b),
        decreases hi - y,
    {
        let mut x: i32 = 1;
        while x < hi
            invariant
                snake@.wf(),
                hi == width - 1,
                3 <= width,
                1 <= y <= hi - 1,
                1 <= x <= hi,
                forall|j: int|
                    0 <= j < v@.len() ==> 1 <= (#[trigger] v@[j]).0 <= width - 2 && 1 <= v@[j].1
                        <= width - 2 && !snake@.overlaps_except_tail(
                        (v@[j].0 as int, v@[j].1 as int),
                    ),
                forall|a: int, b: int|
                    #![trigger snake@.overlaps_except_tail((a, b))]
                    1 <= a <= width - 2 && 1 <= b < y as int && !snake@.overlaps_except_tail(
                        (a, b),
                    ) ==> cell_listed(v@, a, b),
                forall|a: int|
                    #![trigger snake@.overlaps_except_tail((a, y as int))]
                    1 <= a < x as int && !snake@.overlaps_except_tail((a, y as int))
                        ==> cell_listed(v@, a, y as int),
            decreases hi - x,
        {
            let ghost v0 = v@;
            if !snake.overlap_tail(x, y) {
                v.push((x, y));
                proof {
                    assert(v@ == v0.push((x, y)));
                    assert forall|a: int, b: int|
                        1 <= a <= width - 2 && 1 <= b < y as int && !snake@.overlaps_except_tail(
                            (a, b),
                        ) implies cell_listed(v@, a, b) by {
                        assert(cell_listed(v0, a, b));
                        lemma_cell_listed_push(v0, (x, y), a, b);
                    }
                    assert forall|a: int|
                        1 <= a < x as int + 1 && !snake@.overlaps_except_tail(
                            (a, y as int),
                        ) implies cell_listed(v@, a, y as int) by {
                        if a < x as int {
                            assert(cell_listed(v0, a, y as int));
                            lemma_cell_listed_push(v0, (x, y), a, y as int);
                        } else {
                            assert(v@[v@.len() - 1] == (x, y));
                            assert(cell_listed(v@, x as int, y as int));
                        }
                    }
                }
            }
            x += 1;
        }
        proof {
            assert forall|a: int, b: int|
                1 <= a <= width - 2 && 1 <= b < y as int + 1 && !snake@.overlaps_except_tail(
                    (a, b),
                ) implies cell_listed(v@, a, b) by {
                if b == y as int {
                    assert(!snake@.overlaps_except_tail((a, y as int)));
                }
            }
        }
        y += 1;
    }
    v
}

/// A running snake game.
pub struct Game {
    snake: Snake,
    food_exists: bool,
    food_x: i32,
    food_y: i32,
    width: i32,
    height: i32,
    game_over: bool,
    waiting_time: u64,
}

impl View for Game {
    type V = GameView;

    closed spec fn view(&self) -> GameView {
        GameView {
            snake: self.snake@,
            food_exists: self.food_exists,
            food: (self.food_x as int, self.food_y as int),
            width: self.width as int,
            height: self.height as int,
            game_over: self.game_over,
            waiting_time: self.waiting_time as int,
        }
    }
}

impl Game {
    /// Builds a fresh game on a `width` by `height` board: the starting
    /// snake, food at its fixed starting cell, no game over, counter at
    /// zero. The board must be large enough to hold the starting snake
    /// strictly inside the border.
    pub fn new(width: i32, height: i32) -> (g: Game)
        requires
            6 <= width,
            4 <= height,
        ensures
            g@ == game_initial(width as int, height as int),
            g@.wf(),
    {
        let g = Game {
            snake: Snake::new(2, 2),
            food_exists: true,
            food_x: 6,
            food_y: 4,
            width,
            height,
            game_over: false,
            waiting_time: 0,
        };
        proof {
            assert(g@ =~= game_initial(width as int, height as int));
        }
        g
    }

    /// Reacts to a key already mapped to a direction (`None` for any key
    /// that maps to no direction): ignored when the game is over, when
    /// there is no direction, or when the direction would exactly reverse
    /// the heading; otherwise the snake updates immediately, and the next
    /// timed move starts counting from zero.
    pub fn key_pressed(&mut self, dir: Option<Direction>)
        requires
            old(self)@.wf(),
        ensures
            final(self)@ == old(self)@.keyed(dir),
            final(self)@.wf(),
    {
        if self.game_over {
            return ;
        }
        let d = match dir {
            Some(d) => d,
            None => { return ; },
        };
        if d == self.snake.head_direction().opposite() {
            return ;
        }
        self.update_snake(Some(d));
    }

    /// Accumulates `delta_ms` into the elapsed-time counter, then: once the
    /// game is over and the counter passes the restart threshold, restarts;
    /// otherwise places food if none exists, and advances the snake along
    /// its heading once the counter passes the moving period.
    pub fn update(&mut self, delta_ms: u32)
        requires
            old(self)@.wf(),
        ensures
            final(self)@.wf(),
            ({
                let wt = old(self)@.waiting_time + delta_ms;
                let base = old(self)@.with_waiting(wt);
                &&& (old(self)@.game_over ==> final(self)@ == (if wt > RESTART_TIME_MS as int {
                    old(self)@.restarted()
                } else {
                    base
                }))
                &&& (!old(self)@.game_over ==> exists|g1: GameView|
                    #[trigger] base.food_phase(g1) && final(self)@ == (if wt
                        > MOVING_PERIOD_MS as int {
                        g1.stepped(None)
                    } else {
                        g1
                    }))
            }),
    {
        self.waiting_time = self.waiting_time + (delta_ms as u64);

        if self.game_over {
            if self.waiting_time > RESTART_TIME_MS {
                self.restart();
            }
            return ;
        }
        let ghost base = self@;

        if !self.food_exists {
            self.add_food();
        }
        let ghost g1 = self@;
        proof {
            assert(base.food_phase(g1));
        }

        if self.waiting_time > MOVING_PERIOD_MS {
            self.update_snake(None);
        }
    }

    /// Whether food currently exists on the board.
    pub fn food_exists(&self) -> (b: bool)
        ensures
            b == self@.food_exists,
    {
        self.food_exists
    }

    /// The cell the food occupies (meaningful while food exists).
    pub fn food_position(&self) -> (p: (i32, i32))
        ensures
            (p.0 as int, p.1 as int) == self@.food,
    {
        (self.food_x, self.food_y)
    }

    /// The board extents in cells, fixed at construction.
    pub fn size(&self) -> (s: (i32, i32))
        ensures
            (s.0 as int, s.1 as int) == (self@.width, self@.height),
    {
        (self.width, self.height)
    }

    /// Whether the game has ended and is counting down to a restart.
    pub fn is_game_over(&self) -> (b: bool)
        ensures
            b == self@.game_over,
    {
        self.game_over
    }

    /// Milliseconds accumulated since the last snake advance (or, after a
    /// game over, since the game ended).
    pub fn elapsed(&self) -> (t: u64)
        ensures
            t as int == self@.waiting_time,
    {
        self.waiting_time
    }

    /// The snake itself, for callers that draw or inspect it.
    pub fn snake(&self) -> (s: &Snake)
        ensures
            s@ == self@.snake,
    {
        &self.snake
    }

    /// Whether food exists exactly where the snake's head now is; if so,
    /// the food is consumed and the tail cell grows back.
    fn check_eating(&mut self)
        requires
            old(self)@.snake.wf(),
            old(self)@.food_exists && old(self)@.food == old(self)@.snake.head() ==> old(
                self,
            )@.snake.tail is Some,
        ensures
            final(self)@ == old(self)@.after_eat(),
    {
        let (head_x, head_y): (i32, i32) = self.snake.head_position();
        if self.food_exists && self.food_x == head_x && self.food_y == head_y {
            self.food_exists = false;
            self.snake.restore_tail();
        }
        proof {
            assert(self@ =~= old(self)@.after_eat());
        }
    }

    /// Whether a move using `dir` would keep the snake alive: the
    /// prospective head cell must hit neither the body (the vacating tail
    /// cell excepted) nor the border ring.
    fn check_if_snake_alive(&self, dir: Option<Direction>) -> (r: bool)
        requires
            self@.board_ok(),
        ensures
            r == self@.alive_with(dir),
    {
        proof {
            assert(self@.cell_inside(self@.snake.body[0]));
        }
        let (next_x, next_y): (i32, i32) = self.snake.next_head(dir);

        if self.snake.overlap_tail(next_x, next_y) {
            return false;
        }
        next_x > 0 && next_y > 0 && next_x < self.width - 1 && next_y < self.height - 1
    }

    /// Places food on a cell drawn uniformly among the cells of the square
    /// `1 ..= width - 2` that the snake does not cover; when the snake
    /// covers them all, the food is left as it was. Drawing any cell of the
    /// square and redrawing on a collision would give the same
    /// distribution, but has no bound on the number of draws. Note that
    /// both coordinates range over the width of the board: on a board
    /// wider than it is tall, food can land beyond the bottom border.
    fn add_food(&mut self)
        requires
            old(self)@.board_ok(),
        ensures
            old(self)@.food_placed(final(self)@),
            final(self)@.board_ok(),
    {
        let candidates = free_cells(&self.snake, self.width);
        if candidates.len() > 0 {
            let k: usize = random_index(candidates.len());
            let c: (i32, i32) = candidates[k];
            proof {
                assert(c == candidates@[k as int]);
                assert(!self@.snake.overlaps_except_tail((c.0 as int, c.1 as int)));
            }
            self.food_x = c.0;
            self.food_y = c.1;
            self.food_exists = true;
        }
        proof {
            assert(self@ =~= GameView {
                food_exists: self@.food_exists,
                food: self@.food,
                ..old(self)@
            });
            if exists|p: (int, int)| old(self)@.food_cell_ok(p) {
                let p = choose|p: (int, int)| old(self)@.food_cell_ok(p);
                assert((p.0, p.1) == p);
                assert(!old(self)@.snake.overlaps_except_tail((p.0, p.1)));
                assert(cell_listed(candidates@, p.0, p.1));
                assert(candidates@.len() > 0);
            }
        }
    }

    /// One snake update using `dir`: if the move is legal it is committed
    /// and checked for a meal, otherwise the game ends; either way the
    /// elapsed-time counter starts over.
    fn update_snake(&mut self, dir: Option<Direction>)
        requires
            old(self)@.board_ok(),
        ensures
            final(self)@ == old(self)@.stepped(dir),
            final(self)@.wf(),
    {
        if self.check_if_snake_alive(dir) {
            proof {
                assert(self@.cell_inside(self@.snake.body[0]));
            }
            self.snake.move_forward(dir);
            self.check_eating();
        } else {
            self.game_over = true;
        }
        self.waiting_time = 0;
        proof {
            assert(self@ =~= old(self)@.stepped(dir));
            lemma_stepped_preserves_board(old(self)@, dir);
        }
    }

    /// Puts the game back in its starting state on the same board: the
    /// starting snake, food at its fixed starting cell, flags and counter
    /// cleared.
    fn restart(&mut self)
        requires
            6 <= old(self)@.width,
            4 <= old(self)@.height,
        ensures
            final(self)@ == old(self)@.restarted(),
            final(self)@.wf(),
    {
        self.snake = Snake::new(2, 2);
        self.waiting_time = 0;
        self.food_exists = true;
        self.food_x = 6;
        self.food_y = 4;
        self.game_over = false;
        proof {
            assert(self@ =~= old(self)@.restarted());
        }
    }
}

/// Every snake update keeps the board invariant: each cell of the snake —
/// the removed tail cell included — stays strictly inside the border, and
/// the elapsed-time counter starts over.
pub proof fn lemma_stepped_preserves_board(g: GameView, dir: Option<Direction>)
    requires
        g.board_ok(),
    ensures
        g.stepped(dir).board_ok(),
        g.stepped(dir).waiting_time == 0,
{
    if g.alive_with(dir) {
        let moved = GameView { snake: g.snake.moved(dir), ..g };
        assert forall|i: int| 0 <= i < moved.snake.body.len() implies moved.cell_inside(
            #[trigger] moved.snake.body[i],
        ) by {
            if i > 0 {
                assert(moved.snake.body[i] == g.snake.body[i - 1]);
            }
        }
        assert(moved.cell_inside(g.snake.body[g.snake.body.len() - 1]));
        let eaten = moved.after_eat();
        assert forall|i: int| 0 <= i < eaten.snake.body.len() implies eaten.cell_inside(
            #[trigger] eaten.snake.body[i],
        ) by {
            if i < moved.snake.body.len() {
                assert(eaten.snake.body[i] == moved.snake.body[i]);
            } else {
                assert(eaten.snake.body[i] == moved.snake.tail.unwrap());
            }
        }
    }
}

/// A keypress for the exact opposite of the current heading leaves the
/// whole game state unchanged — the snake cannot be reversed onto itself.
pub proof fn lemma_reversal_rejected(g: GameView, d: Direction)
    requires
        d == dir_opposite(g.snake.direction),
    ensures
        g.keyed(Some(d)) == g,
{
}

/// A keypress for any direction other than the exact opposite of the
/// heading changes the heading to that direction, provided the game is
/// running and the move it triggers is a legal one.
pub proof fn lemma_turn_accepted(g: GameView, d: Direction)
    requires
        !g.game_over,
        d != dir_opposite(g.snake.direction),
        g.alive_with(Some(d)),
    ensures
        g.keyed(Some(d)).snake.direction == d,
{
}

/// Moving so that the next head cell lands on the border ring — the first
/// or last column, or the first or last row — ends the game and leaves the
/// snake where it was.
pub proof fn lemma_border_lethal(g: GameView, dir: Option<Direction>)
    requires
        g.board_ok(),
        ({
            let n = g.snake.next_head_cell(dir);
            n.0 == 0 || n.0 == g.width - 1 || n.1 == 0 || n.1 == g.height - 1
        }),
    ensures
        g.stepped(dir).game_over,
        g.stepped(dir).snake == g.snake,
{
}

/// When food sits exactly on the prospective head cell and the move is
/// legal, the update commits the move, consumes the food, and grows the
/// body by exactly one cell.
pub proof fn lemma_eating_grows(g: GameView, dir: Option<Direction>)
    requires
        g.board_ok(),
        g.alive_with(dir),
        g.food_exists,
        g.food == g.snake.next_head_cell(dir),
    ensures
        !g.stepped(dir).food_exists,
        g.stepped(dir).snake.body.len() == g.snake.body.len() + 1,
{
    let moved = GameView { snake: g.snake.moved(dir), ..g };
    assert(moved.snake.head() == g.snake.next_head_cell(dir));
    assert(moved.food_exists && moved.food == moved.snake.head());
}

/// A restart puts the game back in exactly the state a fresh game starts
/// in on the same board: the three-cell starting snake heading Right, food
/// back at its fixed starting cell, no game over, counter at zero.
pub proof fn lemma_restart_state(g: GameView)
    ensures
        g.restarted() == game_initial(g.width, g.height),
        g.restarted().snake.body =~= seq![(4int, 2int), (3int, 2int), (2int, 2int)],
        g.restarted().snake.direction == Direction::Right,
        g.restarted().food_exists,
        g.restarted().food == (6int, 4int),
        !g.restarted().game_over,
        g.restarted().waiting_time == 0,
{
    assert(g.restarted() =~= game_initial(g.width, g.height));
}

} // verus!

