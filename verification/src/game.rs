use vstd::prelude::*;

use rand::Rng;

use crate::snake::{
    adjacent, distinct_cells, hits_front, initial_snake, lemma_moved_adjacent,
    lemma_step_then_grow, Direction, Snake, SnakeView,
};

verus! {

/// Time between two autonomous steps, in milliseconds.
pub const MOVING_PERIOD_MS: u64 = 100;

/// Time spent in the game-over state before the automatic restart, in
/// milliseconds.
pub const RESTART_TIME_MS: u64 = 1000;

/// A directional hint decoded from a key press; anything that is not an
/// arrow key arrives as `Other`.
#[derive(Clone, Copy, Debug, PartialEq, Eq, Structural)]
pub enum KeyPress {
    Up,
    Down,
    Left,
    Right,
    Other,
}

struct FoodPosition {
    exists: bool,
    x: i32,
    y: i32,
}

impl FoodPosition {
    fn new(x: i32, y: i32) -> (f: FoodPosition)
        ensures
            f.x == x,
            f.y == y,
            !f.exists,
    {
        FoodPosition { x, y, exists: false }
    }
}

/// Mathematical model of a whole game: the snake, the board bounds, the
/// game-over flag, the food cell, and the accumulated waiting time in
/// milliseconds.
#[verifier::ext_equal]
pub ghost struct GameView {
    pub snake: SnakeView,
    pub width: int,
    pub height: int,
    pub over: bool,
    pub food_exists: bool,
    pub food: (int, int),
    pub waiting: int,
}

/// `w + dt`, saturating at the largest `u64` value.
pub open spec fn accum(w: int, dt: int) -> int {
    if w + dt > u64::MAX as int {
        u64::MAX as int
    } else {
        w + dt
    }
}

impl GameView {
    /// `p` lies strictly inside the one-cell border of the board.
    pub open spec fn in_interior(self, p: (int, int)) -> bool {
        &&& 0 < p.0 < self.width - 1
        &&& 0 < p.1 < self.height - 1
    }

    /// The standing invariant: the board is large enough for the starting
    /// snake, the body is a non-empty chain of unit steps with no cell
    /// occupied twice, every body cell lies inside the border, and the food,
    /// when it exists, lies inside the border on a cell free of the snake.
    pub open spec fn wf(self) -> bool {
        &&& self.width >= 6
        &&& self.height >= 4
        &&& self.snake.wf()
        &&& distinct_cells(self.snake.body)
        &&& forall|i: int|
            0 <= i < self.snake.body.len() ==> self.in_interior(#[trigger] self.snake.body[i])
        &&& self.food_exists ==> self.in_interior(self.food) && !self.snake.body.contains(
            self.food,
        )
    }

    /// The direction a key press asks for; a non-arrow key asks for the
    /// current heading.
    pub open spec fn key_dir(self, key: KeyPress) -> Direction {
        match key {
            KeyPress::Up => Direction::Up,
            KeyPress::Down => Direction::Down,
            KeyPress::Left => Direction::Left,
            KeyPress::Right => Direction::Right,
            KeyPress::Other => self.snake.dir,
        }
    }

    /// A key press is ignored when it asks for the current heading or for
    /// its exact reverse.
    pub open spec fn rejects_key(self, key: KeyPress) -> bool {
        ||| self.key_dir(key) == self.snake.dir
        ||| self.key_dir(key) == self.snake.dir.opposite_spec()
    }

    /// A move under `dir` is valid: the next head cell neither overlaps a
    /// non-tail body cell nor lies on or outside the border.
    pub open spec fn alive_with(self, dir: Option<Direction>) -> bool {
        &&& !hits_front(self.snake.body, self.snake.next_head(dir))
        &&& self.in_interior(self.snake.next_head(dir))
    }

    /// The move under `dir` would land the head on the existing food.
    pub open spec fn eats_with(self, dir: Option<Direction>) -> bool {
        self.food_exists && self.snake.next_head(dir) == self.food
    }

    /// The game after one attempted move under `dir`: a valid move advances
    /// the snake, consumes food under the new head (growing the snake by
    /// one), and resets the waiting time; an invalid move only raises the
    /// game-over flag.
    pub open spec fn snake_updated(self, dir: Option<Direction>) -> GameView {
        if self.alive_with(dir) {
            GameView {
                snake: if self.eats_with(dir) {
                    self.snake.stepped(dir).grown()
                } else {
                    self.snake.stepped(dir)
                },
                food_exists: self.food_exists && !self.eats_with(dir),
                waiting: 0,
                ..self
            }
        } else {
            GameView { over: true, ..self }
        }
    }

    /// The game right after a restart on a board of the given bounds.
    pub open spec fn initial(width: int, height: int) -> GameView {
        GameView {
            snake: initial_snake(2, 2),
            width,
            height,
            over: false,
            food_exists: false,
            food: (0, 0),
            waiting: 0,
        }
    }

    /// The game with `dt` more milliseconds accumulated on the waiting
    /// timer.
    pub open spec fn ticked(self, dt: int) -> GameView {
        GameView { waiting: accum(self.waiting, dt), ..self }
    }

    /// The game after the periodic part of a tick: an autonomous step under
    /// the current heading, taken only once enough time has accumulated.
    pub open spec fn auto_stepped(self) -> GameView {
        if self.waiting > MOVING_PERIOD_MS as int {
            self.snake_updated(None)
        } else {
            self
        }
    }

    /// Food may appear on `p`: inside the border and not on the snake.
    pub open spec fn can_spawn_at(self, p: (int, int)) -> bool {
        self.in_interior(p) && !self.snake.body.contains(p)
    }

    /// Some cell is still free for food.
    pub open spec fn has_free_cell(self) -> bool {
        exists|p: (int, int)| self.can_spawn_at(p)
    }

    /// The game with food present on `p`.
    pub open spec fn with_food(self, p: (int, int)) -> GameView {
        GameView { food_exists: true, food: p, ..self }
    }
}

/// A valid attempted move preserves the game invariant.
proof fn lemma_snake_updated_wf(v: GameView, dir: Option<Direction>)
    requires
        v.wf(),
    ensures
        v.snake_updated(dir).wf(),
{
    if v.alive_with(dir) {
        let nh = v.snake.next_head(dir);
        let b = v.snake.body;
        lemma_moved_adjacent(v.snake.head(), v.snake.heading(dir));
        let s1 = v.snake.stepped(dir);
        assert(s1.body.len() == b.len());
        assert(s1.body[0] == nh);
        assert forall|i: int| 1 <= i < s1.body.len() implies s1.body[i] == b[i - 1] by {
            assert(s1.body[i] == b.drop_last()[i - 1]);
        }
        assert forall|i: int|
            0 <= i < s1.body.len() - 1 implies adjacent(
            #[trigger] s1.body[i],
            s1.body[i + 1],
        ) by {
            if i > 0 {
                assert(adjacent(b[i - 1], b[i]));
            }
        }
        assert(distinct_cells(s1.body));
        assert forall|i: int|
            0 <= i < s1.body.len() implies v.in_interior(#[trigger] s1.body[i]) by {
            if i > 0 {
                assert(v.in_interior(b[i - 1]));
            }
        }
        if v.eats_with(dir) {
            let s2 = s1.grown();
            lemma_step_then_grow(v.snake, dir);
            assert(s2.body =~= seq![nh] + b);
            assert(s2.body[0] == nh);
            assert forall|i: int| 1 <= i < s2.body.len() implies s2.body[i] == b[i - 1] by {}
            assert(!b.contains(nh));
            assert forall|i: int|
                0 <= i < s2.body.len() - 1 implies adjacent(
                #[trigger] s2.body[i],
                s2.body[i + 1],
            ) by {
                if i > 0 {
                    assert(adjacent(b[i - 1], b[i]));
                }
            }
            assert forall|i: int, j: int|
                0 <= i < j < s2.body.len() implies s2.body[i] != s2.body[j] by {
                if i > 0 {
                    assert(b[i - 1] != b[j - 1]);
                } else {
                    assert(s2.body[j] == b[j - 1]);
                }
            }
            assert forall|i: int|
                0 <= i < s2.body.len() implies v.in_interior(#[trigger] s2.body[i]) by {
                if i > 0 {
                    assert(v.in_interior(b[i - 1]));
                }
            }
        } else {
            if v.food_exists {
                assert forall|i: int|
                    0 <= i < s1.body.len() implies s1.body[i] != v.food by {
                    if i > 0 {
                        assert(!b.contains(v.food));
                        assert(b[i - 1] != v.food);
                    }
                }
                assert(!s1.body.contains(v.food));
            }
        }
    }
}

/// The game right after a restart satisfies the game invariant.
proof fn lemma_initial_wf(width: int, height: int)
    requires
        width >= 6,
        height >= 4,
    ensures
        GameView::initial(width, height).wf(),
{
    let v = GameView::initial(width, height);
    assert(v.snake.body[0] == (4int, 2int));
    assert(v.snake.body[1] == (3int, 2int));
    assert(v.snake.body[2] == (2int, 2int));
    assert(v.snake.body.len() == 3);
    assert(adjacent(v.snake.body[0], v.snake.body[1]));
    assert(adjacent(v.snake.body[1], v.snake.body[2]));
}

/// The int-valued cells a vector of exec cells stands for.
pub open spec fn cells(s: Seq<(i32, i32)>) -> Seq<(int, int)> {
    s.map(|i: int, p: (i32, i32)| (p.0 as int, p.1 as int))
}

/// Relies on rand's `thread_rng` and `Rng::gen_range`: a sample drawn from a
/// nonempty half-open range lies within that range; the range `0..n` is
/// nonempty because `n > 0`.
#[verifier::external_body]
fn random_below(n: usize) -> (r: usize)
    requires
        n > 0,
    ensures
        r < n,
{
    rand::thread_rng().gen_range(0..n)
}

pub struct Game {
    snake: Snake,
    width: i32,
    height: i32,
    is_game_over: bool,
    food: FoodPosition,
    waiting_time: u64,
}

impl View for Game {
    type V = GameView;

    closed spec fn view(&self) -> GameView {
        GameView {
            snake: self.snake@,
            width: self.width as int,
            height: self.height as int,
            over: self.is_game_over,
            food_exists: self.food.exists,
            food: (self.food.x as int, self.food.y as int),
            waiting: self.waiting_time as int,
        }
    }
}

impl Game {
    /// A fresh game on a board of `width` by `height` cells; the board must
    /// be large enough to hold the starting snake clear of the border.
    pub fn new(width: i32, height: i32) -> (g: Game)
        requires
            width >= 6,
            height >= 4,
        ensures
            g@ == GameView::initial(width as int, height as int),
            g@.wf(),
    {
        let g = Game {
            snake: Snake::new(2, 2),
            width,
            height,
            is_game_over: false,
            waiting_time: 0,
            food: FoodPosition::new(0, 0),
        };
        proof {
            assert(g@ =~= GameView::initial(width as int, height as int));
            lemma_initial_wf(width as int, height as int);
        }
        g
    }

    /// Feed one key press to the game. While the game is over the press is
    /// ignored; a press that asks for the current heading or its reverse is
    /// rejected; any other press sets the heading and forces an immediate
    /// move, not gated by the move period.
    pub fn key_pressed(&mut self, key: KeyPress)
        requires
            old(self)@.wf(),
        ensures
            final(self)@.wf(),
            old(self)@.over ==> final(self)@ == old(self)@,
            !old(self)@.over && old(self)@.rejects_key(key) ==> final(self)@ == old(self)@,
            !old(self)@.over && !old(self)@.rejects_key(key)
                ==> final(self)@ == old(self)@.snake_updated(Some(old(self)@.key_dir(key))),
    {
        if self.is_game_over {
            return;
        }

        let dir = match key {
            KeyPress::Up => Direction::Up,
            KeyPress::Down => Direction::Down,
            KeyPress::Left => Direction::Left,
            KeyPress::Right => Direction::Right,
            KeyPress::Other => self.snake.head_direction(),
        };

        if dir == self.snake.head_direction() || dir == self.snake.head_direction().opposite() {
            return;
        }
        self.update_snake(Some(dir));
    }

    fn check_snake_alive(&self, dir: Option<Direction>) -> (r: bool)
        requires
            self@.wf(),
        ensures
            r == self@.alive_with(dir),
    {
        let (x, y) = self.snake.next_head(dir);

        if self.snake.overlap_tail(x, y) {
            return false;
        }
        x > 0 && y > 0 && x < self.width - 1 && y < self.height - 1
    }

    /// Advance the game by `dt` milliseconds. While the game is over, time
    /// only accumulates until the restart delay passes, and then the game
    /// restarts. Otherwise absent food is refilled on a free cell, and once
    /// the move period has passed the snake takes one autonomous step.
    pub fn update(&mut self, dt: u64)
        requires
            old(self)@.wf(),
        ensures
            final(self)@.wf(),
            old(self)@.over && old(self)@.ticked(dt as int).waiting > RESTART_TIME_MS as int
                ==> final(self)@ == GameView::initial(old(self)@.width, old(self)@.height),
            old(self)@.over && old(self)@.ticked(dt as int).waiting <= RESTART_TIME_MS as int
                ==> final(self)@ == old(self)@.ticked(dt as int),
            !old(self)@.over && old(self)@.food_exists ==> final(self)@ == old(self)@.ticked(
                dt as int,
            ).auto_stepped(),
            !old(self)@.over && !old(self)@.food_exists && old(self)@.has_free_cell()
                ==> exists|p: (int, int)|
                #[trigger] old(self)@.can_spawn_at(p) && final(self)@ == old(self)@.ticked(
                    dt as int,
                ).with_food(p).auto_stepped(),
            !old(self)@.over && !old(self)@.food_exists && !old(self)@.has_free_cell()
                ==> final(self)@ == old(self)@.ticked(dt as int).auto_stepped(),
    {
        self.waiting_time = if dt > u64::MAX - self.waiting_time {
            u64::MAX
        } else {
            self.waiting_time + dt
        };
        proof {
            assert(self@ =~= old(self)@.ticked(dt as int));
        }

        if self.is_game_over {
            if self.waiting_time > RESTART_TIME_MS {
                self.restart();
            }
            return;
        }

        if !self.food.exists {
            self.add_food();
        }

        let ghost mid = self@;

        if self.waiting_time > MOVING_PERIOD_MS {
            self.update_snake(None);
        }

        proof {
            let t = old(self)@.ticked(dt as int);
            if !old(self)@.food_exists && old(self)@.has_free_cell() {
                let q = choose|q: (int, int)| old(self)@.can_spawn_at(q);
                assert(t.can_spawn_at(q));
                assert(t.has_free_cell());
                let p = choose|p: (int, int)| t.can_spawn_at(p) && mid == t.with_food(p);
                assert(old(self)@.can_spawn_at(p));
                assert(final(self)@ == t.with_food(p).auto_stepped());
            }
            if !old(self)@.food_exists && !old(self)@.has_free_cell() {
                assert forall|p: (int, int)| !t.can_spawn_at(p) by {
                    if t.can_spawn_at(p) {
                        assert(old(self)@.can_spawn_at(p));
                    }
                }
                assert(!t.has_free_cell());
            }
        }
    }

    fn restart(&mut self)
        requires
            old(self)@.width >= 6,
            old(self)@.height >= 4,
        ensures
            final(self)@ == GameView::initial(old(self)@.width, old(self)@.height),
            final(self)@.wf(),
    {
        self.snake = Snake::new(2, 2);
        self.waiting_time = 0;
        self.food.exists = false;
        self.food.x = 0;
        self.food.y = 0;
        self.is_game_over = false;
        proof {
            assert(self@ =~= GameView::initial(old(self)@.width, old(self)@.height));
            lemma_initial_wf(old(self)@.width, old(self)@.height);
        }
    }

    /// Every interior cell the snake leaves free, in one vector.
    fn free_cells(&self) -> (free: Vec<(i32, i32)>)
        requires
            self@.wf(),
        ensures
            forall|j: int| 0 <= j < free@.len() ==> self@.can_spawn_at(#[trigger] cells(free@)[j]),
            forall|p: (int, int)| #[trigger] self@.can_spawn_at(p) ==> cells(free@).contains(p),
    {
        let mut free: Vec<(i32, i32)> = Vec::new();
        let mut x: i32 = 1;
        while x < self.width - 1
            invariant
                self@.wf(),
                1 <= x <= self@.width - 1,
                forall|j: int|
                    0 <= j < free@.len() ==> self@.can_spawn_at(#[trigger] cells(free@)[j]),
                forall|p: (int, int)|
                    #[trigger] self@.can_spawn_at(p) && p.0 < x ==> cells(free@).contains(p),
            decreases self@.width - x,
        {
            let mut y: i32 = 1;
            while y < self.height - 1
                invariant
                    self@.wf(),
                    1 <= x < self@.width - 1,
                    1 <= y <= self@.height - 1,
                    forall|j: int|
                        0 <= j < free@.len() ==> self@.can_spawn_at(#[trigger] cells(free@)[j]),
                    forall|p: (int, int)|
                        #[trigger] self@.can_spawn_at(p) && (p.0 < x || (p.0 == x && p.1 < y))
                            ==> cells(free@).contains(p),
                decreases self@.height - y,
            {
                if !self.snake.occupies(x, y) {
                    let ghost before = cells(free@);
                    free.push((x, y));
                    proof {
                        assert(cells(free@) =~= before.push((x as int, y as int)));
                        assert forall|p: (int, int)|
                            #[trigger] self@.can_spawn_at(p) && (p.0 < x || (p.0 == x && p.1 <= y))
                                implies cells(free@).contains(p) by {
                            if p.0 == x && p.1 == y {
                                assert(cells(free@)[before.len() as int] == p);
                            } else {
                                assert(before.contains(p));
                                let j = choose|j: int| 0 <= j < before.len() && before[j] == p;
                                assert(cells(free@)[j] == p);
                            }
                        }
                    }
                }
                y += 1;
            }
            x += 1;
        }
        free
    }

    /// Put the food on a free interior cell picked uniformly at random; when
    /// the snake leaves no interior cell free, the food stays absent.
    fn add_food(&mut self)
        requires
            old(self)@.wf(),
        ensures
            final(self)@.wf(),
            old(self)@.has_free_cell() ==> exists|p: (int, int)|
                #[trigger] old(self)@.can_spawn_at(p) && final(self)@ == old(self)@.with_food(p),
            !old(self)@.has_free_cell() ==> final(self)@ == old(self)@,
    {
        let free = self.free_cells();
        if free.len() == 0 {
            proof {
                assert forall|p: (int, int)| !old(self)@.can_spawn_at(p) by {
                    if old(self)@.can_spawn_at(p) {
                        assert(cells(free@).contains(p));
                    }
                }
            }
            return;
        }
        let idx = random_below(free.len());
        let (fx, fy) = free[idx];
        proof {
            assert(old(self)@.can_spawn_at(cells(free@)[idx as int]));
        }
        self.food.x = fx;
        self.food.y = fy;
        self.food.exists = true;
        proof {
            assert(final(self)@ =~= old(self)@.with_food((fx as int, fy as int)));
        }
    }

    fn check_eating(&mut self)
        requires
            old(self)@.snake.body.len() >= 1,
        ensures
            old(self)@.food_exists && old(self)@.snake.head() == old(self)@.food ==> final(self)@
                =~= (GameView { snake: old(self)@.snake.grown(), food_exists: false, ..old(self)@ }),
            !(old(self)@.food_exists && old(self)@.snake.head() == old(self)@.food)
                ==> final(self)@ == old(self)@,
    {
        let (x, y) = self.snake.head_position();

        let is_eating = x == self.food.x && y == self.food.y && self.food.exists;

        if is_eating {
            self.food.exists = false;
            self.snake.restore_tail();
        }
    }

    fn update_snake(&mut self, dir: Option<Direction>)
        requires
            old(self)@.wf(),
            !old(self)@.over,
        ensures
            final(self)@.wf(),
            final(self)@ == old(self)@.snake_updated(dir),
    {
        proof {
            lemma_snake_updated_wf(old(self)@, dir);
        }
        if self.check_snake_alive(dir) {
            self.snake.move_forward(dir);
            self.check_eating();
            self.waiting_time = 0;
            proof {
                assert(final(self)@ =~= old(self)@.snake_updated(dir));
            }
        } else {
            self.is_game_over = true;
            proof {
                assert(final(self)@ =~= old(self)@.snake_updated(dir));
            }
        }
    }

    /// Board width in cells.
    pub fn width(&self) -> (w: i32)
        ensures
            w as int == self@.width,
    {
        self.width
    }

    /// Board height in cells.
    pub fn height(&self) -> (h: i32)
        ensures
            h as int == self@.height,
    {
        self.height
    }

    /// Whether the game is in the game-over state.
    pub fn is_game_over(&self) -> (r: bool)
        ensures
            r == self@.over,
    {
        self.is_game_over
    }

    /// Whether uneaten food is on the board.
    pub fn food_exists(&self) -> (r: bool)
        ensures
            r == self@.food_exists,
    {
        self.food.exists
    }

    /// The food cell; meaningful only while food exists.
    pub fn food_position(&self) -> (p: (i32, i32))
        ensures
            (p.0 as int, p.1 as int) == self@.food,
    {
        (self.food.x, self.food.y)
    }

    /// The snake's current heading.
    pub fn head_direction(&self) -> (d: Direction)
        ensures
            d == self@.snake.dir,
    {
        self.snake.head_direction()
    }

    /// How many cells the snake occupies.
    pub fn snake_len(&self) -> (n: usize)
        ensures
            n == self@.snake.body.len(),
    {
        self.snake.len()
    }

    /// The snake cell at position `i`, the head being at position zero.
    pub fn snake_block(&self, i: usize) -> (p: (i32, i32))
        requires
            i < self@.snake.body.len(),
        ensures
            (p.0 as int, p.1 as int) == self@.snake.body[i as int],
    {
        self.snake.block_at(i)
    }

    /// Put the food on a chosen cell: inside the border and free of the
    /// snake.
    pub fn place_food(&mut self, x: i32, y: i32)
        requires
            old(self)@.wf(),
            old(self)@.can_spawn_at((x as int, y as int)),
        ensures
            final(self)@.wf(),
            final(self)@ == old(self)@.with_food((x as int, y as int)),
    {
        self.food.x = x;
        self.food.y = y;
        self.food.exists = true;
        proof {
            assert(final(self)@ =~= old(self)@.with_food((x as int, y as int)));
        }
    }

    /// Take the food off the board.
    pub fn clear_food(&mut self)
        requires
            old(self)@.wf(),
        ensures
            final(self)@.wf(),
            final(self)@ == (GameView { food_exists: false, ..old(self)@ }),
    {
        self.food.exists = false;
    }
}

} // verus!
