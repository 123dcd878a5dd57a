use vstd::prelude::*;

verus! {

/// Compass heading of the snake on the grid.
#[derive(Clone, Copy, Debug, PartialEq, Eq, Structural)]
pub enum Direction {
    Up,
    Down,
    Left,
    Right,
}

impl Direction {
    pub open spec fn opposite_spec(&self) -> Direction {
        match self {
            Direction::Down => Direction::Up,
            Direction::Up => Direction::Down,
            Direction::Left => Direction::Right,
            Direction::Right => Direction::Left,
        }
    }

    /// The heading that points the opposite way.
    #[verifier::when_used_as_spec(opposite_spec)]
    pub fn opposite(&self) -> (d: Direction)
        ensures
            d == self.opposite_spec(),
    {
        match self {
            Direction::Down => Direction::Up,
            Direction::Up => Direction::Down,
            Direction::Left => Direction::Right,
            Direction::Right => Direction::Left,
        }
    }
}

/// Taking the opposite heading twice leads back to the original heading.
pub proof fn lemma_opposite_involutive(d: Direction)
    ensures
        d.opposite_spec().opposite_spec() == d,
{
}

/// One grid cell occupied by the snake.
#[derive(Debug, Clone, Copy)]
struct SnakeBlock {
    x: i32,
    y: i32,
}

/// The cell one unit step away from `p` in direction `d`.
pub open spec fn moved(p: (int, int), d: Direction) -> (int, int) {
    match d {
        Direction::Up => (p.0, p.1 - 1),
        Direction::Down => (p.0, p.1 + 1),
        Direction::Left => (p.0 - 1, p.1),
        Direction::Right => (p.0 + 1, p.1),
    }
}

/// Two cells differ by exactly one unit in exactly one axis.
pub open spec fn adjacent(a: (int, int), b: (int, int)) -> bool {
    ||| a.0 == b.0 && (a.1 == b.1 + 1 || a.1 == b.1 - 1)
    ||| a.1 == b.1 && (a.0 == b.0 + 1 || a.0 == b.0 - 1)
}

/// No cell appears twice in the body.
pub open spec fn distinct_cells(body: Seq<(int, int)>) -> bool {
    forall|i: int, j: int| 0 <= i < j < body.len() ==> body[i] != body[j]
}

/// `p` equals some body cell other than the very last one (the tail cell,
/// which is about to be vacated and is therefore a legal target).
pub open spec fn hits_front(body: Seq<(int, int)>, p: (int, int)) -> bool {
    exists|i: int| 0 <= i < body.len() - 1 && body[i] == p
}

/// Whether both coordinates of `p` can be represented as `i32` values.
pub open spec fn fits_i32(p: (int, int)) -> bool {
    &&& i32::MIN <= p.0 <= i32::MAX
    &&& i32::MIN <= p.1 <= i32::MAX
}

/// Mathematical model of a snake: the occupied cells head first, the current
/// heading, and the most recently vacated cell (kept so that growth can
/// restore it).
#[verifier::ext_equal]
pub ghost struct SnakeView {
    pub body: Seq<(int, int)>,
    pub dir: Direction,
    pub tail: Option<(int, int)>,
}

impl SnakeView {
    /// The body is never empty and consecutive cells are unit neighbours.
    pub open spec fn wf(self) -> bool {
        &&& self.body.len() >= 1
        &&& forall|i: int|
            0 <= i < self.body.len() - 1 ==> adjacent(#[trigger] self.body[i], self.body[i + 1])
    }

    pub open spec fn head(self) -> (int, int) {
        self.body[0]
    }

    /// The heading a move would take: the override if one is given, the
    /// current heading otherwise.
    pub open spec fn heading(self, dir: Option<Direction>) -> Direction {
        match dir {
            Some(d) => d,
            None => self.dir,
        }
    }

    /// The cell the head would occupy after a move under `dir`.
    pub open spec fn next_head(self, dir: Option<Direction>) -> (int, int) {
        moved(self.head(), self.heading(dir))
    }

    /// The snake after one plain move: the new head is pushed to the front,
    /// the tail cell is popped and remembered.
    pub open spec fn stepped(self, dir: Option<Direction>) -> SnakeView {
        SnakeView {
            body: seq![self.next_head(dir)] + self.body.drop_last(),
            dir: self.heading(dir),
            tail: Some(self.body.last()),
        }
    }

    /// The snake after the remembered tail cell is restored (growth by one);
    /// unchanged when no move has happened yet.
    pub open spec fn grown(self) -> SnakeView {
        match self.tail {
            Some(t) => SnakeView { body: self.body.push(t), dir: self.dir, tail: self.tail },
            None => self,
        }
    }
}

/// The three-cell starting snake: head at `(x + 2, y)`, heading right.
pub open spec fn initial_snake(x: int, y: int) -> SnakeView {
    SnakeView {
        body: seq![(x + 2, y), (x + 1, y), (x, y)],
        dir: Direction::Right,
        tail: None,
    }
}

/// The head position after a plain move is exactly the position `next_head`
/// announced before the move.
pub proof fn lemma_step_head(v: SnakeView, dir: Option<Direction>)
    requires
        v.body.len() >= 1,
    ensures
        v.stepped(dir).head() == v.next_head(dir),
{
}

/// A plain move keeps the body length; restoring the tail right after a move
/// grows it by exactly one.
pub proof fn lemma_step_length(v: SnakeView, dir: Option<Direction>)
    requires
        v.body.len() >= 1,
    ensures
        v.stepped(dir).body.len() == v.body.len(),
        v.stepped(dir).grown().body.len() == v.body.len() + 1,
{
}

/// The cell of the current tail itself is never a front-body overlap: the
/// tail is a legal target the instant before it is vacated.
pub proof fn lemma_tail_never_overlaps(v: SnakeView)
    requires
        v.body.len() >= 1,
        distinct_cells(v.body),
    ensures
        !hits_front(v.body, v.body.last()),
{
    assert forall|i: int| 0 <= i < v.body.len() - 1 implies v.body[i] != v.body.last() by {
        assert(v.body[i] != v.body[v.body.len() - 1]);
    }
}

/// A unit step lands on a neighbouring cell.
pub proof fn lemma_moved_adjacent(p: (int, int), d: Direction)
    ensures
        adjacent(moved(p, d), p),
{
}

/// Restoring the tail right after a plain move rebuilds the pre-move body
/// behind the new head.
pub proof fn lemma_step_then_grow(v: SnakeView, dir: Option<Direction>)
    requires
        v.body.len() >= 1,
    ensures
        v.stepped(dir).grown().body =~= seq![v.next_head(dir)] + v.body,
{
}

pub struct Snake {
    direction: Direction,
    body: Vec<SnakeBlock>,
    tail: Option<SnakeBlock>,
}

impl View for Snake {
    type V = SnakeView;

    closed spec fn view(&self) -> SnakeView {
        SnakeView {
            body: self.body@.map(|i: int, b: SnakeBlock| (b.x as int, b.y as int)),
            dir: self.direction,
            tail: match self.tail {
                Some(b) => Some((b.x as int, b.y as int)),
                None => None,
            },
        }
    }
}

impl Snake {
    /// A new three-cell snake heading right, its head at `(x + 2, y)`.
    pub fn new(x: i32, y: i32) -> (s: Snake)
        requires
            x <= i32::MAX - 2,
        ensures
            s@ == initial_snake(x as int, y as int),
            s@.wf(),
    {
        let mut body: Vec<SnakeBlock> = Vec::new();
        body.push(SnakeBlock { x: x + 2, y });
        body.push(SnakeBlock { x: x + 1, y });
        body.push(SnakeBlock { x, y });

        let s = Snake { direction: Direction::Right, body, tail: None };
        proof {
            assert(s@.body =~= initial_snake(x as int, y as int).body);
            assert(s@ =~= initial_snake(x as int, y as int));
        }
        s
    }

    /// The cell the head occupies.
    pub fn head_position(&self) -> (p: (i32, i32))
        requires
            self@.body.len() >= 1,
        ensures
            (p.0 as int, p.1 as int) == self@.head(),
    {
        let head_block = self.body[0];
        (head_block.x, head_block.y)
    }

    /// The current heading.
    pub fn head_direction(&self) -> (d: Direction)
        ensures
            d == self@.dir,
    {
        self.direction
    }

    /// The cell the head would occupy if the snake moved under `direction`
    /// (or its current heading when none is given), without moving it.
    pub fn next_head(&self, direction: Option<Direction>) -> (p: (i32, i32))
        requires
            self@.body.len() >= 1,
            fits_i32(self@.next_head(direction)),
        ensures
            (p.0 as int, p.1 as int) == self@.next_head(direction),
    {
        let (head_x, head_y) = self.head_position();

        let mut moving_dir = self.direction;

        match direction {
            Some(dir) => moving_dir = dir,
            None => (),
        };

        match moving_dir {
            Direction::Up => (head_x, head_y - 1),
            Direction::Down => (head_x, head_y + 1),
            Direction::Left => (head_x - 1, head_y),
            Direction::Right => (head_x + 1, head_y),
        }
    }

    fn create_block_for(&self, dir: Direction) -> (b: SnakeBlock)
        requires
            self@.body.len() >= 1,
            fits_i32(moved(self@.head(), dir)),
        ensures
            (b.x as int, b.y as int) == moved(self@.head(), dir),
    {
        let (x, y) = self.next_head(Some(dir));

        SnakeBlock { x, y }
    }

    /// Move one cell forward: set the heading if one is given, push the new
    /// head, pop the tail cell and remember it.
    pub fn move_forward(&mut self, dir: Option<Direction>)
        requires
            old(self)@.body.len() >= 1,
            fits_i32(old(self)@.next_head(dir)),
        ensures
            final(self)@ == old(self)@.stepped(dir),
            final(self)@.body.len() == old(self)@.body.len(),
            final(self)@.head() == old(self)@.next_head(dir),
    {
        match dir {
            Some(direction) => self.direction = direction,
            None => (),
        };

        let new_block = self.create_block_for(self.direction);

        self.body.insert(0, new_block);
        let removed_block = self.body.pop().unwrap();
        self.tail = Some(removed_block);

        proof {
            assert(self@.body =~= old(self)@.stepped(dir).body);
            assert(self@ =~= old(self)@.stepped(dir));
        }
    }

    /// Push the remembered tail cell back, growing the snake by one cell;
    /// does nothing when no move has happened yet.
    pub fn restore_tail(&mut self)
        ensures
            final(self)@ == old(self)@.grown(),
    {
        match self.tail {
            Some(blk) => {
                self.body.push(blk);
                proof {
                    assert(self@.body =~= old(self)@.grown().body);
                    assert(self@ =~= old(self)@.grown());
                }
            },
            None => (),
        }
    }

    /// True when `(x, y)` equals a body cell other than the current tail
    /// cell, which is about to be vacated and is therefore a legal target.
    pub fn overlap_tail(&self, x: i32, y: i32) -> (r: bool)
        requires
            self@.body.len() >= 1,
        ensures
            r == hits_front(self@.body, (x as int, y as int)),
    {
        let n = self.body.len();
        let mut i: usize = 0;
        while i < n - 1
            invariant
                self@.body.len() == n,
                n >= 1,
                0 <= i <= n,
                forall|j: int| 0 <= j < i ==> self@.body[j] != (x as int, y as int),
            decreases n - i,
        {
            let block = self.body[i];
            if x == block.x && y == block.y {
                proof {
                    assert(self@.body[i as int] == (x as int, y as int));
                }
                return true;
            }
            i += 1;
        }
        false
    }

    /// True when `(x, y)` equals any body cell, the tail included.
    pub fn occupies(&self, x: i32, y: i32) -> (r: bool)
        ensures
            r == self@.body.contains((x as int, y as int)),
    {
        let n = self.body.len();
        let mut i: usize = 0;
        while i < n
            invariant
                self@.body.len() == n,
                0 <= i <= n,
                forall|j: int| 0 <= j < i ==> self@.body[j] != (x as int, y as int),
            decreases n - i,
        {
            let block = self.body[i];
            if x == block.x && y == block.y {
                proof {
                    assert(self@.body[i as int] == (x as int, y as int));
                }
                return true;
            }
            i += 1;
        }
        false
    }

    /// How many cells the body occupies.
    pub fn len(&self) -> (n: usize)
        ensures
            n == self@.body.len(),
    {
        self.body.len()
    }

    /// The body cell at position `i`, the head being at position zero.
    pub fn block_at(&self, i: usize) -> (p: (i32, i32))
        requires
            i < self@.body.len(),
        ensures
            (p.0 as int, p.1 as int) == self@.body[i as int],
    {
        let block = self.body[i];
        (block.x, block.y)
    }
}

} // verus!
