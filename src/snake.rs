//! Snake bodies on the integer grid: the player snake, which the game stops
//! at walls, and the autonomous snake, which wraps around the grid's edges.

use std::collections::VecDeque;
use vstd::prelude::*;

verus! {

/// One of the four grid directions.
#[derive(Clone, Copy, Debug, PartialEq, Eq, Structural)]
pub enum Direction {
    Up,
    Down,
    Left,
    Right,
}

impl Direction {
    /// The direction turned by 180 degrees.
    pub open spec fn reversed(self) -> Direction {
        match self {
            Direction::Up => Direction::Down,
            Direction::Down => Direction::Up,
            Direction::Left => Direction::Right,
            Direction::Right => Direction::Left,
        }
    }

    /// The direction a snake must never turn to in one step from `self`.
    pub fn opposite(&self) -> (r: Direction)
        ensures
            r == self.reversed(),
    {
        match *self {
            Direction::Up => Direction::Down,
            Direction::Down => Direction::Up,
            Direction::Left => Direction::Right,
            Direction::Right => Direction::Left,
        }
    }
}

/// One grid cell occupied by a snake.
#[derive(Clone, Copy, Debug, PartialEq, Eq, Structural)]
pub struct Block {
    pub x: i32,
    pub y: i32,
}

/// A cell one step away from which, in every direction, still fits in `i32`.
pub open spec fn steppable(b: Block) -> bool {
    i32::MIN < b.x < i32::MAX && i32::MIN < b.y < i32::MAX
}

/// The neighbour of `b` in direction `d`.
pub open spec fn step(b: Block, d: Direction) -> Block
    recommends
        steppable(b),
{
    match d {
        Direction::Up => Block { x: b.x, y: (b.y - 1) as i32 },
        Direction::Down => Block { x: b.x, y: (b.y + 1) as i32 },
        Direction::Left => Block { x: (b.x - 1) as i32, y: b.y },
        Direction::Right => Block { x: (b.x + 1) as i32, y: b.y },
    }
}

/// The direction of travel: the override where one is given, else the current one.
pub open spec fn heading(current: Direction, dir: Option<Direction>) -> Direction {
    match dir {
        Some(d) => d,
        None => current,
    }
}

/// The three cells of a freshly spawned snake whose rearmost cell is `(x, y)`:
/// head at `(x + 2, y)`, body running leftward.
pub open spec fn spawn_body(x: i32, y: i32) -> Seq<Block>
    recommends
        x <= i32::MAX - 2,
{
    seq![
        Block { x: (x + 2) as i32, y },
        Block { x: (x + 1) as i32, y },
        Block { x, y },
    ]
}

/// What a snake is, mathematically: its cells from head to tail, its
/// direction, and the cell that its last move vacated.
pub struct SnakeView {
    pub body: Seq<Block>,
    pub direction: Direction,
    pub tail: Option<Block>,
}

impl SnakeView {
    pub open spec fn head(self) -> Block {
        self.body[0]
    }

    /// The cell the head moves to next, going `dir` if given.
    pub open spec fn next_head(self, dir: Option<Direction>) -> Block {
        step(self.head(), heading(self.direction, dir))
    }

    /// The snake after one plain move: a new head in front, the last cell
    /// dropped and remembered.
    pub open spec fn advanced_to(self, dir: Option<Direction>, head: Block) -> SnakeView {
        SnakeView {
            body: seq![head] + self.body.drop_last(),
            direction: heading(self.direction, dir),
            tail: Some(self.body.last()),
        }
    }

    /// The snake after one move of the player snake.
    pub open spec fn advanced(self, dir: Option<Direction>) -> SnakeView {
        self.advanced_to(dir, self.next_head(dir))
    }

    /// The snake grown by the cell its last move vacated.
    pub open spec fn regrown(self) -> SnakeView
        recommends
            self.tail is Some,
    {
        SnakeView { body: self.body.push(self.tail->0), ..self }
    }

    /// Whether `c` is a cell of the body other than the last one.
    pub open spec fn over_tail(self, c: Block) -> bool {
        exists|i: int| 0 <= i < self.body.len() - 1 && self.body[i] == c
    }

    /// Whether `c` is any cell of the body.
    pub open spec fn occupies(self, c: Block) -> bool {
        self.body.contains(c)
    }
}

/// The player's snake.
#[derive(Debug)]
pub struct Snake {
    direction: Direction,
    body: VecDeque<Block>,
    tail: Option<Block>,
}

impl View for Snake {
    type V = SnakeView;

    closed spec fn view(&self) -> SnakeView {
        SnakeView { body: self.body@, direction: self.direction, tail: self.tail }
    }
}

impl Snake {
    /// A snake has at least one cell.
    pub open spec fn wf(&self) -> bool {
        self@.body.len() > 0
    }

    /// A three-cell snake facing right, head at `(x + 2, y)`.
    pub fn new(x: i32, y: i32) -> (r: Snake)
        requires
            x <= i32::MAX - 2,
        ensures
            r.wf(),
            r@.body == spawn_body(x, y),
            r@.direction == Direction::Right,
            r@.tail is None,
    {
        let mut body: VecDeque<Block> = VecDeque::new();
        body.push_back(Block { x: x + 2, y: y });
        body.push_back(Block { x: x + 1, y: y });
        body.push_back(Block { x: x, y: y });
        let r = Snake { direction: Direction::Right, body, tail: None };
        assert(r@.body =~= spawn_body(x, y));
        r
    }

    /// The head cell.
    pub fn head_position(&self) -> (r: (i32, i32))
        requires
            self.wf(),
        ensures
            r == (self@.head().x, self@.head().y),
    {
        let head = self.body[0];
        (head.x, head.y)
    }

    /// The direction the snake faces.
    pub fn head_direction(&self) -> (r: Direction)
        ensures
            r == self@.direction,
    {
        self.direction
    }

    /// The cell the head would move to, going `dir` if given, else straight on.
    pub fn next_head(&self, dir: Option<Direction>) -> (r: (i32, i32))
        requires
            self.wf(),
            steppable(self@.head()),
        ensures
            r == (self@.next_head(dir).x, self@.next_head(dir).y),
    {
        let (head_x, head_y): (i32, i32) = self.head_position();
        let moving_dir = match dir {
            Some(d) => d,
            None => self.direction,
        };
        match moving_dir {
            Direction::Up => (head_x, head_y - 1),
            Direction::Down => (head_x, head_y + 1),
            Direction::Left => (head_x - 1, head_y),
            Direction::Right => (head_x + 1, head_y),
        }
    }

    /// Moves one cell, turning to `dir` first if given; the vacated last cell
    /// is kept for `restore_tail`.
    pub fn move_forward(&mut self, dir: Option<Direction>)
        requires
            old(self).wf(),
            steppable(old(self)@.head()),
        ensures
            final(self).wf(),
            final(self)@ == old(self)@.advanced(dir),
    {
        let (x, y) = self.next_head(dir);
        if let Some(d) = dir {
            self.direction = d;
        }
        self.body.push_front(Block { x, y });
        let removed = self.body.pop_back();
        self.tail = removed;
        assert(self@.body =~= old(self)@.advanced(dir).body);
    }

    /// Grows the snake by the cell its last move vacated.
    pub fn restore_tail(&mut self)
        requires
            old(self)@.tail is Some,
        ensures
            final(self)@ == old(self)@.regrown(),
            old(self).wf() ==> final(self).wf(),
    {
        if let Some(blk) = self.tail {
            self.body.push_back(blk);
        }
    }

    /// Whether `(x, y)` is a body cell other than the last one, which is
    /// vacated as the head moves.
    pub fn over_tail(&self, x: i32, y: i32) -> (r: bool)
        ensures
            r == self@.over_tail(Block { x, y }),
    {
        let n = self.body.len();
        if n == 0 {
            return false;
        }
        let mut i: usize = 0;
        while i < n - 1
            invariant
                n == self@.body.len(),
                0 < n,
                i < n,
                forall|j: int| 0 <= j < i ==> self@.body[j] != (Block { x, y }),
            decreases n - i,
        {
            let b = self.body[i];
            if b.x == x && b.y == y {
                return true;
            }
            i = i + 1;
        }
        false
    }

    /// Whether `(x, y)` is any cell of the body.
    pub fn occupies(&self, x: i32, y: i32) -> (r: bool)
        ensures
            r == self@.occupies(Block { x, y }),
    {
        let n = self.body.len();
        let mut i: usize = 0;
        while i < n
            invariant
                n == self@.body.len(),
                i <= n,
                forall|j: int| 0 <= j < i ==> self@.body[j] != (Block { x, y }),
            decreases n - i,
        {
            let b = self.body[i];
            if b.x == x && b.y == y {
                assert(self@.body[i as int] == Block { x, y });
                return true;
            }
            i = i + 1;
        }
        false
    }

    /// The body, head first.
    pub fn body(&self) -> (r: &VecDeque<Block>)
        ensures
            r@ == self@.body,
    {
        &self.body
    }
}

/// Where a coordinate lands on an axis of `size` cells whose last playable
/// index is `size - 2`: off one end, it re-enters at the other.
pub open spec fn wrap_coord(v: i32, size: i32) -> i32
    recommends
        size >= i32::MIN + 2,
{
    if v < 0 {
        (size - 2) as i32
    } else if v > size - 2 {
        0
    } else {
        v
    }
}

/// A cell moved back onto a `width` by `height` grid by wrapping each axis.
pub open spec fn wrapped(b: Block, width: i32, height: i32) -> Block {
    Block { x: wrap_coord(b.x, width), y: wrap_coord(b.y, height) }
}

/// A grid size whose wrap bound `size - 2` fits in `i32` with room for one
/// more step.
pub open spec fn wrappable(size: i32) -> bool {
    size > i32::MIN + 2
}

/// An autonomous snake: it moves through the grid's edges instead of dying
/// there, and never dies at all.
#[derive(Debug)]
pub struct AISnake {
    direction: Direction,
    body: VecDeque<Block>,
    tail: Option<Block>,
}

impl View for AISnake {
    type V = SnakeView;

    closed spec fn view(&self) -> SnakeView {
        SnakeView { body: self.body@, direction: self.direction, tail: self.tail }
    }
}

impl AISnake {
    /// An autonomous snake has at least one cell.
    pub open spec fn wf(&self) -> bool {
        self@.body.len() > 0
    }

    /// A three-cell snake facing left, head at `(x + 2, y)`.
    pub fn new(x: i32, y: i32) -> (r: AISnake)
        requires
            x <= i32::MAX - 2,
        ensures
            r.wf(),
            r@.body == spawn_body(x, y),
            r@.direction == Direction::Left,
            r@.tail is None,
    {
        let mut body: VecDeque<Block> = VecDeque::new();
        body.push_back(Block { x: x + 2, y: y });
        body.push_back(Block { x: x + 1, y: y });
        body.push_back(Block { x: x, y: y });
        let r = AISnake { direction: Direction::Left, body, tail: None };
        assert(r@.body =~= spawn_body(x, y));
        r
    }

    /// The head cell.
    pub fn head_position(&self) -> (r: (i32, i32))
        requires
            self.wf(),
        ensures
            r == (self@.head().x, self@.head().y),
    {
        let head = self.body[0];
        (head.x, head.y)
    }

    /// Moves one cell, turning to `dir` first if given; a head that leaves
    /// `[0, width - 2] x [0, height - 2]` re-enters at the opposite edge.
    pub fn move_forward_wrap(&mut self, dir: Option<Direction>, width: i32, height: i32)
        requires
            old(self).wf(),
            steppable(old(self)@.head()),
            wrappable(width),
            wrappable(height),
        ensures
            final(self).wf(),
            final(self)@ == old(self)@.advanced_to(
                dir,
                wrapped(old(self)@.next_head(dir), width, height),
            ),
            steppable(final(self)@.head()),
            width >= 2 ==> 0 <= final(self)@.head().x <= width - 2,
            height >= 2 ==> 0 <= final(self)@.head().y <= height - 2,
    {
        let (nx, ny) = self.next_head(dir);
        if let Some(d) = dir {
            self.direction = d;
        }
        let x = if nx < 0 {
            width - 2
        } else if nx > width - 2 {
            0
        } else {
            nx
        };
        let y = if ny < 0 {
            height - 2
        } else if ny > height - 2 {
            0
        } else {
            ny
        };
        self.body.push_front(Block { x, y });
        let removed = self.body.pop_back();
        self.tail = removed;
        assert(self@.body =~= old(self)@.advanced_to(
            dir,
            wrapped(old(self)@.next_head(dir), width, height),
        ).body);
    }

    /// The cell the head would move to before any wrapping, going `dir` if
    /// given, else straight on.
    pub fn next_head(&self, dir: Option<Direction>) -> (r: (i32, i32))
        requires
            self.wf(),
            steppable(self@.head()),
        ensures
            r == (self@.next_head(dir).x, self@.next_head(dir).y),
    {
        let (head_x, head_y): (i32, i32) = self.head_position();
        let moving_dir = match dir {
            Some(d) => d,
            None => self.direction,
        };
        match moving_dir {
            Direction::Up => (head_x, head_y - 1),
            Direction::Down => (head_x, head_y + 1),
            Direction::Left => (head_x - 1, head_y),
            Direction::Right => (head_x + 1, head_y),
        }
    }

    /// Appends a second copy of the last cell: the body gains a cell but
    /// covers no new one, as food never lengthens an autonomous snake.
    pub fn restore_tail(&mut self)
        ensures
            old(self)@.body.len() > 0 ==> final(self)@ == (SnakeView {
                body: old(self)@.body.push(old(self)@.body.last()),
                ..old(self)@
            }),
            old(self)@.body.len() == 0 ==> final(self)@ == old(self)@,
    {
        let n = self.body.len();
        if n > 0 {
            let last = self.body[n - 1];
            self.body.push_back(last);
        }
    }

    /// The body, head first.
    pub fn body(&self) -> (r: &VecDeque<Block>)
        ensures
            r@ == self@.body,
    {
        &self.body
    }
}

/// The last cell is the one a moving head may enter: on a body without
/// repeated cells, `over_tail` is false there and true on every other cell.
pub proof fn lemma_over_tail_spares_only_tail(s: SnakeView)
    requires
        s.body.len() > 0,
        s.body.no_duplicates(),
    ensures
        !s.over_tail(s.body.last()),
        forall|i: int| 0 <= i < s.body.len() - 1 ==> s.over_tail(#[trigger] s.body[i]),
{
    assert forall|i: int| 0 <= i < s.body.len() - 1 implies s.over_tail(#[trigger] s.body[i]) by {
    }
}

/// Growing right after a move gives back exactly the cell that the move
/// removed: the body is one cell longer than before the move, and that
/// cell is its new last one.
pub proof fn lemma_regrow_returns_removed_cell(s: SnakeView, dir: Option<Direction>)
    requires
        s.body.len() > 0,
    ensures
        s.advanced(dir).regrown().body.len() == s.body.len() + 1,
        s.advanced(dir).regrown().body.last() == s.body.last(),
        s.advanced(dir).regrown().body.drop_last() == s.advanced(dir).body,
{
    let moved = s.advanced(dir);
    assert(moved.regrown().body.drop_last() =~= moved.body);
}

} // verus!
