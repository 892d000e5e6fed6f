//! The game state: the player snake, the autonomous snakes, food, the
//! obstacle field, and the score and level counters, advanced by ticks and
//! player commands.

use crate::random::{random_below, shuffled};
use crate::snake::{
    spawn_body, steppable, wrapped, AISnake, Block, Direction, Snake, SnakeView,
};
use vstd::prelude::*;

verus! {

/// Food eaten within one level that completes it.
pub const LEVEL_GOAL: u32 = 5;

/// Obstacles generated per level number.
pub const OBSTACLES_PER_LEVEL: u32 = 10;

/// Column and row of the rearmost cell of a freshly spawned player snake.
pub const SPAWN_X: i32 = 2;
pub const SPAWN_Y: i32 = 2;

/// Where the first food of a game lies.
pub const FIRST_FOOD_X: i32 = 6;
pub const FIRST_FOOD_Y: i32 = 4;

/// Time, in microseconds, between two moves of the player snake at level one.
pub const START_MOVE_PERIOD_US: u64 = 180_000;

/// The shortest move period that levelling up can reach.
pub const MIN_MOVE_PERIOD_US: u64 = 40_000;

/// Virtual time one autonomous-snake update stands for.
pub const AI_TICK_US: u64 = 16_000;

/// Largest change of the autonomous snakes' period in one update.
pub const AI_JITTER_US: u64 = 20_000;

/// One chance in this many that an autonomous snake turns on a move.
pub const AI_TURN_ODDS: usize = 10;

/// A command from the player.
#[derive(Clone, Copy, Debug, PartialEq, Eq, Structural)]
pub enum Input {
    Up,
    Down,
    Left,
    Right,
    Pause,
    Restart,
    Other,
}

/// The direction an input asks for, if it is a direction key.
pub open spec fn input_direction(key: Input) -> Option<Direction> {
    match key {
        Input::Up => Some(Direction::Up),
        Input::Down => Some(Direction::Down),
        Input::Left => Some(Direction::Left),
        Input::Right => Some(Direction::Right),
        _ => None,
    }
}

/// A block's coordinates as a pair.
pub open spec fn cell_of(b: Block) -> (i32, i32) {
    (b.x, b.y)
}

/// The game, mathematically.
pub struct GameView {
    pub width: i32,
    pub height: i32,
    pub snake: SnakeView,
    pub food: Option<(i32, i32)>,
    pub game_over: bool,
    pub paused: bool,
    pub waiting_time: u64,
    pub move_period: u64,
    pub score: u32,
    pub level: u32,
    pub level_score: u32,
    pub waiting_next_level: bool,
    pub obstacles: Seq<(i32, i32)>,
    pub ai_snakes: Seq<SnakeView>,
    pub ai_timer: u64,
    pub ai_period: u64,
}

/// The player snake as it spawns.
pub open spec fn player_spawn() -> SnakeView {
    SnakeView { body: spawn_body(SPAWN_X, SPAWN_Y), direction: Direction::Right, tail: None }
}

/// An autonomous snake as it spawns on a `width` by `height` grid.
pub open spec fn ai_spawn(width: i32, height: i32) -> SnakeView {
    SnakeView {
        body: spawn_body((width - 5) as i32, (height - 5) as i32),
        direction: Direction::Left,
        tail: None,
    }
}

/// A game at level one on a `width` by `height` grid, with `obstacles` as
/// its obstacle field.
pub open spec fn fresh_game(width: i32, height: i32, obstacles: Seq<(i32, i32)>) -> GameView {
    GameView {
        width,
        height,
        snake: player_spawn(),
        food: Some((FIRST_FOOD_X, FIRST_FOOD_Y)),
        game_over: false,
        paused: false,
        waiting_time: 0,
        move_period: START_MOVE_PERIOD_US,
        score: 0,
        level: 1,
        level_score: 0,
        waiting_next_level: false,
        obstacles,
        ai_snakes: seq![ai_spawn(width, height)],
        ai_timer: 0,
        ai_period: START_MOVE_PERIOD_US,
    }
}

/// Whether `(x, y)` lies inside the one-cell wall border.
pub open spec fn interior(width: i32, height: i32, c: (i32, i32)) -> bool {
    0 < c.0 < width - 1 && 0 < c.1 < height - 1
}

impl GameView {
    /// Whether `c` may receive an obstacle: an interior cell that is neither the
    /// spawn cell, the food, nor a cell of the player snake.
    pub open spec fn obstacle_candidate(self, c: (i32, i32)) -> bool {
        &&& interior(self.width, self.height, c)
        &&& c != (SPAWN_X, SPAWN_Y)
        &&& self.food != Some(c)
        &&& !self.snake.occupies(Block { x: c.0, y: c.1 })
    }

    /// Every cell that may receive an obstacle.
    pub open spec fn obstacle_candidates(self) -> Set<(i32, i32)> {
        Set::new(|c: (i32, i32)| self.obstacle_candidate(c))
    }

    /// How many obstacles the current level asks for.
    pub open spec fn obstacle_target(self) -> int {
        self.level * OBSTACLES_PER_LEVEL
    }

    /// A freshly generated obstacle field: as many distinct candidate cells as
    /// the level asks for, or every candidate where there are fewer.
    pub open spec fn obstacles_generated(self) -> bool {
        &&& self.obstacles.no_duplicates()
        &&& forall|i: int|
            0 <= i < self.obstacles.len() ==> self.obstacle_candidate(#[trigger] self.obstacles[i])
        &&& self.obstacles.len() == if self.obstacle_target() <= self.obstacle_candidates().len() {
            self.obstacle_target()
        } else {
            self.obstacle_candidates().len() as int
        }
    }

    /// The state right after a restart, with `obstacles` as the new field.
    pub open spec fn restarted(self, obstacles: Seq<(i32, i32)>) -> GameView {
        fresh_game(self.width, self.height, obstacles)
    }

    /// Whether the player's head entering `c` ends the game: its own body
    /// (the vacating last cell aside), an obstacle, or the wall border.
    pub open spec fn crashes(self, c: Block) -> bool {
        ||| self.snake.over_tail(c)
        ||| self.obstacles.contains(cell_of(c))
        ||| !interior(self.width, self.height, cell_of(c))
    }

    /// The head cells of the autonomous snakes, in order.
    pub open spec fn ai_heads(self) -> Seq<(i32, i32)> {
        Seq::new(self.ai_snakes.len(), |i: int| cell_of(self.ai_snakes[i].head()))
    }

    /// The eggs the autonomous snakes lay now: each head that is not yet an
    /// obstacle.
    pub open spec fn eggs(self) -> Seq<(i32, i32)> {
        self.ai_heads().filter(|c: (i32, i32)| !self.obstacles.contains(c))
    }

    /// The state with the eggs laid as new obstacles.
    pub open spec fn with_eggs(self) -> GameView {
        GameView { obstacles: self.obstacles + self.eggs(), ..self }
    }

    /// The state after the player's head has reached the food: the food is
    /// gone, the snake grows by its vacated cell, both scores rise, the level
    /// completes at its goal, and the autonomous snakes lay eggs.
    pub open spec fn fed(self) -> GameView {
        GameView {
            snake: self.snake.regrown(),
            food: None,
            score: sat_inc(self.score),
            level_score: (self.level_score + 1) as u32,
            waiting_next_level: self.waiting_next_level || self.level_score + 1 >= LEVEL_GOAL,
            ..self
        }.with_eggs()
    }

    /// The state after the player snake has moved without crashing.
    pub open spec fn moved(self, dir: Option<Direction>) -> GameView {
        let g = GameView { snake: self.snake.advanced(dir), ..self };
        if self.food == Some(cell_of(g.snake.head())) {
            g.fed()
        } else {
            g
        }
    }

    /// Whether the player snake is frozen: paused, over, or between levels.
    pub open spec fn frozen(self) -> bool {
        self.paused || self.game_over || self.waiting_next_level
    }

    /// One step of the player snake, going `dir` if given.
    pub open spec fn stepped(self, dir: Option<Direction>) -> GameView {
        if self.frozen() {
            self
        } else if self.crashes(self.snake.next_head(dir)) {
            GameView { game_over: true, waiting_time: 0, ..self }
        } else {
            GameView { waiting_time: 0, ..self.moved(dir) }
        }
    }

    /// The state after the player presses `key`, a restart aside.
    pub open spec fn pressed(self, key: Input) -> GameView {
        if self.game_over {
            self
        } else if key == Input::Pause {
            GameView { paused: !self.paused, ..self }.stepped(None)
        } else {
            match input_direction(key) {
                Some(d) => if d == self.snake.direction.reversed() {
                    self
                } else {
                    self.stepped(Some(d))
                },
                None => self.stepped(None),
            }
        }
    }

    /// Whether new food may appear at `c`: an interior cell off the player
    /// snake.
    pub open spec fn food_spot(self, c: (i32, i32)) -> bool {
        interior(self.width, self.height, c) && !self.snake.occupies(Block { x: c.0, y: c.1 })
    }

    /// Whether `food` is a possible outcome of placing food: a free spot, or
    /// nothing where there is none.
    pub open spec fn food_choice(self, food: Option<(i32, i32)>) -> bool {
        match food {
            Some(c) => self.food_spot(c),
            None => forall|c: (i32, i32)| !self.food_spot(c),
        }
    }

    /// One tick of `delta` microseconds of the player side, where `food` is
    /// what gets placed if there is no food: the wait grows, missing food is
    /// placed, and once the wait exceeds the move period the snake steps.
    pub open spec fn updated(self, delta: u64, food: Option<(i32, i32)>) -> GameView {
        if self.frozen() {
            self
        } else {
            let g = GameView {
                waiting_time: sat_add(self.waiting_time, delta),
                food: if self.food is None {
                    food
                } else {
                    self.food
                },
                ..self
            };
            if g.waiting_time > g.move_period {
                g.stepped(None)
            } else {
                g
            }
        }
    }

    /// One update of the autonomous snakes, with `jitter` drawn from
    /// `0..2 * AI_JITTER_US` and `turns[i]` the turn of the `i`-th snake: the
    /// period drifts by `jitter - AI_JITTER_US` and is clamped to
    /// `[period_min, period_max]`; the timer runs one update on, and once it
    /// reaches the period it restarts and every autonomous snake moves.
    /// Nothing happens while the game is paused, over, or between levels.
    pub open spec fn ai_updated(
        self,
        period_min: u64,
        period_max: u64,
        jitter: u64,
        turns: Seq<Option<Direction>>,
    ) -> GameView {
        if self.frozen() {
            self
        } else {
            let period = clamped(jittered(self.ai_period, jitter), period_min, period_max);
            let timer = sat_add(self.ai_timer, AI_TICK_US);
            if timer < period {
                GameView { ai_period: period, ai_timer: timer, ..self }
            } else {
                GameView {
                    ai_period: period,
                    ai_timer: 0,
                    ai_snakes: Seq::new(
                        self.ai_snakes.len(),
                        |i: int| ai_moved(self.ai_snakes[i], turn_at(turns, i), self.width, self.height),
                    ),
                    ..self
                }
            }
        }
    }

    /// Whether the player's head lies on a cell of an autonomous snake.
    pub open spec fn hits_ai(self) -> bool {
        exists|i: int, j: int|
            0 <= i < self.ai_snakes.len() && 0 <= j < self.ai_snakes[i].body.len()
                && #[trigger] self.ai_snakes[i].body[j] == self.snake.head()
    }

    /// The state after moving on to the next level, once the current one is
    /// complete: the level rises, its score restarts, both kinds of snake
    /// respawn, and both move periods halve down to the minimum.
    pub open spec fn leveled_up(self) -> GameView {
        if !self.waiting_next_level {
            self
        } else {
            GameView {
                level: sat_inc(self.level),
                level_score: 0,
                waiting_next_level: false,
                snake: player_spawn(),
                ai_snakes: Seq::new(self.ai_snakes.len(), |i: int| ai_spawn(self.width, self.height)),
                move_period: halved(self.move_period),
                ai_period: halved(self.ai_period),
                ..self
            }
        }
    }

    /// The state after the player/autonomous-snake collision check.
    pub open spec fn collided(self) -> GameView {
        if self.hits_ai() {
            GameView { game_over: true, ..self }
        } else {
            self
        }
    }

    /// What holds of every reachable state.
    pub open spec fn inv(self) -> bool {
        &&& 0 <= self.width
        &&& 0 <= self.height
        &&& self.snake.body.len() > 0
        &&& steppable(self.snake.head())
        &&& self.snake.body.drop_last().no_duplicates()
        &&& forall|i: int|
            0 <= i < self.ai_snakes.len() ==> {
                &&& (#[trigger] self.ai_snakes[i]).body.len() > 0
                &&& steppable(self.ai_snakes[i].head())
            }
        &&& self.level_score <= LEVEL_GOAL
        &&& !self.waiting_next_level ==> self.level_score < LEVEL_GOAL
    }
}

/// The whole game: grid size, the snakes, food, obstacles, timers and
/// counters.
#[derive(Debug)]
pub struct Game {
    width: i32,
    height: i32,
    snake: Snake,
    food: Option<(i32, i32)>,
    game_over: bool,
    game_pause: bool,
    waiting_time: u64,
    move_period: u64,
    score: u32,
    level: u32,
    level_score: u32,
    waiting_next_level: bool,
    obstacles: Vec<(i32, i32)>,
    ai_snakes: Vec<AISnake>,
    ai_snake_timer: u64,
    ai_snake_speed: u64,
}

impl View for Game {
    type V = GameView;

    closed spec fn view(&self) -> GameView {
        GameView {
            width: self.width,
            height: self.height,
            snake: self.snake@,
            food: self.food,
            game_over: self.game_over,
            paused: self.game_pause,
            waiting_time: self.waiting_time,
            move_period: self.move_period,
            score: self.score,
            level: self.level,
            level_score: self.level_score,
            waiting_next_level: self.waiting_next_level,
            obstacles: self.obstacles@,
            ai_snakes: self.ai_snakes@.map_values(|a: AISnake| a@),
            ai_timer: self.ai_snake_timer,
            ai_period: self.ai_snake_speed,
        }
    }
}

impl Game {
    /// The game's invariant.
    pub open spec fn wf(&self) -> bool {
        self@.inv()
    }

    proof fn lemma_wf_parts(&self)
        requires
            self.wf(),
        ensures
            self.snake.wf(),
            forall|i: int| 0 <= i < self.ai_snakes.len() ==> (#[trigger] self.ai_snakes@[i]).wf(),
            forall|i: int|
                0 <= i < self.ai_snakes.len() ==> steppable(#[trigger] self.ai_snakes@[i]@.head()),
    {
        assert forall|i: int| 0 <= i < self.ai_snakes.len() implies (#[trigger] self.ai_snakes@[i]).wf() && steppable(self.ai_snakes@[i]@.head()) by {
            assert(self@.ai_snakes[i] == self.ai_snakes@[i]@);
        }
    }

    /// A new game at level one on a `width` by `height` grid, with a freshly
    /// drawn obstacle field.
    pub fn new(width: i32, height: i32) -> (r: Game)
        requires
            0 <= width,
            0 <= height,
        ensures
            r.wf(),
            r@ == fresh_game(width, height, r@.obstacles),
            r@.obstacles_generated(),
    {
        let mut game = Game {
            width,
            height,
            snake: Snake::new(SPAWN_X, SPAWN_Y),
            food: Some((FIRST_FOOD_X, FIRST_FOOD_Y)),
            game_over: false,
            game_pause: false,
            waiting_time: 0,
            move_period: START_MOVE_PERIOD_US,
            score: 0,
            level: 1,
            level_score: 0,
            waiting_next_level: false,
            obstacles: Vec::new(),
            ai_snakes: vec![AISnake::new(width - 5, height - 5)],
            ai_snake_timer: 0,
            ai_snake_speed: START_MOVE_PERIOD_US,
        };
        proof {
            lemma_spawn_view_inv(width, height);
            assert(game@.ai_snakes =~= seq![ai_spawn(width, height)]);
            assert(game@.snake == player_spawn());
        }
        game.generate_obstacles();
        game
    }

    /// Starts over at level one: snakes, food, counters, timers and a freshly
    /// drawn obstacle field.
    pub fn restart(&mut self)
        requires
            old(self).wf(),
        ensures
            final(self).wf(),
            final(self)@ == old(self)@.restarted(final(self)@.obstacles),
            final(self)@.obstacles_generated(),
    {
        self.snake = Snake::new(SPAWN_X, SPAWN_Y);
        self.food = Some((FIRST_FOOD_X, FIRST_FOOD_Y));
        self.game_over = false;
        self.waiting_time = 0;
        self.move_period = START_MOVE_PERIOD_US;
        self.game_pause = false;
        self.score = 0;
        self.level = 1;
        self.level_score = 0;
        self.waiting_next_level = false;
        self.obstacles.clear();
        self.ai_snakes = vec![AISnake::new(self.width - 5, self.height - 5)];
        self.ai_snake_timer = 0;
        self.ai_snake_speed = START_MOVE_PERIOD_US;
        proof {
            lemma_spawn_view_inv(self.width, self.height);
            assert(self@.ai_snakes =~= seq![ai_spawn(self.width, self.height)]);
            assert(self@.snake == player_spawn());
        }
        self.generate_obstacles();
    }

    /// Whether `(x, y)` holds an obstacle.
    pub fn is_obstacle(&self, x: i32, y: i32) -> (r: bool)
        ensures
            r == self@.obstacles.contains((x, y)),
    {
        let n = self.obstacles.len();
        let mut i: usize = 0;
        while i < n
            invariant
                n == self@.obstacles.len(),
                i <= n,
                forall|j: int| 0 <= j < i ==> self@.obstacles[j] != (x, y),
            decreases n - i,
        {
            let (ox, oy) = self.obstacles[i];
            if ox == x && oy == y {
                assert(self@.obstacles[i as int] == (x, y));
                return true;
            }
            i = i + 1;
        }
        false
    }

    /// Whether the player snake survives a step going `dir` if given.
    fn check_if_snake_alive(&self, dir: Option<Direction>) -> (r: bool)
        requires
            self.wf(),
        ensures
            r == !self@.crashes(self@.snake.next_head(dir)),
    {
        proof {
            self.lemma_wf_parts();
        }
        let (next_x, next_y) = self.snake.next_head(dir);
        if self.snake.over_tail(next_x, next_y) {
            return false;
        }
        if self.is_obstacle(next_x, next_y) {
            return false;
        }
        next_x > 0 && next_y > 0 && next_x < self.width - 1 && next_y < self.height - 1
    }

    /// Each autonomous snake lays an egg, a new obstacle, at its head unless
    /// one is there already; returns the new obstacle cells. Nothing happens
    /// while the game is paused.
    pub fn ai_snake_lay_egg_now(&mut self) -> (eggs: Vec<(i32, i32)>)
        requires
            old(self).wf(),
        ensures
            final(self).wf(),
            old(self)@.paused ==> final(self)@ == old(self)@ && eggs@.len() == 0,
            !old(self)@.paused ==> eggs@ == old(self)@.eggs() && final(self)@
                == old(self)@.with_eggs(),
    {
        let mut to_add: Vec<(i32, i32)> = Vec::new();
        if self.game_pause {
            return to_add;
        }
        proof {
            self.lemma_wf_parts();
        }
        let ghost keep = |c: (i32, i32)| !self@.obstacles.contains(c);
        let n = self.ai_snakes.len();
        let mut i: usize = 0;
        while i < n
            invariant
                self.wf(),
                n == self.ai_snakes.len(),
                i <= n,
                keep == (|c: (i32, i32)| !self@.obstacles.contains(c)),
                forall|k: int| 0 <= k < n ==> (#[trigger] self.ai_snakes@[k]).wf(),
                to_add@ == self@.ai_heads().take(i as int).filter(keep),
            decreases n - i,
        {
            let (hx, hy) = self.ai_snakes[i].head_position();
            let ghost heads = self@.ai_heads();
            proof {
                assert(self@.ai_snakes[i as int] == self.ai_snakes@[i as int]@);
                assert(heads[i as int] == (hx, hy));
                assert(heads.take(i + 1) =~= heads.take(i as int).push((hx, hy)));
                heads.take(i as int).lemma_filter_push((hx, hy), keep);
            }
            if !self.is_obstacle(hx, hy) {
                to_add.push((hx, hy));
            }
            i = i + 1;
        }
        proof {
            assert(self@.ai_heads().take(n as int) =~= self@.ai_heads());
        }
        assert(keep =~= (|c: (i32, i32)| !old(self)@.obstacles.contains(c)));
        let m = to_add.len();
        let mut j: usize = 0;
        while j < m
            invariant
                m == to_add.len(),
                j <= m,
                self@ == (GameView {
                    obstacles: old(self)@.obstacles + to_add@.take(j as int),
                    ..old(self)@
                }),
            decreases m - j,
        {
            self.obstacles.push(to_add[j]);
            assert(to_add@.take(j + 1) =~= to_add@.take(j as int).push(to_add@[j as int]));
            assert(self@.obstacles =~= old(self)@.obstacles + to_add@.take(j + 1));
            assert(self@.ai_snakes == old(self)@.ai_snakes);
            j = j + 1;
        }
        assert(to_add@.take(m as int) =~= to_add@);
        to_add
    }

    /// Eats the food if the head is on it: the snake grows, both scores rise,
    /// the level completes at its goal, and the autonomous snakes lay eggs.
    fn check_eating(&mut self)
        requires
            old(self).wf(),
            old(self)@.snake.tail is Some,
            old(self)@.snake.body.no_duplicates(),
            !old(self)@.paused,
            !old(self)@.waiting_next_level,
        ensures
            final(self).wf(),
            final(self)@ == if old(self)@.food == Some(cell_of(old(self)@.snake.head())) {
                old(self)@.fed()
            } else {
                old(self)@
            },
    {
        proof {
            self.lemma_wf_parts();
        }
        let (head_x, head_y) = self.snake.head_position();
        if let Some((food_x, food_y)) = self.food {
            if food_x == head_x && food_y == head_y {
                self.food = None;
                self.snake.restore_tail();
                self.score = self.score.saturating_add(1);
                self.level_score = self.level_score + 1;
                if self.level_score >= LEVEL_GOAL {
                    self.waiting_next_level = true;
                }
                proof {
                    assert(self@.snake.body.drop_last() =~= old(self)@.snake.body);
                    assert(self@.ai_snakes == old(self)@.ai_snakes);
                }
                self.ai_snake_lay_egg_now();
            }
        }
    }

    /// One step of the player snake, going `dir` if given: a crash ends the
    /// game, else the snake moves and perhaps eats. Nothing happens while the
    /// game is paused, over, or between levels.
    fn update_snake(&mut self, dir: Option<Direction>)
        requires
            old(self).wf(),
        ensures
            final(self).wf(),
            final(self)@ == old(self)@.stepped(dir),
    {
        if self.game_pause || self.game_over || self.waiting_next_level {
            return;
        }
        proof {
            self.lemma_wf_parts();
        }
        if self.check_if_snake_alive(dir) {
            let ghost before = self@.snake;
            self.snake.move_forward(dir);
            proof {
                lemma_advance_keeps_cells_distinct(before, dir);
                assert(self@.ai_snakes == old(self)@.ai_snakes);
            }
            self.check_eating();
        } else {
            self.game_over = true;
        }
        self.waiting_time = 0;
        proof {
            assert(self@.ai_snakes == old(self)@.ai_snakes);
        }
    }

    /// Handles a command: a restart first starts over; then, unless the game
    /// is over, pause toggles pausing and a direction other than straight back
    /// turns the snake, and the snake takes a step.
    pub fn key_pressed(&mut self, key: Input)
        requires
            old(self).wf(),
        ensures
            final(self).wf(),
            key != Input::Restart ==> final(self)@ == old(self)@.pressed(key),
            key == Input::Restart ==> exists|obstacles: Seq<(i32, i32)>|
                {
                    &&& #[trigger] old(self)@.restarted(obstacles).obstacles_generated()
                    &&& final(self)@ == old(self)@.restarted(obstacles).pressed(key)
                },
    {
        if key == Input::Restart {
            self.restart();
        }
        let ghost start = self@;
        if self.game_over {
            return;
        }
        let dir = match key {
            Input::Up => Some(Direction::Up),
            Input::Down => Some(Direction::Down),
            Input::Left => Some(Direction::Left),
            Input::Right => Some(Direction::Right),
            Input::Pause => {
                self.game_pause = !self.game_pause;
                None
            },
            _ => None,
        };
        if let Some(d) = dir {
            if d == self.snake.head_direction().opposite() {
                return;
            }
        }
        proof {
            assert(self@.ai_snakes == start.ai_snakes);
        }
        self.update_snake(dir);
        proof {
            if key == Input::Restart {
                assert(start == old(self)@.restarted(start.obstacles));
                assert(old(self)@.restarted(start.obstacles).obstacles_generated());
            }
        }
    }

    /// Every cell where new food may appear, column by column.
    pub fn food_spots(&self) -> (r: Vec<(i32, i32)>)
        requires
            self.wf(),
        ensures
            forall|c: (i32, i32)| r@.contains(c) <==> self@.food_spot(c),
    {
        let mut r: Vec<(i32, i32)> = Vec::new();
        let mut x: i32 = 1;
        while x < self.width - 1
            invariant
                self.wf(),
                1 <= x,
                forall|c: (i32, i32)| r@.contains(c) <==> (self@.food_spot(c) && c.0 < x),
            decreases self.width - x,
        {
            let mut y: i32 = 1;
            while y < self.height - 1
                invariant
                    self.wf(),
                    1 <= x < self.width - 1,
                    1 <= y,
                    forall|c: (i32, i32)|
                        r@.contains(c) <==> (self@.food_spot(c) && before(c, (x, y))),
                decreases self.height - y,
            {
                let free = !self.snake.occupies(x, y);
                let ghost r0 = r@;
                if free {
                    r.push((x, y));
                }
                proof {
                    let next = (x, (y + 1) as i32);
                    assert forall|c: (i32, i32)|
                        r@.contains(c) <==> (self@.food_spot(c) && before(c, next)) by {
                        if r0.contains(c) {
                            let k = choose|k: int| 0 <= k < r0.len() && r0[k] == c;
                            assert(r@[k] == c);
                        }
                        if r@.contains(c) {
                            let k = choose|k: int| 0 <= k < r@.len() && r@[k] == c;
                            if k < r0.len() {
                                assert(r0[k] == c);
                            }
                        }
                        if free && c == (x, y) {
                            assert(r@[r@.len() - 1] == c);
                        }
                    }
                }
                y = y + 1;
            }
            x = x + 1;
        }
        r
    }

    /// Puts the food at `(x, y)`.
    pub fn place_food(&mut self, x: i32, y: i32)
        requires
            old(self).wf(),
        ensures
            final(self).wf(),
            final(self)@ == (GameView { food: Some((x, y)), ..old(self)@ }),
    {
        self.food = Some((x, y));
        assert(self@.ai_snakes == old(self)@.ai_snakes);
    }

    /// Places food on a free spot drawn at random; with no free spot left,
    /// there stays no food.
    fn add_food(&mut self)
        requires
            old(self).wf(),
        ensures
            final(self).wf(),
            old(self)@.food_choice(final(self)@.food),
            final(self)@ == (GameView { food: final(self)@.food, ..old(self)@ }),
    {
        let spots = self.food_spots();
        if spots.len() == 0 {
            self.food = None;
            proof {
                assert forall|c: (i32, i32)| !old(self)@.food_spot(c) by {
                    if old(self)@.food_spot(c) {
                        assert(spots@.contains(c));
                    }
                }
                assert(self@.ai_snakes == old(self)@.ai_snakes);
            }
        } else {
            let i = random_below(spots.len());
            let (x, y) = spots[i];
            proof {
                assert(spots@.contains(spots@[i as int]));
            }
            self.place_food(x, y);
        }
    }

    /// Advances the player side by `delta_us` microseconds: missing food is
    /// placed on a free spot drawn at random, and once the wait exceeds the
    /// move period the snake takes a step. Nothing happens while the game is
    /// paused, over, or between levels.
    pub fn update(&mut self, delta_us: u64)
        requires
            old(self).wf(),
        ensures
            final(self).wf(),
            exists|food: Option<(i32, i32)>|
                {
                    &&& #[trigger] old(self)@.food_choice(food)
                    &&& final(self)@ == old(self)@.updated(delta_us, food)
                },
    {
        if self.game_pause || self.game_over || self.waiting_next_level {
            proof {
                lemma_food_choice_exists(old(self)@);
                let food = choose|f: Option<(i32, i32)>| old(self)@.food_choice(f);
                assert(old(self)@ == old(self)@.updated(delta_us, food));
            }
            return;
        }
        self.waiting_time = self.waiting_time.saturating_add(delta_us);
        let ghost timed = self@;
        let ghost mut food = self@.food;
        if self.food.is_none() {
            self.add_food();
            proof {
                food = self@.food;
            }
        } else {
            proof {
                lemma_food_choice_exists(old(self)@);
                food = choose|f: Option<(i32, i32)>| old(self)@.food_choice(f);
            }
        }
        proof {
            lemma_food_choice_same_grid(timed, old(self)@, food);
            assert(self@.ai_snakes == old(self)@.ai_snakes);
        }
        if self.waiting_time > self.move_period {
            self.update_snake(None);
        }
        proof {
            assert(old(self)@.food_choice(food));
            assert(self@ == old(self)@.updated(delta_us, food));
        }
    }

    /// Updates the autonomous snakes with the given draws: `jitter` shifts
    /// their period and `turns[i]` turns the `i`-th one (none where `turns`
    /// is short); see `GameView::ai_updated`.
    pub fn advance_ai_snakes(
        &mut self,
        period_min: u64,
        period_max: u64,
        jitter: u64,
        turns: &Vec<Option<Direction>>,
    )
        requires
            old(self).wf(),
        ensures
            final(self).wf(),
            final(self)@ == old(self)@.ai_updated(period_min, period_max, jitter, turns@),
    {
        if self.game_pause || self.game_over || self.waiting_next_level {
            return;
        }
        let drifted = self.ai_snake_speed.saturating_add(jitter);
        let mut period = if drifted < AI_JITTER_US {
            0
        } else {
            drifted - AI_JITTER_US
        };
        if period < period_min {
            period = period_min;
        }
        if period > period_max {
            period = period_max;
        }
        self.ai_snake_speed = period;
        self.ai_snake_timer = self.ai_snake_timer.saturating_add(AI_TICK_US);
        if self.ai_snake_timer < self.ai_snake_speed {
            assert(self@.ai_snakes == old(self)@.ai_snakes);
            return;
        }
        self.ai_snake_timer = 0;
        proof {
            self.lemma_wf_parts();
        }
        let ghost start = self@.ai_snakes;
        let ghost before = self@;
        let n = self.ai_snakes.len();
        let mut i: usize = 0;
        while i < n
            invariant
                n == self.ai_snakes.len(),
                i <= n,
                start.len() == n,
                before.inv(),
                self@ == (GameView { ai_snakes: self@.ai_snakes, ..before }),
                self.snake.wf(),
                forall|k: int| 0 <= k < n ==> (#[trigger] self.ai_snakes@[k]).wf(),
                forall|k: int| 0 <= k < n ==> steppable(#[trigger] self.ai_snakes@[k]@.head()),
                forall|k: int|
                    0 <= k < i ==> #[trigger] self.ai_snakes@[k]@ == ai_moved(
                        start[k],
                        turn_at(turns@, k),
                        self.width,
                        self.height,
                    ),
                forall|k: int| i <= k < n ==> #[trigger] self.ai_snakes@[k]@ == start[k],
            decreases n - i,
        {
            let turn = if i < turns.len() {
                turns[i]
            } else {
                None
            };
            self.ai_snakes[i].move_forward_wrap(turn, self.width, self.height);
            i = i + 1;
        }
        proof {
            assert(self@.ai_snakes =~= Seq::new(
                n as nat,
                |k: int| ai_moved(start[k], turn_at(turns@, k), self.width, self.height),
            ));
            assert forall|k: int| 0 <= k < self@.ai_snakes.len() implies {
                &&& (#[trigger] self@.ai_snakes[k]).body.len() > 0
                &&& steppable(self@.ai_snakes[k].head())
            } by {
                assert(self@.ai_snakes[k] == self.ai_snakes@[k]@);
            }
        }
    }

    /// Updates the autonomous snakes with fresh random draws: a period drift
    /// in `[-AI_JITTER_US, AI_JITTER_US)`, and for each snake one chance in
    /// `AI_TURN_ODDS` of turning to a direction drawn evenly from the four.
    pub fn update_ai_snakes(&mut self, period_min: u64, period_max: u64)
        requires
            old(self).wf(),
        ensures
            final(self).wf(),
            exists|jitter: u64, turns: Seq<Option<Direction>>|
                {
                    &&& jitter < 2 * AI_JITTER_US
                    &&& turns.len() == old(self)@.ai_snakes.len()
                    &&& final(self)@ == #[trigger] old(self)@.ai_updated(
                        period_min,
                        period_max,
                        jitter,
                        turns,
                    )
                },
    {
        let jitter = random_below((2 * AI_JITTER_US) as usize) as u64;
        let n = self.ai_snakes.len();
        let mut turns: Vec<Option<Direction>> = Vec::new();
        let mut i: usize = 0;
        while i < n
            invariant
                i <= n,
                turns@.len() == i,
            decreases n - i,
        {
            let turn = if random_below(AI_TURN_ODDS) == 0 {
                match random_below(4) {
                    0 => Some(Direction::Up),
                    1 => Some(Direction::Down),
                    2 => Some(Direction::Left),
                    _ => Some(Direction::Right),
                }
            } else {
                None
            };
            turns.push(turn);
            i = i + 1;
        }
        proof {
            assert(self@.ai_snakes.len() == n);
        }
        self.advance_ai_snakes(period_min, period_max, jitter, &turns);
    }

    /// Ends the game if the player's head lies on any cell of an autonomous
    /// snake.
    pub fn check_player_ai_collision(&mut self)
        requires
            old(self).wf(),
        ensures
            final(self).wf(),
            final(self)@ == if old(self)@.hits_ai() {
                GameView { game_over: true, ..old(self)@ }
            } else {
                old(self)@
            },
    {
        proof {
            self.lemma_wf_parts();
        }
        let (px, py) = self.snake.head_position();
        let head = Block { x: px, y: py };
        let n = self.ai_snakes.len();
        let mut i: usize = 0;
        while i < n
            invariant
                self@ == old(self)@,
                self.wf(),
                n == self@.ai_snakes.len(),
                i <= n,
                head == self@.snake.head(),
                head == (Block { x: px, y: py }),
                forall|a: int, j: int|
                    0 <= a < i && 0 <= j < self@.ai_snakes[a].body.len()
                        ==> #[trigger] self@.ai_snakes[a].body[j] != head,
            decreases n - i,
        {
            let body = self.ai_snakes[i].body();
            let m = body.len();
            let mut j: usize = 0;
            proof {
                assert(self@.ai_snakes[i as int] == self.ai_snakes@[i as int]@);
            }
            while j < m
                invariant
                    self@ == old(self)@,
                    self.wf(),
                    m == self@.ai_snakes[i as int].body.len(),
                    body@ == self@.ai_snakes[i as int].body,
                    i < n,
                    n == self@.ai_snakes.len(),
                    j <= m,
                    head == (Block { x: px, y: py }),
                    head == self@.snake.head(),
                    forall|k: int| 0 <= k < j ==> self@.ai_snakes[i as int].body[k] != head,
                decreases m - j,
            {
                let b = body[j];
                if b.x == px && b.y == py {
                    assert(old(self)@.ai_snakes[i as int].body[j as int] == old(self)@.snake.head());
                    assert(old(self)@.hits_ai());
                    self.game_over = true;
                    assert(self@.ai_snakes == old(self)@.ai_snakes);
                    assert(self@ == (GameView { game_over: true, ..old(self)@ }));
                    return;
                }
                j = j + 1;
            }
            i = i + 1;
        }
    }

    /// Moves on to the next level once the current one is complete: the level
    /// rises, the level score restarts, the snakes respawn, and both move
    /// periods halve, down to `MIN_MOVE_PERIOD_US`. Obstacles and food stay.
    /// Does nothing while the level is still being played.
    pub fn next_level(&mut self)
        requires
            old(self).wf(),
        ensures
            final(self).wf(),
            final(self)@ == old(self)@.leveled_up(),
    {
        if !self.waiting_next_level {
            return;
        }
        self.level = self.level.saturating_add(1);
        self.level_score = 0;
        self.waiting_next_level = false;
        self.snake = Snake::new(SPAWN_X, SPAWN_Y);
        let n = self.ai_snakes.len();
        let mut fresh: Vec<AISnake> = Vec::new();
        let mut i: usize = 0;
        while i < n
            invariant
                i <= n,
                0 <= self.width,
                0 <= self.height,
                fresh@.len() == i,
                forall|k: int| 0 <= k < i ==> (#[trigger] fresh@[k])@ == ai_spawn(self.width, self.height),
            decreases n - i,
        {
            fresh.push(AISnake::new(self.width - 5, self.height - 5));
            i = i + 1;
        }
        self.ai_snakes = fresh;
        self.move_period = if self.move_period / 2 > MIN_MOVE_PERIOD_US {
            self.move_period / 2
        } else {
            MIN_MOVE_PERIOD_US
        };
        self.ai_snake_speed = if self.ai_snake_speed / 2 > MIN_MOVE_PERIOD_US {
            self.ai_snake_speed / 2
        } else {
            MIN_MOVE_PERIOD_US
        };
        proof {
            lemma_spawn_view_inv(self.width, self.height);
            assert(self@.ai_snakes =~= Seq::new(
                n as nat,
                |k: int| ai_spawn(self.width, self.height),
            ));
            assert(self@.snake == player_spawn());
            assert(player_spawn().body.drop_last() =~= seq![Block { x: 4, y: 2 }, Block { x: 3, y: 2 }]);
        }
    }

    /// One frame of the simulation, `delta_us` microseconds long: the player
    /// side advances, the autonomous snakes update within a band of half the
    /// player's move period, and a player head on an autonomous snake ends
    /// the game.
    pub fn tick(&mut self, delta_us: u64)
        requires
            old(self).wf(),
        ensures
            final(self).wf(),
            exists|food: Option<(i32, i32)>, jitter: u64, turns: Seq<Option<Direction>>|
                {
                    &&& old(self)@.food_choice(food)
                    &&& jitter < 2 * AI_JITTER_US
                    &&& turns.len() == old(self)@.ai_snakes.len()
                    &&& final(self)@ == #[trigger] old(self)@.updated(delta_us, food).ai_updated(
                        old(self)@.move_period / 2,
                        old(self)@.move_period / 2,
                        jitter,
                        turns,
                    ).collided()
                },
    {
        self.update(delta_us);
        let ghost mid = self@;
        let ghost food = choose|f: Option<(i32, i32)>|
            #[trigger] old(self)@.food_choice(f) && mid == old(self)@.updated(delta_us, f);
        let band = self.move_period / 2;
        proof {
            assert(old(self)@.updated(delta_us, food).move_period == old(self)@.move_period);
            assert(old(self)@.updated(delta_us, food).ai_snakes.len() == old(self)@.ai_snakes.len());
        }
        self.update_ai_snakes(band, band);
        let ghost after_ai = self@;
        self.check_player_ai_collision();
        proof {
            let (jitter, turns) = choose|jitter: u64, turns: Seq<Option<Direction>>|
                jitter < 2 * AI_JITTER_US && turns.len() == mid.ai_snakes.len() && after_ai
                    == #[trigger] mid.ai_updated(band, band, jitter, turns);
            assert(self@ == old(self)@.updated(delta_us, food).ai_updated(
                old(self)@.move_period / 2,
                old(self)@.move_period / 2,
                jitter,
                turns,
            ).collided());
        }
    }

    /// The current level, from one.
    pub fn get_level(&self) -> (r: u32)
        ensures
            r == self@.level,
    {
        self.level
    }

    /// The obstacle cells.
    pub fn get_obstacles(&self) -> (r: &Vec<(i32, i32)>)
        ensures
            r@ == self@.obstacles,
    {
        &self.obstacles
    }

    /// Whether the game is over.
    pub fn is_game_over(&self) -> (r: bool)
        ensures
            r == self@.game_over,
    {
        self.game_over
    }

    /// The player snake's head cell.
    pub fn get_snake_head(&self) -> (r: (i32, i32))
        requires
            self.wf(),
        ensures
            r == cell_of(self@.snake.head()),
    {
        proof {
            self.lemma_wf_parts();
        }
        self.snake.head_position()
    }

    /// The total score.
    pub fn get_score(&self) -> (r: u32)
        ensures
            r == self@.score,
    {
        self.score
    }

    /// The score within the current level.
    pub fn get_level_score(&self) -> (r: u32)
        ensures
            r == self@.level_score,
    {
        self.level_score
    }

    /// Whether the level is complete and the game waits for `next_level`.
    pub fn is_waiting_next_level(&self) -> (r: bool)
        ensures
            r == self@.waiting_next_level,
    {
        self.waiting_next_level
    }

    /// Whether the game is paused.
    pub fn is_paused(&self) -> (r: bool)
        ensures
            r == self@.paused,
    {
        self.game_pause
    }

    /// The food cell, if there is food.
    pub fn get_food(&self) -> (r: Option<(i32, i32)>)
        ensures
            r == self@.food,
    {
        self.food
    }

    /// The player snake.
    pub fn get_snake(&self) -> (r: &Snake)
        ensures
            r@ == self@.snake,
    {
        &self.snake
    }

    /// The autonomous snakes.
    pub fn get_ai_snakes(&self) -> (r: &Vec<AISnake>)
        ensures
            r@.map_values(|a: AISnake| a@) == self@.ai_snakes,
    {
        &self.ai_snakes
    }

    /// The grid's width and height.
    pub fn get_size(&self) -> (r: (i32, i32))
        ensures
            r == (self@.width, self@.height),
    {
        (self.width, self.height)
    }

    /// The player's current move period, in microseconds.
    pub fn get_move_period(&self) -> (r: u64)
        ensures
            r == self@.move_period,
    {
        self.move_period
    }

    /// Every cell that may receive an obstacle, column by column.
    pub fn obstacle_candidates(&self) -> (r: Vec<(i32, i32)>)
        requires
            self.wf(),
        ensures
            r@.no_duplicates(),
            forall|c: (i32, i32)| r@.contains(c) <==> self@.obstacle_candidate(c),
    {
        let mut r: Vec<(i32, i32)> = Vec::new();
        let mut x: i32 = 1;
        while x < self.width - 1
            invariant
                self.wf(),
                1 <= x,
                forall|i: int, j: int| 0 <= i < j < r@.len() ==> before(r@[i], r@[j]),
                forall|i: int| 0 <= i < r@.len() ==> r@[i].0 < x,
                forall|c: (i32, i32)|
                    r@.contains(c) <==> (self@.obstacle_candidate(c) && c.0 < x),
            decreases self.width - x,
        {
            let mut y: i32 = 1;
            while y < self.height - 1
                invariant
                    self.wf(),
                    1 <= x < self.width - 1,
                    1 <= y,
                    y <= self.height - 1 || y == 1,
                    forall|i: int, j: int| 0 <= i < j < r@.len() ==> before(r@[i], r@[j]),
                    forall|i: int| 0 <= i < r@.len() ==> before(r@[i], (x, y)),
                    forall|c: (i32, i32)|
                        r@.contains(c) <==> (self@.obstacle_candidate(c) && before(c, (x, y))),
                decreases self.height - y,
            {
                let taken = (x == SPAWN_X && y == SPAWN_Y) || self.food == Some((x, y))
                    || self.snake.occupies(x, y);
                let ghost r0 = r@;
                if !taken {
                    r.push((x, y));
                }
                proof {
                    let next = (x, (y + 1) as i32);
                    assert forall|c: (i32, i32)|
                        r@.contains(c) <==> (self@.obstacle_candidate(c) && before(c, next)) by {
                        if r0.contains(c) {
                            let k = choose|k: int| 0 <= k < r0.len() && r0[k] == c;
                            assert(r@[k] == c);
                        }
                        if r@.contains(c) {
                            let k = choose|k: int| 0 <= k < r@.len() && r@[k] == c;
                            if k < r0.len() {
                                assert(r0[k] == c);
                            }
                        }
                        if !taken && c == (x, y) {
                            assert(r@[r@.len() - 1] == c);
                        }
                    }
                }
                y = y + 1;
            }
            x = x + 1;
        }
        proof {
            lemma_ordered_no_duplicates(r@);
        }
        r
    }

    /// Makes the first `level * 10` cells of `order` (all of them, where there
    /// are fewer) the obstacle field.
    pub fn place_obstacles(&mut self, order: Vec<(i32, i32)>)
        requires
            old(self).wf(),
        ensures
            final(self).wf(),
            final(self)@ == (GameView {
                obstacles: first_cells(order@, old(self)@.obstacle_target()),
                ..old(self)@
            }),
    {
        let mut order = order;
        let target: u64 = self.level as u64 * OBSTACLES_PER_LEVEL as u64;
        if target < order.len() as u64 {
            order.truncate(target as usize);
        }
        self.obstacles = order;
        assert(self@.obstacles =~= first_cells(order@, old(self)@.obstacle_target()));
        assert(self@.ai_snakes == old(self)@.ai_snakes);
    }

    /// Replaces the obstacle field by a fresh one drawn for the current level.
    fn generate_obstacles(&mut self)
        requires
            old(self).wf(),
        ensures
            final(self).wf(),
            final(self)@ == (GameView { obstacles: final(self)@.obstacles, ..old(self)@ }),
            final(self)@.obstacles_generated(),
    {
        let candidates = self.obstacle_candidates();
        let order = shuffled(candidates);
        proof {
            lemma_permutation_keeps_cells(candidates@, order@);
        }
        self.place_obstacles(order);
        proof {
            lemma_candidate_count(self@, candidates@);
            let k = self@.obstacle_target();
            let placed = self@.obstacles;
            if k < order@.len() {
                assert forall|i: int, j: int|
                    0 <= i < placed.len() && 0 <= j < placed.len() && i != j implies placed[i]
                    != placed[j] by {
                    assert(placed[i] == order@[i] && placed[j] == order@[j]);
                }
            }
            assert forall|i: int| 0 <= i < placed.len() implies self@.obstacle_candidate(
                #[trigger] placed[i],
            ) by {
                assert(placed[i] == order@[i]);
                assert(order@.contains(order@[i]));
            }
        }
    }
}

/// Strict column-major order on cells.
pub open spec fn before(a: (i32, i32), b: (i32, i32)) -> bool {
    a.0 < b.0 || (a.0 == b.0 && a.1 < b.1)
}

/// `v + 1`, or `v` where that would not fit.
pub open spec fn sat_inc(v: u32) -> u32 {
    if v < u32::MAX {
        (v + 1) as u32
    } else {
        v
    }
}

/// `a + b`, or the largest `u64` where that would not fit.
pub open spec fn sat_add(a: u64, b: u64) -> u64 {
    if a + b <= u64::MAX {
        (a + b) as u64
    } else {
        u64::MAX
    }
}

/// A period after a drift of `draw - AI_JITTER_US`, floored at zero.
pub open spec fn jittered(period: u64, draw: u64) -> u64 {
    let p = sat_add(period, draw);
    if p < AI_JITTER_US {
        0
    } else {
        (p - AI_JITTER_US) as u64
    }
}

/// `p` raised to `lo` if below it, then lowered to `hi` if above it.
pub open spec fn clamped(p: u64, lo: u64, hi: u64) -> u64 {
    let q = if p < lo {
        lo
    } else {
        p
    };
    if q > hi {
        hi
    } else {
        q
    }
}

/// Half of a move period, but no less than the minimum.
pub open spec fn halved(p: u64) -> u64 {
    if p / 2 > MIN_MOVE_PERIOD_US {
        (p / 2) as u64
    } else {
        MIN_MOVE_PERIOD_US
    }
}

/// The turn of the `i`-th autonomous snake: none where `turns` has no entry.
pub open spec fn turn_at(turns: Seq<Option<Direction>>, i: int) -> Option<Direction> {
    if 0 <= i < turns.len() {
        turns[i]
    } else {
        None
    }
}

/// An autonomous snake after one wrapping move.
pub open spec fn ai_moved(s: SnakeView, dir: Option<Direction>, width: i32, height: i32) -> SnakeView {
    s.advanced_to(dir, wrapped(s.next_head(dir), width, height))
}

/// In every state the game can reach, the player's head coincides with no
/// two different body cells short of the last one.
pub proof fn lemma_head_never_doubled(v: GameView)
    requires
        v.inv(),
    ensures
        !exists|i: int, j: int|
            0 <= i < j < v.snake.body.len() - 1 && #[trigger] v.snake.body[i] == v.snake.head()
                && #[trigger] v.snake.body[j] == v.snake.head(),
{
    let rest = v.snake.body.drop_last();
    assert forall|i: int, j: int| 0 <= i < j < v.snake.body.len() - 1 implies !(
    #[trigger] v.snake.body[i] == v.snake.head() && #[trigger] v.snake.body[j] == v.snake.head()) by {
        assert(rest[i] == v.snake.body[i] && rest[j] == v.snake.body[j]);
    }
}

/// A restart, at level one, generates `OBSTACLES_PER_LEVEL` distinct
/// obstacles, or every candidate cell where there are fewer, and none lies
/// on the spawn cell or on the first food.
pub proof fn lemma_restart_obstacles(v: GameView, obstacles: Seq<(i32, i32)>)
    requires
        v.restarted(obstacles).obstacles_generated(),
    ensures
        obstacles.len() == if OBSTACLES_PER_LEVEL <= v.restarted(obstacles).obstacle_candidates().len() {
            OBSTACLES_PER_LEVEL as int
        } else {
            v.restarted(obstacles).obstacle_candidates().len() as int
        },
        obstacles.no_duplicates(),
        !obstacles.contains((SPAWN_X, SPAWN_Y)),
        !obstacles.contains((FIRST_FOOD_X, FIRST_FOOD_Y)),
{
    let g = v.restarted(obstacles);
    if obstacles.contains((SPAWN_X, SPAWN_Y)) {
        let k = choose|k: int| 0 <= k < obstacles.len() && obstacles[k] == (SPAWN_X, SPAWN_Y);
        assert(g.obstacle_candidate(g.obstacles[k]));
    }
    if obstacles.contains((FIRST_FOOD_X, FIRST_FOOD_Y)) {
        let k = choose|k: int| 0 <= k < obstacles.len() && obstacles[k] == (FIRST_FOOD_X, FIRST_FOOD_Y);
        assert(g.obstacle_candidate(g.obstacles[k]));
    }
}

/// The spawn positions meet the invariant.
proof fn lemma_spawn_view_inv(width: i32, height: i32)
    requires
        0 <= width,
        0 <= height,
    ensures
        fresh_game(width, height, seq![]).inv(),
{
    let v = fresh_game(width, height, seq![]);
    assert(v.snake.body.drop_last() =~= seq![Block { x: 4, y: 2 }, Block { x: 3, y: 2 }]);
    assert(v.ai_snakes[0] == ai_spawn(width, height));
}

/// A move onto a cell outside the body but for its last cell keeps the
/// cells distinct, the last one aside, and, counting that one, when it is
/// regrown.
proof fn lemma_advance_keeps_cells_distinct(s: SnakeView, dir: Option<Direction>)
    requires
        s.body.len() > 0,
        s.body.drop_last().no_duplicates(),
        !s.over_tail(s.next_head(dir)),
    ensures
        s.advanced(dir).body.no_duplicates(),
        s.advanced(dir).body.drop_last().no_duplicates(),
{
    let nh = s.next_head(dir);
    let rest = s.body.drop_last();
    let b = s.advanced(dir).body;
    assert(b =~= seq![nh] + rest);
    assert forall|i: int, j: int| 0 <= i < b.len() && 0 <= j < b.len() && i != j implies b[i]
        != b[j] by {
        if i == 0 {
            assert(b[j] == rest[j - 1]);
            assert(s.body[j - 1] == rest[j - 1]);
        } else if j == 0 {
            assert(b[i] == rest[i - 1]);
            assert(s.body[i - 1] == rest[i - 1]);
        } else {
            assert(b[i] == rest[i - 1] && b[j] == rest[j - 1]);
        }
    }
    assert forall|i: int, j: int|
        0 <= i < b.drop_last().len() && 0 <= j < b.drop_last().len() && i != j implies b.drop_last()[i]
        != b.drop_last()[j] by {
        assert(b.drop_last()[i] == b[i] && b.drop_last()[j] == b[j]);
    }
}

/// Placing food always has some outcome.
proof fn lemma_food_choice_exists(v: GameView)
    ensures
        exists|f: Option<(i32, i32)>| v.food_choice(f),
{
    if forall|c: (i32, i32)| !v.food_spot(c) {
        assert(v.food_choice(None));
    } else {
        let c = choose|c: (i32, i32)| v.food_spot(c);
        assert(v.food_choice(Some(c)));
    }
}

/// Where food may go depends on the grid and the player snake alone.
proof fn lemma_food_choice_same_grid(a: GameView, b: GameView, food: Option<(i32, i32)>)
    requires
        a.width == b.width,
        a.height == b.height,
        a.snake == b.snake,
    ensures
        a.food_choice(food) == b.food_choice(food),
{
    if food is None {
        if a.food_choice(food) {
            assert forall|c: (i32, i32)| !b.food_spot(c) by {
                assert(!a.food_spot(c));
            }
        }
        if b.food_choice(food) {
            assert forall|c: (i32, i32)| !a.food_spot(c) by {
                assert(!b.food_spot(c));
            }
        }
    }
}

/// The first `k` cells of `order`, or all of them where there are fewer.
pub open spec fn first_cells(order: Seq<(i32, i32)>, k: int) -> Seq<(i32, i32)> {
    if k < order.len() {
        order.take(k)
    } else {
        order
    }
}

/// A reordering keeps the cells, their number and their distinctness.
proof fn lemma_permutation_keeps_cells(a: Seq<(i32, i32)>, b: Seq<(i32, i32)>)
    requires
        a.no_duplicates(),
        b.to_multiset() == a.to_multiset(),
    ensures
        b.no_duplicates(),
        b.len() == a.len(),
        forall|c: (i32, i32)| b.contains(c) <==> a.contains(c),
{
    vstd::seq_lib::to_multiset_len(a);
    vstd::seq_lib::to_multiset_len(b);
    a.lemma_multiset_has_no_duplicates();
    b.lemma_multiset_has_no_duplicates_conv();
    assert forall|c: (i32, i32)| b.contains(c) <==> a.contains(c) by {
        vstd::seq_lib::to_multiset_contains(a, c);
        vstd::seq_lib::to_multiset_contains(b, c);
    }
}

/// The candidate cells number as many as a list of them without repeats.
proof fn lemma_candidate_count(v: GameView, list: Seq<(i32, i32)>)
    requires
        list.no_duplicates(),
        forall|c: (i32, i32)| list.contains(c) <==> v.obstacle_candidate(c),
    ensures
        v.obstacle_candidates().finite(),
        v.obstacle_candidates().len() == list.len(),
{
    list.unique_seq_to_set();
    assert(v.obstacle_candidates() =~= list.to_set());
}

proof fn lemma_ordered_no_duplicates(s: Seq<(i32, i32)>)
    requires
        forall|i: int, j: int| 0 <= i < j < s.len() ==> before(s[i], s[j]),
    ensures
        s.no_duplicates(),
{
    assert forall|i: int, j: int| 0 <= i < s.len() && 0 <= j < s.len() && i != j implies s[i]
        != s[j] by {
        if i < j {
            assert(before(s[i], s[j]));
        } else {
            assert(before(s[j], s[i]));
        }
    }
}

} // verus!
