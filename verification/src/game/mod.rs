pub mod food;
pub mod rng;
pub mod snake;
pub mod types;

use vstd::prelude::*;
use crate::input::{DirQueue, spec_pop};
use crate::game::food::{spawn, spawn_pick};
use crate::game::rng::{Pcg32, pcg_inc, pcg_seeded};
use crate::game::snake::{
    Snake, SnakeModel, StepOutcome, laid_body, next_cell, obstacles, simple_body, step_fits, step_spec,
    lemma_step_keeps_body_simple, lemma_step_conserves_length,
};
pub use crate::game::types::{Direction, Mode, Pos};

verus! {

/// Column of the starting head.
pub const START_X: i32 = 9;

/// Row of the starting head.
pub const START_Y: i32 = 9;

/// Which way the snake starts out heading.
pub const START_DIR: Direction = Direction::Right;

/// Cells in a new snake.
pub const START_LEN: usize = 4;

/// The most ticks a single frame may run after a stall.
pub const MAX_TICKS_PER_FRAME: u32 = 5;

/// Points for one normal food.
pub const FOOD_SCORE: u32 = 10;

#[derive(Copy, Clone, PartialEq, Eq, Debug, Structural)]
pub enum GameState {
    AwaitingStart,
    Running,
    Dead,
    Won,
}

/// A game as its rules see it.
pub ghost struct GameModel {
    pub mode: Mode,
    pub snake: SnakeModel,
    pub food: Pos,
    pub rng: (u64, u64),
    pub state: GameState,
    pub score: u32,
    pub normal_food_eaten: u32,
}

/// The snake every game starts with.
pub open spec fn start_snake() -> SnakeModel {
    SnakeModel {
        body: laid_body(Pos { x: START_X, y: START_Y }, START_LEN as nat, START_DIR),
        dir: START_DIR,
        grow: 0,
    }
}

/// A new game: the starting snake, the first food drawn from a generator
/// seeded with `seed`, waiting for the first press.
pub open spec fn initial_game(mode: Mode, seed: u64) -> GameModel {
    let (food, rng) = spawn_pick(start_snake().body, None, (pcg_seeded(seed), pcg_inc()));
    GameModel {
        mode,
        snake: start_snake(),
        food: food.unwrap(),
        rng,
        state: GameState::AwaitingStart,
        score: 0,
        normal_food_eaten: 0,
    }
}

/// One tick of the rules with turn `dir`: the snake steps, wrapping only in
/// Endless; a failed step kills; reaching the food grows the snake by one,
/// scores `FOOD_SCORE`, counts the food and spawns the next one, and a full
/// board wins.
pub open spec fn tick_spec(g: GameModel, dir: Direction) -> GameModel {
    let (o, s) = step_spec(g.snake, dir, g.mode == Mode::Endless);
    if o != StepOutcome::Moved {
        GameModel { snake: s, state: GameState::Dead, ..g }
    } else if s.body[0] == g.food {
        let grown = SnakeModel { grow: s.grow + 1, ..s };
        let (food, rng) = spawn_pick(grown.body, None, g.rng);
        GameModel {
            snake: grown,
            food: if food is Some { food.unwrap() } else { g.food },
            rng,
            state: if food is Some { g.state } else { GameState::Won },
            score: (g.score + FOOD_SCORE) as u32,
            normal_food_eaten: (g.normal_food_eaten + 1) as u32,
            ..g
        }
    } else {
        GameModel { snake: s, ..g }
    }
}

/// A tick kills on a collision and only there: when the head's next cell is
/// off a walled grid, or a cell the body still holds (the tail excepted
/// unless the snake is growing), the game is Dead; otherwise the head moves
/// into that cell and the game keeps its state, unless that food filled the
/// board and it is Won.
pub proof fn lemma_tick_collision_kills(g: GameModel, dir: Direction)
    requires
        g.snake.body.len() > 0,
    ensures
        ({
            let n = next_cell(g.snake.body[0], dir, g.mode == Mode::Endless);
            let t = tick_spec(g, dir);
            &&& (n is None || obstacles(g.snake).contains(n.unwrap())) ==> t.state == GameState::Dead
            &&& (n is Some && !obstacles(g.snake).contains(n.unwrap())) ==> {
                &&& t.snake.body[0] == n.unwrap()
                &&& t.state == g.state || t.state == GameState::Won
            }
        }),
{
}

/// A tick whose head enters the food cell scores `FOOD_SCORE`, counts the
/// food and makes the snake one cell longer to come; any other move leaves
/// the score, the count and the length as they were.
pub proof fn lemma_tick_eating_scores(g: GameModel, dir: Direction)
    requires
        g.snake.body.len() > 0,
        g.score + FOOD_SCORE <= u32::MAX,
        g.normal_food_eaten + 1 <= u32::MAX,
    ensures
        ({
            let n = next_cell(g.snake.body[0], dir, g.mode == Mode::Endless);
            let t = tick_spec(g, dir);
            n is Some && !obstacles(g.snake).contains(n.unwrap()) ==> if n.unwrap() == g.food {
                &&& t.score == g.score + FOOD_SCORE
                &&& t.normal_food_eaten == g.normal_food_eaten + 1
                &&& t.snake.body.len() + t.snake.grow == g.snake.body.len() + g.snake.grow + 1
            } else {
                &&& t.score == g.score
                &&& t.normal_food_eaten == g.normal_food_eaten
                &&& t.snake.body.len() + t.snake.grow == g.snake.body.len() + g.snake.grow
            }
        }),
{
    lemma_step_conserves_length(g.snake, dir, g.mode == Mode::Endless);
}

/// The first press starts a waiting game; any other state is kept.
pub open spec fn start_spec(g: GameModel) -> GameModel {
    if g.state == GameState::AwaitingStart {
        GameModel { state: GameState::Running, ..g }
    } else {
        g
    }
}

/// What every game keeps: a snake on the grid that never overlaps itself,
/// growing by at most one more step; its length plus pending growth is the
/// starting length plus the food eaten; and the score is `FOOD_SCORE` per
/// food.
pub open spec fn game_wf(g: GameModel) -> bool {
    &&& simple_body(g.snake.body)
    &&& g.snake.grow <= 1
    &&& g.snake.body.len() + g.snake.grow == START_LEN + g.normal_food_eaten
    &&& g.score == FOOD_SCORE * g.normal_food_eaten
}

/// Whether a tick with turn `dir` eats the food.
pub open spec fn tick_eats(g: GameModel, dir: Direction) -> bool {
    let (o, s) = step_spec(g.snake, dir, g.mode == Mode::Endless);
    o == StepOutcome::Moved && s.body[0] == g.food
}

/// A tick with turn `dir` can run: the snake has a head whose step fits in
/// `i32`, and eating does not overflow the score, the food count or the
/// growth.
pub open spec fn tick_ok(g: GameModel, dir: Direction) -> bool {
    &&& g.snake.body.len() > 0
    &&& step_fits(g.snake.body[0], dir)
    &&& tick_eats(g, dir) ==> {
        &&& g.score + FOOD_SCORE <= u32::MAX
        &&& g.normal_food_eaten + 1 <= u32::MAX
        &&& step_spec(g.snake, dir, g.mode == Mode::Endless).1.grow + 1 <= u32::MAX
    }
}

/// `n` moves along the heading with wrapping walls, each made whatever the
/// one before did.
pub open spec fn bench_growth(s: SnakeModel, n: nat) -> SnakeModel
    decreases n,
{
    if n == 0 {
        s
    } else {
        bench_growth(step_spec(s, s.dir, true).1, (n - 1) as nat)
    }
}

/// With wrapping walls a step never fails at a wall, and a head on the grid
/// stays on the grid.
pub proof fn lemma_wrap_step_stays_on_grid(s: SnakeModel)
    requires
        s.body.len() > 0,
        s.body[0].in_grid(),
    ensures
        step_fits(s.body[0], s.dir),
        step_spec(s, s.dir, true).0 != StepOutcome::HitWall,
        step_spec(s, s.dir, true).1.body.len() > 0,
        step_spec(s, s.dir, true).1.body[0].in_grid(),
        step_spec(s, s.dir, true).1.dir == s.dir,
{
    let (nx, ny) = crate::game::snake::raw_next(s.body[0], s.dir);
    assert(0 <= nx % 28 < 28);
    assert(0 <= ny % 18 < 18);
}

/// A game that keeps its invariants can always tick.
pub proof fn lemma_wf_tick_ok(g: GameModel, dir: Direction)
    requires
        game_wf(g),
    ensures
        tick_ok(g, dir),
{
    lemma_simple_body_len(g.snake.body);
    lemma_step_conserves_length(g.snake, dir, g.mode == Mode::Endless);
}

/// Until the board is won, the food sits on a free grid cell.
pub open spec fn food_ok(g: GameModel) -> bool {
    g.state != GameState::Won ==> g.food.in_grid() && !g.snake.body.contains(g.food)
}

pub struct Game {
    mode: Mode,
    snake: Snake,
    food: Pos,
    rng: Pcg32,
    pub state: GameState,
    pub score: u32,
    pub normal_food_eaten: u32,
}

impl View for Game {
    type V = GameModel;

    closed spec fn view(&self) -> GameModel {
        GameModel {
            mode: self.mode,
            snake: self.snake@,
            food: self.food,
            rng: self.rng@,
            state: self.state,
            score: self.score,
            normal_food_eaten: self.normal_food_eaten,
        }
    }
}

proof fn lemma_start_snake()
    ensures
        simple_body(start_snake().body),
        start_snake().body.len() == START_LEN,
        !start_snake().body.contains(Pos { x: 0, y: 0 }),
{
    let b = start_snake().body;
    assert(b[0] == Pos { x: 9, y: 9 });
    assert(b[1] == Pos { x: 8, y: 9 });
    assert(b[2] == Pos { x: 7, y: 9 });
    assert(b[3] == Pos { x: 6, y: 9 });
}

/// The starting snake has `START_LEN` cells.
pub proof fn lemma_start_snake_len()
    ensures
        start_snake().body.len() == START_LEN,
{
}

impl Game {
    pub fn new(mode: Mode, seed: u64) -> (g: Game)
        ensures
            g@ == initial_game(mode, seed),
            game_wf(g@),
            food_ok(g@),
    {
        let snake = Snake::new(Pos::new(START_X, START_Y), START_LEN, START_DIR);
        let mut rng = Pcg32::new(seed);
        proof {
            lemma_start_snake();
            assert(Pos { x: 0, y: 0 }.in_grid());
        }
        let food = match spawn(&snake, None, &mut rng) {
            Some(p) => p,
            None => {
                proof {
                    assert(false);
                }
                Pos::new(0, 0)
            },
        };
        Game {
            mode,
            snake,
            food,
            rng,
            state: GameState::AwaitingStart,
            score: 0,
            normal_food_eaten: 0,
        }
    }

    pub fn state(&self) -> (s: GameState)
        ensures
            s == self@.state,
    {
        self.state
    }

    pub fn score(&self) -> (s: u32)
        ensures
            s == self@.score,
    {
        self.score
    }

    pub fn normal_food_eaten(&self) -> (n: u32)
        ensures
            n == self@.normal_food_eaten,
    {
        self.normal_food_eaten
    }

    pub fn mode(&self) -> (m: Mode)
        ensures
            m == self@.mode,
    {
        self.mode
    }

    pub fn snake(&self) -> (s: &Snake)
        ensures
            s@ == self@.snake,
    {
        &self.snake
    }

    pub fn food(&self) -> (p: Pos)
        ensures
            p == self@.food,
    {
        self.food
    }

    /// The first press starts a waiting game; otherwise nothing changes.
    pub fn start(&mut self)
        ensures
            final(self)@ == start_spec(old(self)@),
    {
        if self.state == GameState::AwaitingStart {
            self.state = GameState::Running;
        }
    }

    /// One tick: pops the next turn from `queue` and applies the rules.
    pub fn tick(&mut self, queue: &mut DirQueue)
        requires
            tick_ok(old(self)@, spec_pop(old(queue)@).0),
        ensures
            final(queue)@ == spec_pop(old(queue)@).1,
            final(self)@ == tick_spec(old(self)@, spec_pop(old(queue)@).0),
            game_wf(old(self)@) ==> game_wf(final(self)@),
            game_wf(old(self)@) && old(self)@.state != GameState::Won && food_ok(old(self)@) ==> food_ok(
                final(self)@,
            ),
    {
        let dir = queue.pop();
        let ghost g = self@;
        proof {
            lemma_step_conserves_length(g.snake, dir, g.mode == Mode::Endless);
            if game_wf(g) {
                lemma_step_keeps_body_simple(g.snake, dir, g.mode == Mode::Endless);
            }
        }
        let wraps = self.mode.wraps();
        match self.snake.step(dir, wraps) {
            StepOutcome::HitWall | StepOutcome::HitSelf => {
                self.state = GameState::Dead;
            },
            StepOutcome::Moved => {
                if self.snake.head() == self.food {
                    proof {
                        if game_wf(g) {
                            lemma_simple_body_len(g.snake.body);
                        }
                    }
                    self.snake.grow(1);
                    self.score = self.score + FOOD_SCORE;
                    self.normal_food_eaten = self.normal_food_eaten + 1;
                    match spawn(&self.snake, None, &mut self.rng) {
                        Some(p) => self.food = p,
                        None => self.state = GameState::Won,
                    }
                } else {
                    proof {
                        let s = self.snake@;
                        if game_wf(g) && food_ok(g) && g.state != GameState::Won {
                            assert(!s.body.contains(g.food)) by {
                                let rest = crate::game::snake::obstacles(g.snake);
                                assert(s.body =~= seq![s.body[0]] + rest);
                                if s.body.contains(g.food) {
                                    let k = choose|k: int| 0 <= k < s.body.len() && s.body[k] == g.food;
                                    assert(k > 0);
                                    assert(rest[k - 1] == g.food);
                                    assert(g.snake.body[k - 1] == g.food);
                                }
                            }
                        }
                    }
                }
            },
        }
    }

    /// Lengthens the snake in place by `n` cells, moving it `n` times along
    /// its heading with wrapping walls; a move into its own body is simply
    /// lost.
    pub fn grow_for_bench(&mut self, n: u32)
        requires
            old(self)@.snake.body.len() > 0,
            old(self)@.snake.body[0].in_grid(),
            old(self)@.snake.grow + n <= u32::MAX,
        ensures
            final(self)@ == (GameModel {
                snake: bench_growth(SnakeModel { grow: old(self)@.snake.grow + n as nat, ..old(self)@.snake }, n as nat),
                ..old(self)@
            }),
    {
        self.snake.grow(n);
        let mut q = DirQueue::new(self.snake.dir());
        let ghost start = self@.snake;
        let mut i: u32 = 0;
        while i < n
            invariant
                i <= n,
                self@.snake.body.len() > 0,
                self@.snake.body[0].in_grid(),
                q@ == (self@.snake.dir, Seq::<Direction>::empty()),
                bench_growth(self@.snake, (n - i) as nat) == bench_growth(start, n as nat),
                self@.mode == old(self)@.mode,
                self@.food == old(self)@.food,
                self@.rng == old(self)@.rng,
                self@.state == old(self)@.state,
                self@.score == old(self)@.score,
                self@.normal_food_eaten == old(self)@.normal_food_eaten,
            decreases n - i,
        {
            let ghost before = self@.snake;
            let d = q.pop();
            proof {
                lemma_wrap_step_stays_on_grid(before);
            }
            self.snake.step(d, true);
            i = i + 1;
        }
    }

    /// Places the food on `p`.
    pub fn force_food_at(&mut self, p: Pos)
        ensures
            final(self)@ == (GameModel { food: p, ..old(self)@ }),
    {
        self.food = p;
    }
}

/// A body that is simple has at most one cell per grid cell.
pub proof fn lemma_simple_body_len(s: Seq<Pos>)
    requires
        simple_body(s),
    ensures
        s.len() <= 504,
{
    let cells = s.to_set();
    s.unique_seq_to_set();
    let grid = Set::new(|p: Pos| p.in_grid());
    assert(cells.subset_of(grid));
    lemma_grid_set_len();
    vstd::set_lib::lemma_len_subset(cells, grid);
}

proof fn lemma_grid_set_len()
    ensures
        Set::new(|p: Pos| p.in_grid()).finite(),
        Set::new(|p: Pos| p.in_grid()).len() == 504,
{
    let all = crate::game::food::all_cells();
    assert(Set::new(|p: Pos| p.in_grid()) =~= all.to_set()) by {
        assert forall|p: Pos| p.in_grid() implies all.to_set().contains(p) by {
            let k = p.y * 28 + p.x;
            assert(all[k] == p);
        }
    }
    assert(crate::game::snake::no_repeats(all)) by {
        assert forall|i: int, j: int| 0 <= i < j < all.len() implies all[i] != all[j] by {
            assert(all[i] == crate::game::food::grid_cell(i));
            assert(all[j] == crate::game::food::grid_cell(j));
        }
    }
    all.unique_seq_to_set();
}

} // verus!
