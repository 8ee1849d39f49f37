//! The application's state machine: input actions in, game state out.
//!
//! No loop, no terminal, no clock: actions arrive already mapped, and each
//! tick is driven from outside, so any front end can run it.
use vstd::prelude::*;
use crate::game::types::{Direction, Mode};
use crate::game::{
    Game, GameModel, GameState, food_ok, game_wf, initial_game, start_spec, tick_spec,
};
use crate::input::{Action, DirQueue, spec_pop, spec_push};
use crate::render::tier::Tier;
use crate::render::layout::{Layout, layout_spec, rows_for};

verus! {

/// Multiplier of the seed sequence that restarts walk through.
pub const RESTART_MULT: u64 = 6364136223846793005;

/// Increment of the seed sequence that restarts walk through.
pub const RESTART_INC: u64 = 1442695040888963407;

/// An application as its rules see it.
pub ghost struct AppModel {
    pub seed: u64,
    pub s_max: u32,
    pub game: GameModel,
    pub queue: (Direction, Seq<Direction>),
    pub tier: Tier,
    pub quit: bool,
}

/// The seed of the run after a restart.
pub open spec fn next_seed(seed: u64) -> u64 {
    vstd::wrapping::u64_specs::wrapping_add(
        vstd::wrapping::u64_specs::wrapping_mul(seed, RESTART_MULT),
        RESTART_INC,
    )
}

/// A fresh Classic run on the next seed, with an empty turn queue heading
/// right.
pub open spec fn restarted(m: AppModel) -> AppModel {
    AppModel {
        seed: next_seed(m.seed),
        game: initial_game(Mode::Classic, next_seed(m.seed)),
        queue: (Direction::Right, Seq::empty()),
        ..m
    }
}

/// One action: Quit is recorded; Restart starts a fresh run, but only once
/// the current one has ended; a turn starts a waiting game and is queued;
/// Start starts a waiting game; Pause does nothing yet. The flag tells
/// whether a restart happened.
pub open spec fn apply_action(m: AppModel, a: Action) -> (AppModel, bool) {
    match a {
        Action::Quit => (AppModel { quit: true, ..m }, false),
        Action::Restart => if m.game.state == GameState::Dead || m.game.state == GameState::Won {
            (restarted(m), true)
        } else {
            (m, false)
        },
        Action::Turn(d) => (AppModel { game: start_spec(m.game), queue: spec_push(m.queue, d), ..m }, false),
        Action::Start => (AppModel { game: start_spec(m.game), ..m }, false),
        Action::Pause => (m, false),
    }
}

/// The actions applied in order; the flag tells whether any restarted.
pub open spec fn apply_actions(m: AppModel, s: Seq<Action>) -> (AppModel, bool)
    decreases s.len(),
{
    if s.len() == 0 {
        (m, false)
    } else {
        let (m1, r1) = apply_actions(m, s.drop_last());
        let (m2, r2) = apply_action(m1, s.last());
        (m2, r1 || r2)
    }
}

/// The application. Its fields are private: every `App` comes from `new`,
/// which establishes `app_wf`, and changes only through methods that keep it,
/// so the `app_wf` that `apply_input` and `tick` require holds of every `App`
/// a caller can hold. It is stated as a precondition rather than a type
/// invariant because a turn and a tick grow the queue's and the snake's deques in
/// place, and a call that may unwind cannot take a mutable borrow of a field
/// of a type with an invariant.
pub struct App {
    seed: u64,
    s_max: u32,
    game: Game,
    queue: DirQueue,
    tier: Tier,
    quit: bool,
}

impl View for App {
    type V = AppModel;

    closed spec fn view(&self) -> AppModel {
        AppModel {
            seed: self.seed,
            s_max: self.s_max,
            game: self.game@,
            queue: self.queue@,
            tier: self.tier,
            quit: self.quit,
        }
    }
}

/// The game inside an application keeps its rules' invariants and its food
/// on a free cell until the board is won.
pub open spec fn app_wf(m: AppModel) -> bool {
    game_wf(m.game) && food_ok(m.game)
}

impl App {
    pub fn new(seed: u64, s_max: u32) -> (a: App)
        ensures
            a@ == (AppModel {
                seed,
                s_max,
                game: initial_game(Mode::Classic, seed),
                queue: (Direction::Right, Seq::empty()),
                tier: Tier::Full,
                quit: false,
            }),
            app_wf(a@),
    {
        App {
            seed,
            s_max,
            game: Game::new(Mode::Classic, seed),
            queue: DirQueue::new(Direction::Right),
            tier: Tier::Full,
            quit: false,
        }
    }

    pub fn game(&self) -> (g: &Game)
        ensures
            g@ == self@.game,
    {
        &self.game
    }

    pub fn queue(&self) -> (q: &DirQueue)
        ensures
            q@ == self@.queue,
    {
        &self.queue
    }

    pub fn seed(&self) -> (s: u64)
        ensures
            s == self@.seed,
    {
        self.seed
    }

    pub fn s_max(&self) -> (s: u32)
        ensures
            s == self@.s_max,
    {
        self.s_max
    }

    pub fn tier(&self) -> (t: Tier)
        ensures
            t == self@.tier,
    {
        self.tier
    }

    pub fn should_quit(&self) -> (q: bool)
        ensures
            q == self@.quit,
    {
        self.quit
    }

    pub fn set_tier(&mut self, t: Tier)
        ensures
            final(self)@ == (AppModel { tier: t, ..old(self)@ }),
    {
        self.tier = t;
    }

    fn restart(&mut self)
        ensures
            final(self)@ == restarted(old(self)@),
            app_wf(final(self)@),
    {
        // Advance the seed so a replay is a new run rather than the same food
        // sequence again.
        self.seed = self.seed.wrapping_mul(RESTART_MULT).wrapping_add(RESTART_INC);
        self.game = Game::new(Mode::Classic, self.seed);
        self.queue = DirQueue::new(Direction::Right);
    }

    fn apply(&mut self, a: Action) -> (restarted: bool)
        requires
            app_wf(old(self)@),
        ensures
            (final(self)@, restarted) == apply_action(old(self)@, a),
            app_wf(final(self)@),
    {
        match a {
            Action::Quit => {
                self.quit = true;
                false
            },
            Action::Restart => {
                if self.game.state() == GameState::Dead || self.game.state() == GameState::Won {
                    self.restart();
                    true
                } else {
                    false
                }
            },
            Action::Turn(d) => {
                self.game.start();
                self.queue.push(d);
                false
            },
            Action::Start => {
                self.game.start();
                false
            },
            Action::Pause => false,
        }
    }

    /// Applies a frame's actions in order and tells whether one of them
    /// restarted the run.
    pub fn apply_input(&mut self, input: &[Action]) -> (restarted: bool)
        requires
            app_wf(old(self)@),
        ensures
            (final(self)@, restarted) == apply_actions(old(self)@, input@),
            app_wf(final(self)@),
    {
        let mut any = false;
        let mut i: usize = 0;
        while i < input.len()
            invariant
                i <= input@.len(),
                app_wf(self@),
                (self@, any) == apply_actions(old(self)@, input@.take(i as int)),
            decreases input@.len() - i,
        {
            assert(input@.take(i as int + 1).drop_last() =~= input@.take(i as int));
            let r = self.apply(input[i]);
            any = any || r;
            i = i + 1;
        }
        assert(input@.take(input@.len() as int) =~= input@);
        any
    }

    /// Runs one tick of a running game with the next queued turn; a game
    /// that is not running is left as it is.
    pub fn tick(&mut self)
        requires
            app_wf(old(self)@),
        ensures
            final(self)@ == if old(self)@.game.state == GameState::Running {
                AppModel {
                    game: tick_spec(old(self)@.game, spec_pop(old(self)@.queue).0),
                    queue: spec_pop(old(self)@.queue).1,
                    ..old(self)@
                }
            } else {
                old(self)@
            },
            app_wf(final(self)@),
    {
        if self.game.state() == GameState::Running {
            proof {
                crate::game::lemma_wf_tick_ok(self@.game, spec_pop(self@.queue).0);
            }
            self.game.tick(&mut self.queue);
        }
    }
}

/// What a frame shows: the resize screen, or the arena at a layout with the
/// hint line on the given row.
#[derive(Copy, Clone, PartialEq, Eq, Debug)]
pub enum Screen {
    Resize,
    Arena(Layout, u16),
}

/// The screen for a terminal of `cols` x `rows`: the resize screen when no
/// layout fits, otherwise the arena with the hint on the row right below it.
pub open spec fn screen_spec(cols: u16, rows: u16, s_max: u32) -> Screen {
    match layout_spec(cols, rows, s_max) {
        None => Screen::Resize,
        Some(l) => Screen::Arena(l, (l.origin_row + rows_for(l.canvas_h as int)) as u16),
    }
}

pub fn screen_for(cols: u16, rows: u16, s_max: u32) -> (s: Screen)
    ensures
        s == screen_spec(cols, rows, s_max),
        s matches Screen::Arena(_, hint_row) ==> hint_row < rows,
{
    match Layout::compute(cols, rows, s_max) {
        None => Screen::Resize,
        Some(l) => {
            let hint_row = l.origin_row + l.canvas_rows();
            Screen::Arena(l, hint_row)
        },
    }
}

/// A frame's actions take effect one after another, each on the state the
/// ones before it left, and a restart by any of them is reported.
pub proof fn lemma_apply_actions_in_order(m: AppModel, s: Seq<Action>, a: Action)
    ensures
        apply_actions(m, Seq::<Action>::empty()) == (m, false),
        apply_actions(m, s.push(a)) == (
            apply_action(apply_actions(m, s).0, a).0,
            apply_actions(m, s).1 || apply_action(apply_actions(m, s).0, a).1,
        ),
{
    assert(s.push(a).drop_last() =~= s);
}

/// A Quit anywhere among a frame's actions is recorded.
pub proof fn lemma_quit_anywhere_is_recorded(m: AppModel, s: Seq<Action>)
    requires
        s.contains(Action::Quit),
    ensures
        apply_actions(m, s).0.quit,
    decreases s.len(),
{
    if s.last() == Action::Quit {
    } else {
        let i = choose|i: int| 0 <= i < s.len() && s[i] == Action::Quit;
        assert(s.drop_last()[i] == Action::Quit);
        lemma_quit_anywhere_is_recorded(m, s.drop_last());
    }
}

/// The arena screen puts the hint on the first terminal row below the
/// canvas: each row shows two pixel rows, the canvas's `canvas_h` pixel rows
/// from `origin_row` on all lie above the hint row, and the row just above
/// it still shows some of them; the hint row is on the terminal.
pub proof fn lemma_hint_row_right_below_arena(cols: u16, rows: u16, s_max: u32)
    ensures
        screen_spec(cols, rows, s_max) == Screen::Resize <==> layout_spec(cols, rows, s_max) is None,
        screen_spec(cols, rows, s_max) matches Screen::Arena(l, h) ==> {
            &&& layout_spec(cols, rows, s_max) == Some(l)
            &&& l.origin_row < h < rows
            &&& 2 * (h - l.origin_row) >= l.canvas_h
            &&& 2 * (h - l.origin_row - 1) < l.canvas_h
        },
{
    if let Some(l) = layout_spec(cols, rows, s_max) {
        let r = rows_for(l.canvas_h as int);
        let used = r + crate::render::layout::CHROME_ROWS;
        assert(0 <= (rows - used) / 2 <= rows - used);
        assert(l.origin_row == 1 + (rows - used) / 2);
        assert(2 * r >= l.canvas_h && 2 * (r - 1) < l.canvas_h);
    }
}

/// A restart while the run is alive is ignored.
pub proof fn lemma_restart_ignored_while_alive(m: AppModel)
    requires
        m.game.state == GameState::AwaitingStart || m.game.state == GameState::Running,
    ensures
        apply_action(m, Action::Restart) == (m, false),
{
}

/// A restart after the run has ended starts a fresh one: waiting for the
/// first press, no score, the starting snake, and a new seed.
pub proof fn lemma_restart_after_end_is_fresh(m: AppModel)
    requires
        m.game.state == GameState::Dead || m.game.state == GameState::Won,
    ensures
        ({
            let (m2, r) = apply_action(m, Action::Restart);
            &&& r
            &&& m2.game.state == GameState::AwaitingStart
            &&& m2.game.score == 0
            &&& m2.game.snake.body.len() == crate::game::START_LEN
            &&& m2.seed == next_seed(m.seed)
            &&& m2.queue == (Direction::Right, Seq::<Direction>::empty())
            &&& m2.quit == m.quit
        }),
{
    crate::game::lemma_start_snake_len();
}

/// A turn press starts a waiting game.
pub proof fn lemma_turn_starts_waiting_game(m: AppModel, d: Direction)
    requires
        m.game.state == GameState::AwaitingStart,
    ensures
        apply_action(m, Action::Turn(d)).0.game.state == GameState::Running,
{
}

/// Quit is recorded and nothing else changes.
pub proof fn lemma_quit_is_recorded(m: AppModel)
    ensures
        apply_action(m, Action::Quit) == (AppModel { quit: true, ..m }, false),
{
}

} // verus!
