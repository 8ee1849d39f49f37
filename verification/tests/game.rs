use terminal_snake::game::types::{Direction, Mode, Pos};
use terminal_snake::game::{Game, GameState, FOOD_SCORE};
use terminal_snake::input::DirQueue;

fn game() -> (Game, DirQueue) {
    (Game::new(Mode::Classic, 1), DirQueue::new(Direction::Right))
}

#[test]
fn starts_at_the_spec_position_and_waits_for_input() {
    let (g, _) = game();
    assert_eq!(g.state, GameState::AwaitingStart);
    assert_eq!(g.snake().head(), Pos::new(9, 9));
    assert_eq!(g.snake().len(), 4);
    assert_eq!(g.snake().dir(), Direction::Right);
}

#[test]
fn start_only_starts_a_waiting_game() {
    let (mut g, _) = game();
    g.start();
    assert_eq!(g.state, GameState::Running);
    g.state = GameState::Dead;
    g.start();
    assert_eq!(g.state, GameState::Dead);
}

#[test]
fn one_tick_moves_one_cell() {
    let (mut g, mut q) = game();
    g.start();
    g.force_food_at(Pos::new(0, 0));
    g.tick(&mut q);
    assert_eq!(g.snake().head(), Pos::new(10, 9));
    assert_eq!(g.snake().len(), 4);
}

#[test]
fn ticks_follow_the_queued_turns() {
    let (mut g, mut q) = game();
    g.start();
    g.force_food_at(Pos::new(0, 0));
    q.push(Direction::Up);
    q.push(Direction::Left);
    g.tick(&mut q);
    assert_eq!(g.snake().head(), Pos::new(9, 8));
    g.tick(&mut q);
    assert_eq!(g.snake().head(), Pos::new(8, 8));
    g.tick(&mut q);
    assert_eq!(g.snake().head(), Pos::new(7, 8));
}

#[test]
fn running_into_the_right_wall_kills_in_classic() {
    let (mut g, mut q) = game();
    g.start();
    g.force_food_at(Pos::new(0, 0));
    for _ in 0..18 {
        g.tick(&mut q);
        assert_eq!(g.state, GameState::Running);
    }
    assert_eq!(g.snake().head(), Pos::new(27, 9));
    g.tick(&mut q);
    assert_eq!(g.state, GameState::Dead);
    assert_eq!(g.snake().head(), Pos::new(27, 9));
}

#[test]
fn eating_scores_grows_and_counts_food_per_tick() {
    let (mut g, mut q) = game();
    g.start();
    g.force_food_at(Pos::new(10, 9));
    g.tick(&mut q);
    assert_eq!(g.score, FOOD_SCORE);
    assert_eq!(g.normal_food_eaten, 1);
    assert_eq!(g.snake().len(), 4);
    assert!(g.snake().is_growing());
    assert!(!g.snake().contains(g.food()));
    g.tick(&mut q);
    assert_eq!(g.snake().len(), 5);
}

#[test]
fn food_never_spawns_under_the_snake_across_ticks() {
    let mut g = Game::new(Mode::Classic, 5);
    assert!(!g.snake().contains(g.food()));
    let mut q = DirQueue::new(Direction::Right);
    let turns = [Direction::Down, Direction::Left, Direction::Up, Direction::Right];
    g.start();
    for i in 0..200 {
        if i % 3 == 0 {
            q.push(turns[(i / 3) % 4]);
        }
        g.tick(&mut q);
        if g.state != GameState::Running {
            break;
        }
        assert!(!g.snake().contains(g.food()));
        assert_eq!(g.score, FOOD_SCORE * g.normal_food_eaten);
    }
}

#[test]
fn the_same_seed_replays_identically_tick_by_tick() {
    let run = |seed: u64| {
        let mut g = Game::new(Mode::Classic, seed);
        let mut q = DirQueue::new(Direction::Right);
        g.start();
        let mut path = vec![];
        for _ in 0..12 {
            g.tick(&mut q);
            path.push((g.food(), g.snake().head()));
        }
        path
    };
    assert_eq!(run(1234), run(1234));
}

#[test]
fn endless_mode_wraps_instead_of_dying() {
    let mut g = Game::new(Mode::Endless, 3);
    let mut q = DirQueue::new(Direction::Right);
    g.start();
    for _ in 0..40 {
        g.tick(&mut q);
    }
    assert_eq!(g.state, GameState::Running);
    assert_eq!(g.mode(), Mode::Endless);
}

#[test]
fn different_seeds_usually_place_different_first_food() {
    let foods: Vec<Pos> = (0..8u64).map(|s| Game::new(Mode::Classic, s).food()).collect();
    assert!(foods.iter().any(|f| *f != foods[0]));
}

#[test]
fn growing_for_the_bench_lengthens_in_place() {
    let mut g = Game::new(Mode::Classic, 1);
    g.grow_for_bench(10);
    assert_eq!(g.snake().len(), 14);
    assert_eq!(g.snake().head(), Pos::new(19, 9));
    assert!(!g.snake().is_growing());
    assert_eq!(g.state, GameState::AwaitingStart);
}

#[test]
fn growing_for_the_bench_wraps_at_the_wall() {
    let mut g = Game::new(Mode::Classic, 1);
    g.grow_for_bench(20);
    assert_eq!(g.snake().len(), 24);
    assert_eq!(g.snake().head(), Pos::new(1, 9));
}

#[test]
fn the_getters_read_the_public_fields() {
    let (mut g, mut q) = game();
    g.start();
    g.force_food_at(Pos::new(10, 9));
    g.tick(&mut q);
    assert_eq!(g.score(), g.score);
    assert_eq!(g.normal_food_eaten(), g.normal_food_eaten);
    assert_eq!(g.state(), GameState::Running);
    assert_eq!(g.score(), FOOD_SCORE);
}
