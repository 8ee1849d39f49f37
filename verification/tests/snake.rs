use terminal_snake::game::snake::{Snake, StepOutcome};
use terminal_snake::game::types::{Direction, Pos, GRID_H, GRID_W};

fn snake() -> Snake {
    Snake::new(Pos::new(9, 9), 4, Direction::Right)
}

#[test]
fn new_lays_body_behind_the_head() {
    let s = snake();
    assert_eq!(s.head(), Pos::new(9, 9));
    assert_eq!(s.len(), 4);
    assert!(s.contains(Pos::new(8, 9)));
    assert!(s.contains(Pos::new(6, 9)));
    assert!(!s.contains(Pos::new(5, 9)));
}

#[test]
fn step_moves_head_and_drops_tail() {
    let mut s = snake();
    assert_eq!(s.step(Direction::Right, false), StepOutcome::Moved);
    assert_eq!(s.head(), Pos::new(10, 9));
    assert_eq!(s.len(), 4);
    assert!(!s.contains(Pos::new(6, 9)));
}

#[test]
fn growth_holds_the_tail_and_adds_exactly_one_per_unit() {
    let mut s = snake();
    s.grow(1);
    s.step(Direction::Right, false);
    assert_eq!(s.len(), 5);
    assert!(s.contains(Pos::new(6, 9)));
    s.step(Direction::Right, false);
    assert_eq!(s.len(), 5);
}

#[test]
fn wall_kills_when_not_wrapping() {
    let mut s = Snake::new(Pos::new(GRID_W - 1, 9), 2, Direction::Right);
    assert_eq!(s.step(Direction::Right, false), StepOutcome::HitWall);
}

#[test]
fn wall_wraps_when_wrapping() {
    let mut s = Snake::new(Pos::new(GRID_W - 1, 9), 2, Direction::Right);
    assert_eq!(s.step(Direction::Right, true), StepOutcome::Moved);
    assert_eq!(s.head(), Pos::new(0, 9));
}

#[test]
fn wrapping_covers_the_other_edges() {
    let mut up = Snake::new(Pos::new(4, 0), 2, Direction::Up);
    assert_eq!(up.step(Direction::Up, true), StepOutcome::Moved);
    assert_eq!(up.head(), Pos::new(4, GRID_H - 1));

    let mut left = Snake::new(Pos::new(0, 4), 2, Direction::Left);
    assert_eq!(left.step(Direction::Left, true), StepOutcome::Moved);
    assert_eq!(left.head(), Pos::new(GRID_W - 1, 4));
}

#[test]
fn entering_the_vacating_tail_cell_is_legal() {
    let mut s = Snake::new(Pos::new(5, 5), 4, Direction::Right);
    s.step(Direction::Down, false);
    s.step(Direction::Left, false);
    assert_eq!(s.step(Direction::Up, false), StepOutcome::Moved);
}

#[test]
fn entering_the_tail_cell_while_growing_is_a_collision() {
    let mut s = Snake::new(Pos::new(5, 5), 4, Direction::Right);
    s.step(Direction::Down, false);
    s.step(Direction::Left, false);
    s.grow(1);
    assert_eq!(s.step(Direction::Up, false), StepOutcome::HitSelf);
}

#[test]
fn running_into_the_middle_of_the_body_is_a_collision() {
    let mut s = Snake::new(Pos::new(5, 5), 6, Direction::Right);
    s.step(Direction::Down, false);
    s.step(Direction::Left, false);
    assert_eq!(s.step(Direction::Up, false), StepOutcome::HitSelf);
}

#[test]
fn a_failed_step_leaves_the_body_but_turns_the_heading() {
    let mut s = Snake::new(Pos::new(GRID_W - 1, 3), 3, Direction::Down);
    let before: Vec<Pos> = s.iter().copied().collect();
    assert_eq!(s.step(Direction::Right, false), StepOutcome::HitWall);
    let after: Vec<Pos> = s.iter().copied().collect();
    assert_eq!(before, after);
    assert_eq!(s.dir(), Direction::Right);
}

#[test]
fn iter_yields_the_cells_head_first() {
    let s = snake();
    let cells: Vec<Pos> = s.iter().copied().collect();
    assert_eq!(
        cells,
        vec![Pos::new(9, 9), Pos::new(8, 9), Pos::new(7, 9), Pos::new(6, 9)]
    );
}

#[test]
fn from_cells_keeps_the_given_order() {
    let cells = vec![Pos::new(1, 1), Pos::new(1, 2), Pos::new(2, 2)];
    let s = Snake::from_cells(cells.clone(), Direction::Up);
    let got: Vec<Pos> = s.iter().copied().collect();
    assert_eq!(got, cells);
    assert_eq!(s.head(), Pos::new(1, 1));
    assert!(!s.is_growing());
}

#[test]
fn a_zero_length_snake_is_empty() {
    let s = Snake::new(Pos::new(3, 3), 0, Direction::Left);
    assert_eq!(s.len(), 0);
}

#[test]
fn wrapping_from_far_outside_lands_on_the_grid() {
    let mut s = Snake::from_cells(vec![Pos::new(-30, 40)], Direction::Left);
    assert_eq!(s.step(Direction::Left, true), StepOutcome::Moved);
    // -31 mod 28 = 25, 40 mod 18 = 4.
    assert_eq!(s.head(), Pos::new(25, 4));
}

#[test]
fn growth_counts_down_one_per_move() {
    let mut s = snake();
    s.grow(2);
    assert!(s.is_growing());
    s.step(Direction::Right, false);
    assert!(s.is_growing());
    s.step(Direction::Right, false);
    assert!(!s.is_growing());
    assert_eq!(s.len(), 6);
}
