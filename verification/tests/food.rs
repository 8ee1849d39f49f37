use terminal_snake::game::food::spawn;
use terminal_snake::game::rng::Pcg32;
use terminal_snake::game::snake::Snake;
use terminal_snake::game::types::{Direction, Pos, GRID_H, GRID_W};

fn all_cells() -> Vec<Pos> {
    (0..GRID_H)
        .flat_map(|y| (0..GRID_W).map(move |x| Pos::new(x, y)))
        .collect()
}

#[test]
fn never_spawns_on_the_snake() {
    let s = Snake::new(Pos::new(9, 9), 6, Direction::Right);
    let mut r = Pcg32::new(1);
    for _ in 0..2000 {
        let p = spawn(&s, None, &mut r).unwrap();
        assert!(!s.contains(p));
    }
}

#[test]
fn respects_the_exclusion_cell() {
    let s = Snake::new(Pos::new(0, 0), 1, Direction::Right);
    let mut r = Pcg32::new(2);
    let excluded = Pos::new(5, 5);
    for _ in 0..2000 {
        assert_ne!(spawn(&s, Some(excluded), &mut r).unwrap(), excluded);
    }
}

#[test]
fn spawns_stay_inside_the_grid() {
    let s = Snake::new(Pos::new(9, 9), 4, Direction::Right);
    let mut r = Pcg32::new(3);
    for _ in 0..2000 {
        let p = spawn(&s, None, &mut r).unwrap();
        assert!(p.x >= 0 && p.x < GRID_W && p.y >= 0 && p.y < GRID_H);
    }
}

#[test]
fn a_full_board_returns_none_instead_of_hanging() {
    let s = Snake::from_cells(all_cells(), Direction::Right);
    let mut r = Pcg32::new(4);
    assert_eq!(spawn(&s, None, &mut r), None);
}

#[test]
fn the_same_seed_yields_the_same_sequence() {
    let s = Snake::new(Pos::new(9, 9), 4, Direction::Right);
    let run = || {
        let mut r = Pcg32::new(77);
        (0..20)
            .map(|_| spawn(&s, None, &mut r).unwrap())
            .collect::<Vec<Pos>>()
    };
    assert_eq!(run(), run());
}

#[test]
fn the_last_free_cell_is_always_chosen() {
    let mut cells = all_cells();
    let free = cells.remove(100);
    let s = Snake::from_cells(cells, Direction::Right);
    let mut r = Pcg32::new(11);
    for _ in 0..10 {
        assert_eq!(spawn(&s, None, &mut r), Some(free));
    }
}

#[test]
fn excluding_the_last_free_cell_fills_the_board() {
    let mut cells = all_cells();
    let free = cells.remove(7);
    let s = Snake::from_cells(cells, Direction::Right);
    let mut r = Pcg32::new(11);
    assert_eq!(spawn(&s, Some(free), &mut r), None);
}

#[test]
fn a_full_board_leaves_the_generator_untouched() {
    let s = Snake::from_cells(all_cells(), Direction::Right);
    let mut r = Pcg32::new(4);
    let mut fresh = Pcg32::new(4);
    assert_eq!(spawn(&s, None, &mut r), None);
    assert_eq!(r.next_u32(), fresh.next_u32());
}

#[test]
fn the_pick_indexes_the_free_cells_in_row_major_order() {
    let s = Snake::new(Pos::new(9, 9), 4, Direction::Right);
    let free: Vec<Pos> = all_cells().into_iter().filter(|p| !s.contains(*p)).collect();
    let mut r = Pcg32::new(77);
    let mut shadow = Pcg32::new(77);
    let p = spawn(&s, None, &mut r).unwrap();
    let i = shadow.below(free.len() as u32) as usize;
    assert_eq!(p, free[i]);
}
