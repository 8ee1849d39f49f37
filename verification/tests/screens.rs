use terminal_snake::app::{screen_for, Screen};
use terminal_snake::render::layout::Layout;
use terminal_snake::ui::resize::{resize_lines, TextStyle};

#[test]
fn the_resize_screen_names_the_current_and_required_size() {
    let runs = resize_lines(40, 10);
    assert_eq!(runs.len(), 2);
    assert_eq!(runs[0].text, "terminal too small: 40x10");
    assert_eq!(runs[0].style, TextStyle::Warn);
    assert_eq!(runs[1].text, "resize to at least 86x30");
    assert_eq!(runs[1].style, TextStyle::Dim);
    // Rows 4 and 5 of 10, centred in 40 columns.
    assert_eq!((runs[0].x, runs[0].y), ((40 - 25) / 2, 4));
    assert_eq!((runs[1].x, runs[1].y), ((40 - 24) / 2, 5));
    assert_eq!(runs[0].max_width, 40);
}

#[test]
fn a_tiny_terminal_keeps_only_the_rows_it_has() {
    let one = resize_lines(1, 1);
    assert_eq!(one.len(), 1);
    assert_eq!((one[0].x, one[0].y), (0, 0));
    let two = resize_lines(10, 2);
    assert_eq!(two.len(), 2);
    assert_eq!((two[0].y, two[1].y), (0, 1));
    assert!(resize_lines(5, 0).is_empty());
}

#[test]
fn large_sizes_are_written_in_full() {
    let runs = resize_lines(65535, 3);
    assert_eq!(runs[0].text, "terminal too small: 65535x3");
}

#[test]
fn a_small_terminal_gets_the_resize_screen() {
    assert_eq!(screen_for(40, 10, 4), Screen::Resize);
}

#[test]
fn the_hint_goes_right_below_the_arena() {
    let l = Layout::compute(120, 40, 4).unwrap();
    assert_eq!(screen_for(120, 40, 4), Screen::Arena(l, l.origin_row + l.canvas_rows()));
}
