use terminal_snake::render::layout::{Layout, CHROME_ROWS, MAX_SCALE, MIN_COLS, MIN_ROWS, MIN_SCALE};

#[test]
fn below_the_minimum_there_is_no_layout() {
    assert!(Layout::compute(85, 31, 4).is_none());
    assert!(Layout::compute(86, 29, 4).is_none());
    assert!(Layout::compute(20, 10, 4).is_none());
    assert!(Layout::compute(0, 0, 4).is_none());
}

#[test]
fn the_documented_minimum_yields_scale_three() {
    let l = Layout::compute(86, 30, 4).unwrap();
    assert_eq!(l.scale, 3);
    assert_eq!(l.canvas_w, 28 * 3 + 2);
    assert_eq!(l.canvas_h, 18 * 3 + 2);
}

#[test]
fn the_canvas_always_fits_the_terminal() {
    for cols in MIN_COLS..240u16 {
        for rows in MIN_ROWS..90u16 {
            let l = Layout::compute(cols, rows, MAX_SCALE)
                .unwrap_or_else(|| panic!("no layout for {cols}x{rows}"));
            assert!(l.canvas_w <= cols as usize, "{cols}x{rows} overflowed width");
            let used = l.canvas_rows() + CHROME_ROWS;
            assert!(used <= rows, "{cols}x{rows} overflowed height");
            assert!(l.origin_col as usize + l.canvas_w <= cols as usize);
            assert!(
                l.origin_row + l.canvas_rows() < rows,
                "no room for the hint row at {cols}x{rows}"
            );
        }
    }
}

#[test]
fn scale_is_capped_by_the_argument() {
    assert_eq!(Layout::compute(400, 200, 4).unwrap().scale, 4);
    assert_eq!(Layout::compute(400, 200, 6).unwrap().scale, 6);
    assert_eq!(Layout::compute(400, 200, 3).unwrap().scale, 3);
}

#[test]
fn scale_never_drops_below_the_minimum_or_exceeds_the_maximum() {
    assert_eq!(Layout::compute(86, 30, 1).unwrap().scale, MIN_SCALE);
    assert_eq!(Layout::compute(999, 400, 99).unwrap().scale, MAX_SCALE);
}

#[test]
fn the_arena_is_centred() {
    let l = Layout::compute(200, 80, 4).unwrap();
    assert_eq!(l.origin_col, (200 - l.canvas_w as u16) / 2);
}

#[test]
fn a_120_by_40_terminal_gets_the_exact_layout() {
    // by_w = 118 / 28 = 4, by_h = 74 / 18 = 4; canvas 114 x 74 takes 37 rows.
    let l = Layout::compute(120, 40, 4).unwrap();
    assert_eq!(
        l,
        Layout {
            scale: 4,
            canvas_w: 114,
            canvas_h: 74,
            origin_col: 3,
            origin_row: 1,
        }
    );
    assert_eq!(l.canvas_rows(), 37);
}

#[test]
fn height_limits_the_scale_on_a_wide_terminal() {
    // 400 columns would allow scale 14, but 31 rows only allow 3.
    assert_eq!(Layout::compute(400, 31, 6).unwrap().scale, 3);
}

#[test]
fn canvas_rows_rounds_up() {
    let l = Layout {
        scale: 3,
        canvas_w: 10,
        canvas_h: 7,
        origin_col: 0,
        origin_row: 0,
    };
    assert_eq!(l.canvas_rows(), 4);
}
