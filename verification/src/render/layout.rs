//! Where the arena goes in a terminal of a given size.
use vstd::prelude::*;
use crate::game::types::{GRID_H, GRID_W};

verus! {

pub const MIN_COLS: u16 = 86;

pub const MIN_ROWS: u16 = 30;

/// 1 HUD row + 1 hint row. Kept at 2 so the 120x30 Windows Terminal
/// default is playable out of the box.
pub const CHROME_ROWS: u16 = 2;

/// One border pixel on each side.
pub const BORDER_PX: usize = 2;

pub const MIN_SCALE: u32 = 3;

/// Capped at 4 by default: scale 6 pushes ~21 MB/s of per-cell truecolour SGR,
/// which is at or past what Windows Terminal sustains.
pub const DEFAULT_MAX_SCALE: u32 = 4;

pub const MAX_SCALE: u32 = 6;

#[derive(Copy, Clone, Debug, PartialEq, Eq, Structural)]
pub struct Layout {
    pub scale: u32,
    pub canvas_w: usize,
    pub canvas_h: usize,
    pub origin_col: u16,
    pub origin_row: u16,
}

/// `v` limited to `lo..=hi`.
pub open spec fn clamp_int(v: int, lo: int, hi: int) -> int {
    if v < lo {
        lo
    } else if v > hi {
        hi
    } else {
        v
    }
}

/// The largest integer pixel scale at which the 28 x 18 grid and its border
/// fit in `cols` columns and `rows - CHROME_ROWS` rows of two pixels each,
/// kept within `MIN_SCALE..=min(s_max, MAX_SCALE)` (`s_max` itself raised to
/// at least `MIN_SCALE`).
pub open spec fn layout_scale(cols: u16, rows: u16, s_max: u32) -> int {
    let avail_w = if cols >= BORDER_PX { cols - BORDER_PX } else { 0 };
    let avail_h = if (rows - CHROME_ROWS) * 2 >= BORDER_PX { (rows - CHROME_ROWS) * 2 - BORDER_PX } else { 0 };
    let by_w = avail_w / (GRID_W as int);
    let by_h = avail_h / (GRID_H as int);
    let fit = if by_w < by_h { by_w } else { by_h };
    clamp_int(fit, MIN_SCALE as int, clamp_int(s_max as int, MIN_SCALE as int, MAX_SCALE as int))
}

/// Terminal rows the canvas takes: two pixel rows per cell, rounded up.
pub open spec fn rows_for(canvas_h: int) -> int {
    (canvas_h + 1) / 2
}

/// The layout for a terminal of `cols` x `rows`: `None` below the playable
/// minimum, otherwise the arena at `layout_scale`, centred horizontally and
/// centred vertically below the HUD row.
pub open spec fn layout_spec(cols: u16, rows: u16, s_max: u32) -> Option<Layout> {
    if cols < MIN_COLS || rows < MIN_ROWS {
        None
    } else {
        let scale = layout_scale(cols, rows, s_max);
        let canvas_w = GRID_W * scale + BORDER_PX;
        let canvas_h = GRID_H * scale + BORDER_PX;
        let used_rows = rows_for(canvas_h) + CHROME_ROWS;
        if canvas_w > cols || used_rows > rows {
            None
        } else {
            Some(
                Layout {
                    scale: scale as u32,
                    canvas_w: canvas_w as usize,
                    canvas_h: canvas_h as usize,
                    origin_col: ((cols - canvas_w) / 2) as u16,
                    origin_row: ((CHROME_ROWS - 1) + (rows - used_rows) / 2) as u16,
                },
            )
        }
    }
}

impl Layout {
    /// Integer pixel scale for a terminal of `cols` x `rows`, or `None` when
    /// the terminal is below the playable minimum.
    ///
    /// The logic grid never changes size, so a bigger terminal renders crisper
    /// but never easier.
    pub fn compute(cols: u16, rows: u16, s_max: u32) -> (l: Option<Layout>)
        ensures
            l == layout_spec(cols, rows, s_max),
            l is Some <==> cols >= MIN_COLS && rows >= MIN_ROWS,
            l matches Some(l) ==> {
                &&& MIN_SCALE <= l.scale <= MAX_SCALE
                &&& l.scale <= if s_max > MIN_SCALE { s_max } else { MIN_SCALE }
                &&& l.canvas_w <= cols
                &&& rows_for(l.canvas_h as int) + CHROME_ROWS <= rows
                &&& l.origin_col + l.canvas_w <= cols
                &&& l.origin_row + rows_for(l.canvas_h as int) < rows
            },
    {
        if cols < MIN_COLS || rows < MIN_ROWS {
            return None;
        }

        let cols_px = cols as usize;
        let avail_px_w = if cols_px >= BORDER_PX { cols_px - BORDER_PX } else { 0 };
        let rows_px = (rows - CHROME_ROWS) as usize * 2;
        let avail_px_h = if rows_px >= BORDER_PX { rows_px - BORDER_PX } else { 0 };

        let by_w = avail_px_w / GRID_W as usize;
        let by_h = avail_px_h / GRID_H as usize;
        let cap = if s_max < MIN_SCALE {
            MIN_SCALE
        } else if s_max > MAX_SCALE {
            MAX_SCALE
        } else {
            s_max
        };
        let fit = (if by_w < by_h { by_w } else { by_h }) as u32;
        let scale = if fit < MIN_SCALE {
            MIN_SCALE
        } else if fit > cap {
            cap
        } else {
            fit
        };
        assert(scale == layout_scale(cols, rows, s_max));

        let canvas_w = GRID_W as usize * scale as usize + BORDER_PX;
        let canvas_h = GRID_H as usize * scale as usize + BORDER_PX;

        let used_rows = ((canvas_h + 1) / 2) as u16 + CHROME_ROWS;
        if canvas_w > cols as usize || used_rows > rows {
            return None;
        }

        let origin_col = (cols - canvas_w as u16) / 2;
        let origin_row = (CHROME_ROWS - 1) + (rows - used_rows) / 2;

        Some(Layout { scale, canvas_w, canvas_h, origin_col, origin_row })
    }

    /// Terminal rows the canvas occupies.
    pub fn canvas_rows(&self) -> (r: u16)
        ensures
            r == rows_for(self.canvas_h as int) as u16,
    {
        (self.canvas_h / 2 + self.canvas_h % 2) as u16
    }
}

} // verus!
