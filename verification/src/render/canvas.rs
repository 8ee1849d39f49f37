use vstd::prelude::*;
use crate::render::tier::Tier;
use crate::render::color::{nearest_256, nearest_256_spec};

verus! {

/// How pixels are painted: 24-bit colour, or the nearest xterm-256 index.
#[derive(Copy, Clone, PartialEq, Eq, Debug, Structural)]
pub enum ColorTier {
    Full,
    Reduced,
}

/// The painting mode for a terminal tier: reduced terminals get indexed
/// colour, every other tier full colour.
pub fn color_tier_for(t: Tier) -> (c: ColorTier)
    ensures
        c == (if t == Tier::Reduced { ColorTier::Reduced } else { ColorTier::Full }),
{
    match t {
        Tier::Reduced => ColorTier::Reduced,
        _ => ColorTier::Full,
    }
}

/// The row-major index of pixel `(x, y)` in a `w` x `h` canvas, or `None`
/// when the pixel lies outside it.
pub open spec fn pixel_index_spec(w: usize, h: usize, x: i32, y: i32) -> Option<usize> {
    if x < 0 || y < 0 || x >= w || y >= h {
        None
    } else {
        Some((y * w + x) as usize)
    }
}

pub fn pixel_index(w: usize, h: usize, x: i32, y: i32) -> (i: Option<usize>)
    requires
        w * h <= usize::MAX,
    ensures
        i == pixel_index_spec(w, h, x, y),
        i matches Some(k) ==> k < w * h,
{
    if x < 0 || y < 0 || x as usize >= w || y as usize >= h {
        None
    } else {
        let (xu, yu) = (x as usize, y as usize);
        assert(yu * w + xu < w * h) by (nonlinear_arith)
            requires
                xu < w,
                yu < h,
        ;
        Some(yu * w + xu)
    }
}

/// A terminal colour: 24-bit, or an xterm-256 palette index.
#[derive(Copy, Clone, PartialEq, Eq, Debug, Structural)]
pub enum Paint {
    Rgb(u8, u8, u8),
    Indexed(u8),
}

/// What a terminal cell shows: a blank, or the upper half block.
#[derive(Copy, Clone, PartialEq, Eq, Debug, Structural)]
pub enum Glyph {
    Space,
    UpperHalf,
}

/// One terminal cell holding two stacked pixels. A foreground of `None` is
/// the terminal's default, which lets the backend skip the foreground escape
/// across runs of flat colour.
#[derive(Copy, Clone, PartialEq, Eq, Debug)]
pub struct HalfCell {
    pub glyph: Glyph,
    pub fg: Option<Paint>,
    pub bg: Paint,
}

/// How an encoded pixel is painted at a tier.
pub open spec fn paint_spec(c: [u8; 3], tier: ColorTier) -> Paint {
    match tier {
        ColorTier::Full => Paint::Rgb(c[0], c[1], c[2]),
        ColorTier::Reduced => Paint::Indexed(nearest_256_spec(c)),
    }
}

/// The cell for a top and a bottom pixel, compared after encoding: equal
/// pixels collapse to a blank on their colour, different ones become an
/// upper half block with the top pixel in front and the bottom behind.
pub open spec fn half_cell_spec(top: [u8; 3], bot: [u8; 3], tier: ColorTier) -> HalfCell {
    if top@ == bot@ {
        HalfCell { glyph: Glyph::Space, fg: None, bg: paint_spec(bot, tier) }
    } else {
        HalfCell { glyph: Glyph::UpperHalf, fg: Some(paint_spec(top, tier)), bg: paint_spec(bot, tier) }
    }
}

pub fn paint(c: [u8; 3], tier: ColorTier) -> (p: Paint)
    ensures
        p == paint_spec(c, tier),
{
    match tier {
        ColorTier::Full => Paint::Rgb(c[0], c[1], c[2]),
        ColorTier::Reduced => Paint::Indexed(nearest_256(c)),
    }
}

/// The terminal cell for two vertically stacked encoded pixels.
pub fn half_cell(top: [u8; 3], bot: [u8; 3], tier: ColorTier) -> (c: HalfCell)
    ensures
        c == half_cell_spec(top, bot, tier),
{
    // Compared after quantizing to bytes, not as light values: two values
    // within an epsilon can still land on different bytes, and two outside it
    // can land on the same one.
    if top[0] == bot[0] && top[1] == bot[1] && top[2] == bot[2] {
        assert(top@ =~= bot@);
        HalfCell { glyph: Glyph::Space, fg: None, bg: paint(bot, tier) }
    } else {
        HalfCell { glyph: Glyph::UpperHalf, fg: Some(paint(top, tier)), bg: paint(bot, tier) }
    }
}

} // verus!
