use terminal_snake::render::canvas::{half_cell, paint, pixel_index, ColorTier, Glyph, HalfCell, Paint};

#[test]
fn two_different_pixels_become_an_upper_half_block_cell() {
    let c = half_cell([255, 0, 0], [0, 0, 255], ColorTier::Full);
    assert_eq!(
        c,
        HalfCell {
            glyph: Glyph::UpperHalf,
            fg: Some(Paint::Rgb(255, 0, 0)),
            bg: Paint::Rgb(0, 0, 255),
        }
    );
}

#[test]
fn an_equal_pair_collapses_to_a_blank_with_default_fg() {
    let c = half_cell([64, 64, 64], [64, 64, 64], ColorTier::Full);
    assert_eq!(c.glyph, Glyph::Space);
    assert_eq!(c.fg, None);
    assert_eq!(c.bg, Paint::Rgb(64, 64, 64));
}

#[test]
fn reduced_tier_paints_indexed_colour() {
    let c = half_cell([255, 0, 0], [0, 0, 0], ColorTier::Reduced);
    assert_eq!(c.fg, Some(Paint::Indexed(196)));
    assert_eq!(c.bg, Paint::Indexed(16));
}

#[test]
fn one_differing_channel_is_enough_for_a_half_block() {
    let c = half_cell([10, 20, 30], [10, 20, 31], ColorTier::Full);
    assert_eq!(c.glyph, Glyph::UpperHalf);
}

#[test]
fn paint_follows_the_tier() {
    assert_eq!(paint([1, 2, 3], ColorTier::Full), Paint::Rgb(1, 2, 3));
    assert_eq!(paint([255, 255, 255], ColorTier::Reduced), Paint::Indexed(231));
}

#[test]
fn pixel_indices_are_row_major_and_bounded() {
    assert_eq!(pixel_index(4, 3, 0, 0), Some(0));
    assert_eq!(pixel_index(4, 3, 3, 2), Some(11));
    assert_eq!(pixel_index(4, 3, 1, 1), Some(5));
    assert_eq!(pixel_index(4, 3, 4, 0), None);
    assert_eq!(pixel_index(4, 3, 0, 3), None);
    assert_eq!(pixel_index(4, 3, -1, 0), None);
    assert_eq!(pixel_index(4, 3, 0, -5), None);
}
