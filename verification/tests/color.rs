use terminal_snake::render::color::{nearest_256, QUANT_BITS};

#[test]
fn the_quantization_step_is_small_enough_not_to_band() {
    // A step above about 4 puts visible contour rings into the wide, smooth
    // gradients that the glow and the death flash are made of.
    let step = 255 / ((1u32 << QUANT_BITS) - 1);
    assert!(step <= 4, "quantization step of {step} will band");
}

#[test]
fn nearest_256_maps_greys_and_primaries() {
    assert_eq!(nearest_256([0, 0, 0]), 16);
    assert_eq!(nearest_256([255, 255, 255]), 231);
    assert_eq!(nearest_256([255, 0, 0]), 196);
    assert_eq!(nearest_256([0, 255, 0]), 46);
    assert_eq!(nearest_256([0, 0, 255]), 21);
}

#[test]
fn nearest_256_prefers_the_grey_ramp_for_off_cube_greys() {
    // 118 is nearer grey step 11 (118) than any cube step (95 or 135).
    assert_eq!(nearest_256([118, 118, 118]), 232 + 11);
}

/// The index as computed with floating-point rounding of the grey step.
fn float_rounded_nearest_256(c: [u8; 3]) -> u8 {
    const CUBE: [u8; 6] = [0, 95, 135, 175, 215, 255];
    let cube_index = |v: u8| {
        let mut best = 0usize;
        let mut best_err = i32::MAX;
        for (i, &c) in CUBE.iter().enumerate() {
            let e = (c as i32 - v as i32).abs();
            if e < best_err {
                best_err = e;
                best = i;
            }
        }
        best
    };
    let dist2 = |a: [u8; 3], b: [u8; 3]| -> i32 {
        (0..3)
            .map(|i| {
                let d = a[i] as i32 - b[i] as i32;
                d * d
            })
            .sum()
    };
    let ri = cube_index(c[0]);
    let gi = cube_index(c[1]);
    let bi = cube_index(c[2]);
    let cube_err = dist2(c, [CUBE[ri], CUBE[gi], CUBE[bi]]);
    let avg = (c[0] as i32 + c[1] as i32 + c[2] as i32) / 3;
    let grey_i = (((avg - 8) as f32 / 10.0).round() as i32).clamp(0, 23);
    let g = (8 + grey_i * 10) as u8;
    let grey_err = dist2(c, [g, g, g]);
    if grey_err < cube_err {
        (232 + grey_i) as u8
    } else {
        (16 + 36 * ri + 6 * gi + bi) as u8
    }
}

#[test]
fn integer_grey_rounding_agrees_with_float_rounding_on_every_grey() {
    for v in 0..=255u8 {
        assert_eq!(nearest_256([v, v, v]), float_rounded_nearest_256([v, v, v]), "grey {v}");
    }
}

#[test]
fn integer_grey_rounding_agrees_with_float_rounding_on_a_colour_lattice() {
    for r in (0..=255u32).step_by(5) {
        for g in (0..=255u32).step_by(7) {
            for b in (0..=255u32).step_by(11) {
                let c = [r as u8, g as u8, b as u8];
                assert_eq!(nearest_256(c), float_rounded_nearest_256(c), "{c:?}");
            }
        }
    }
}

#[test]
fn cube_ties_go_to_the_lower_level() {
    // 115 is 20 from both 95 and 135: the lower level (index 1) wins, and a
    // pure colour never prefers the grey ramp here.
    assert_eq!(nearest_256([115, 0, 0]), 16 + 36);
}

#[test]
fn the_darkest_and_brightest_greys_use_the_ramp_ends() {
    assert_eq!(nearest_256([8, 8, 8]), 232);
    assert_eq!(nearest_256([238, 238, 238]), 255);
}

/// The colour of xterm-256 palette entry `i` in 16..=255.
fn palette_rgb(i: u8) -> [i32; 3] {
    const CUBE: [i32; 6] = [0, 95, 135, 175, 215, 255];
    if i < 232 {
        let j = (i - 16) as usize;
        [CUBE[j / 36], CUBE[(j / 6) % 6], CUBE[j % 6]]
    } else {
        let v = 8 + 10 * (i as i32 - 232);
        [v, v, v]
    }
}

fn palette_dist2(c: [u8; 3], i: u8) -> i32 {
    let p = palette_rgb(i);
    (0..3).map(|k| (c[k] as i32 - p[k]) * (c[k] as i32 - p[k])).sum()
}

#[test]
fn nearest_256_is_the_nearest_palette_entry() {
    for r in (0..=255u32).step_by(3) {
        for g in (0..=255u32).step_by(5) {
            for b in (0..=255u32).step_by(7) {
                let c = [r as u8, g as u8, b as u8];
                let n = nearest_256(c);
                assert!((16..=255).contains(&n), "{c:?}");
                let best = (16..=255u8).map(|i| palette_dist2(c, i)).min().unwrap();
                assert_eq!(palette_dist2(c, n), best, "{c:?}");
                if n >= 232 {
                    for i in 16..232u8 {
                        assert!(palette_dist2(c, n) < palette_dist2(c, i), "{c:?} vs {i}");
                    }
                }
            }
        }
    }
}
