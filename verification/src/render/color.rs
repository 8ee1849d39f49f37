//! Integer parts of the colour pipeline: the quantization depth and the
//! xterm-256 palette fallback.
use vstd::prelude::*;

verus! {

/// Bits kept per channel.
///
/// This was 5 to help the diff renderer skip slowly decaying trail pixels, but
/// measurement showed the saving is not worth the cost. Across a moving scene
/// with a death burst at scale 4, the share of pixels changing per frame is
/// 24.5% at 5 bits, 30.0% at 6, and 41.5% at 8 - about 2.3, 2.8 and 3.9 MB/s
/// of escape codes at 60fps, against a Windows Terminal ceiling nearer 20.
/// Five bits puts a visible step of 8 into every smooth gradient, which shows
/// up as contour rings around the glow and the death flash. Full depth costs
/// 1.6 MB/s more and removes the banding entirely.
pub const QUANT_BITS: u32 = 8;

/// The six channel levels of the xterm 6x6x6 colour cube.
pub open spec fn cube_level(i: int) -> int {
    if i == 0 {
        0
    } else if i == 1 {
        95
    } else if i == 2 {
        135
    } else if i == 3 {
        175
    } else if i == 4 {
        215
    } else {
        255
    }
}

pub open spec fn abs_diff(a: int, b: int) -> int {
    if a >= b {
        a - b
    } else {
        b - a
    }
}

/// `i` is the cube level nearest to `v`, the lower one on a tie.
pub open spec fn is_nearest_level(v: int, i: int) -> bool {
    &&& 0 <= i < 6
    &&& forall|j: int| 0 <= j < 6 ==> abs_diff(cube_level(i), v) <= abs_diff(#[trigger] cube_level(j), v)
    &&& forall|j: int| 0 <= j < i ==> abs_diff(#[trigger] cube_level(j), v) > abs_diff(cube_level(i), v)
}

/// The index of the cube level nearest to `v`, the lower one on a tie.
pub open spec fn nearest_level(v: int) -> int {
    choose|i: int| is_nearest_level(v, i)
}

/// Squared distance between two colours.
pub open spec fn spec_dist2(a: [u8; 3], b: [u8; 3]) -> int {
    (a[0] - b[0]) * (a[0] - b[0]) + (a[1] - b[1]) * (a[1] - b[1]) + (a[2] - b[2]) * (a[2] - b[2])
}

/// The step of the 24-step grey ramp (levels `8 + 10 * k`) nearest to
/// `avg`, a tie going to the brighter step.
pub open spec fn grey_index(avg: int) -> int {
    let k = (avg - 3) / 10;
    if k < 0 {
        0
    } else if k > 23 {
        23
    } else {
        k
    }
}

/// The xterm-256 index of `c`: the nearest cube colour (16..=231) unless the
/// grey ramp step nearest to the channel average is strictly closer
/// (232..=255).
pub open spec fn nearest_256_spec(c: [u8; 3]) -> u8 {
    let ri = nearest_level(c[0] as int);
    let gi = nearest_level(c[1] as int);
    let bi = nearest_level(c[2] as int);
    let cube = [cube_level(ri) as u8, cube_level(gi) as u8, cube_level(bi) as u8];
    let gk = grey_index((c[0] + c[1] + c[2]) / 3);
    let g = (8 + 10 * gk) as u8;
    if spec_dist2(c, [g, g, g]) < spec_dist2(c, cube) {
        (232 + gk) as u8
    } else {
        (16 + 36 * ri + 6 * gi + bi) as u8
    }
}

proof fn lemma_nearest_unique(v: int, i: int)
    requires
        is_nearest_level(v, i),
    ensures
        nearest_level(v) == i,
{
    let k = nearest_level(v);
    assert(is_nearest_level(v, k));
    if k < i {
        assert(abs_diff(cube_level(k), v) > abs_diff(cube_level(i), v));
        assert(abs_diff(cube_level(k), v) <= abs_diff(cube_level(i), v));
    } else if i < k {
        assert(abs_diff(cube_level(i), v) > abs_diff(cube_level(k), v));
        assert(abs_diff(cube_level(i), v) <= abs_diff(cube_level(k), v));
    }
}

/// The colour of xterm-256 palette entry `i` (16..=255): the 6x6x6 colour
/// cube for 16..=231, the grey ramp `8 + 10 * k` for 232..=255.
pub open spec fn palette_rgb(i: int) -> (int, int, int) {
    if i < 232 {
        let j = i - 16;
        (cube_level(j / 36), cube_level((j / 6) % 6), cube_level(j % 6))
    } else {
        let v = 8 + 10 * (i - 232);
        (v, v, v)
    }
}

/// Squared distance from `c` to palette entry `i`.
pub open spec fn palette_dist2(c: [u8; 3], i: int) -> int {
    let p = palette_rgb(i);
    (c[0] - p.0) * (c[0] - p.0) + (c[1] - p.1) * (c[1] - p.1) + (c[2] - p.2) * (c[2] - p.2)
}

/// Every channel value has a nearest cube level.
proof fn lemma_nearest_level_exists(v: int)
    requires
        0 <= v <= 255,
    ensures
        is_nearest_level(v, nearest_level(v)),
{
    let w = if v <= 47 {
        0int
    } else if v <= 115 {
        1int
    } else if v <= 155 {
        2int
    } else if v <= 195 {
        3int
    } else if v <= 235 {
        4int
    } else {
        5int
    };
    assert forall|j: int| 0 <= j < 6 implies abs_diff(cube_level(w), v) <= abs_diff(
        #[trigger] cube_level(j),
        v,
    ) by {
        if j == 0 {
        } else if j == 1 {
        } else if j == 2 {
        } else if j == 3 {
        } else if j == 4 {
        } else {
        }
    }
    assert forall|j: int| 0 <= j < w implies abs_diff(#[trigger] cube_level(j), v) > abs_diff(
        cube_level(w),
        v,
    ) by {
        if j == 0 {
        } else if j == 1 {
        } else if j == 2 {
        } else if j == 3 {
        } else {
        }
    }
    assert(is_nearest_level(v, w));
    lemma_nearest_unique(v, w);
}

/// A channel no farther from `c` gives no larger square.
proof fn lemma_square_le(c: int, a: int, b: int)
    requires
        abs_diff(a, c) <= abs_diff(b, c),
    ensures
        (c - a) * (c - a) <= (c - b) * (c - b),
{
    let x = abs_diff(a, c);
    let y = abs_diff(b, c);
    assert(x * x <= y * y) by (nonlinear_arith)
        requires
            0 <= x <= y,
    ;
    assert((c - a) * (c - a) == x * x) by (nonlinear_arith)
        requires
            x == a - c || x == c - a,
    ;
    assert((c - b) * (c - b) == y * y) by (nonlinear_arith)
        requires
            y == b - c || y == c - b,
    ;
}

/// Squared distance from `c` to the grey `(v, v, v)`.
spec fn grey_dist2(c: [u8; 3], v: int) -> int {
    (c[0] - v) * (c[0] - v) + (c[1] - v) * (c[1] - v) + (c[2] - v) * (c[2] - v)
}

/// The grey step chosen from the channel average is at least as close as any
/// other step of the ramp.
proof fn lemma_grey_step_nearest(c: [u8; 3], k: int)
    requires
        0 <= k < 24,
    ensures
        grey_dist2(c, 8 + 10 * grey_index((c[0] + c[1] + c[2]) / 3)) <= grey_dist2(c, 8 + 10 * k),
{
    let s = c[0] + c[1] + c[2];
    let avg = s / 3;
    let gk = grey_index(avg);
    let g = 8 + 10 * gk;
    let h = 8 + 10 * k;
    assert(3 * avg <= s <= 3 * avg + 2);
    assert(gk < 23 ==> s <= 3 * g + 15);
    assert(gk > 0 ==> s >= 3 * g - 15);
    let a0 = c[0] as int;
    let a1 = c[1] as int;
    let a2 = c[2] as int;
    assert(grey_dist2(c, h) - grey_dist2(c, g) == (h - g) * (3 * (h + g) - 2 * s)) by (nonlinear_arith)
        requires
            s == a0 + a1 + a2,
            grey_dist2(c, h) == (a0 - h) * (a0 - h) + (a1 - h) * (a1 - h) + (a2 - h) * (a2 - h),
            grey_dist2(c, g) == (a0 - g) * (a0 - g) + (a1 - g) * (a1 - g) + (a2 - g) * (a2 - g),
    ;
    if k > gk {
        assert((h - g) * (3 * (h + g) - 2 * s) >= 0) by (nonlinear_arith)
            requires
                h >= g + 10,
                s <= 3 * g + 15,
        ;
    } else if k < gk {
        assert((h - g) * (3 * (h + g) - 2 * s) >= 0) by (nonlinear_arith)
            requires
                h <= g - 10,
                s >= 3 * g - 15,
        ;
    }
}

/// `nearest_256` picks the nearest palette entry: no entry of 16..=255 is
/// closer to `c` in squared distance, and a grey is picked only when it is
/// strictly closer than every cube colour.
pub proof fn lemma_nearest_256_is_nearest(c: [u8; 3])
    ensures
        16 <= nearest_256_spec(c) <= 255,
        forall|i: int|
            16 <= i <= 255 ==> palette_dist2(c, nearest_256_spec(c) as int) <= #[trigger] palette_dist2(
                c,
                i,
            ),
        nearest_256_spec(c) >= 232 ==> forall|i: int|
            16 <= i < 232 ==> palette_dist2(c, nearest_256_spec(c) as int) < #[trigger] palette_dist2(
                c,
                i,
            ),
{
    let ri = nearest_level(c[0] as int);
    let gi = nearest_level(c[1] as int);
    let bi = nearest_level(c[2] as int);
    lemma_nearest_level_exists(c[0] as int);
    lemma_nearest_level_exists(c[1] as int);
    lemma_nearest_level_exists(c[2] as int);
    let cube = [cube_level(ri) as u8, cube_level(gi) as u8, cube_level(bi) as u8];
    let cube_d = (c[0] - cube_level(ri)) * (c[0] - cube_level(ri)) + (c[1] - cube_level(gi)) * (c[1]
        - cube_level(gi)) + (c[2] - cube_level(bi)) * (c[2] - cube_level(bi));
    assert(spec_dist2(c, cube) == cube_d);
    let gk = grey_index((c[0] + c[1] + c[2]) / 3);
    let g = (8 + 10 * gk) as u8;
    assert(g as int == 8 + 10 * gk);
    assert(spec_dist2(c, [g, g, g]) == grey_dist2(c, 8 + 10 * gk));
    let jc = 36 * ri + 6 * gi + bi;
    vstd::arithmetic::div_mod::lemma_fundamental_div_mod_converse(jc, 36, ri, 6 * gi + bi);
    vstd::arithmetic::div_mod::lemma_fundamental_div_mod_converse(jc, 6, 6 * ri + gi, bi);
    vstd::arithmetic::div_mod::lemma_fundamental_div_mod_converse(6 * ri + gi, 6, ri, gi);
    assert(palette_dist2(c, 16 + jc) == cube_d);
    assert(palette_dist2(c, 232 + gk) == grey_dist2(c, 8 + 10 * gk));
    assert forall|i: int| 16 <= i < 232 implies cube_d <= #[trigger] palette_dist2(c, i) by {
        let j = i - 16;
        let r = j / 36;
        let q = (j / 6) % 6;
        let b = j % 6;
        assert(0 <= r < 6);
        assert(0 <= q < 6);
        assert(0 <= b < 6);
        lemma_square_le(c[0] as int, cube_level(ri), cube_level(r));
        lemma_square_le(c[1] as int, cube_level(gi), cube_level(q));
        lemma_square_le(c[2] as int, cube_level(bi), cube_level(b));
    }
    assert forall|i: int| 232 <= i <= 255 implies grey_dist2(c, 8 + 10 * gk) <= #[trigger] palette_dist2(
        c,
        i,
    ) by {
        lemma_grey_step_nearest(c, i - 232);
        assert(palette_dist2(c, i) == grey_dist2(c, 8 + 10 * (i - 232)));
    }
}

fn cube_value(i: usize) -> (c: u8)
    requires
        i < 6,
    ensures
        c == cube_level(i as int),
{
    match i {
        0 => 0,
        1 => 95,
        2 => 135,
        3 => 175,
        4 => 215,
        _ => 255,
    }
}

fn cube_index(v: u8) -> (i: usize)
    ensures
        i == nearest_level(v as int),
        i < 6,
{
    let mut best: usize = 0;
    let mut best_err: i32 = i32::MAX;
    let mut i: usize = 0;
    while i < 6
        invariant
            i <= 6,
            best < 6,
            i == 0 ==> best == 0 && best_err == i32::MAX,
            i > 0 ==> best < i && best_err == abs_diff(cube_level(best as int), v as int),
            forall|j: int| 0 <= j < i ==> abs_diff(cube_level(best as int), v as int) <= abs_diff(#[trigger] cube_level(j), v as int),
            forall|j: int| 0 <= j < best ==> abs_diff(#[trigger] cube_level(j), v as int) > abs_diff(cube_level(best as int), v as int),
        decreases 6 - i,
    {
        let c = cube_value(i);
        let e = if c as i32 >= v as i32 { c as i32 - v as i32 } else { v as i32 - c as i32 };
        if e < best_err {
            best_err = e;
            best = i;
        }
        i = i + 1;
    }
    proof {
        lemma_nearest_unique(v as int, best as int);
    }
    best
}

fn dist2(a: [u8; 3], b: [u8; 3]) -> (d: i32)
    ensures
        d == spec_dist2(a, b),
{
    let d0 = a[0] as i32 - b[0] as i32;
    let d1 = a[1] as i32 - b[1] as i32;
    let d2 = a[2] as i32 - b[2] as i32;
    assert(0 <= d0 * d0 <= 65025) by (nonlinear_arith)
        requires -255 <= d0 <= 255;
    assert(0 <= d1 * d1 <= 65025) by (nonlinear_arith)
        requires -255 <= d1 <= 255;
    assert(0 <= d2 * d2 <= 65025) by (nonlinear_arith)
        requires -255 <= d2 <= 255;
    d0 * d0 + d1 * d1 + d2 * d2
}

/// Nearest xterm-256 index: the 6x6x6 colour cube (16..=231) or the 24-step
/// grey ramp (232..=255), whichever is closer. Used on 256-colour-only
/// terminals such as macOS Terminal.app.
///
/// The grey step is rounded in integers: the average's distance to a level
/// is a whole number of units, so a tie is exactly half a step and goes up.
/// The result is the palette entry nearest to `c` (`lemma_nearest_256_is_nearest`).
pub fn nearest_256(c: [u8; 3]) -> (n: u8)
    ensures
        n == nearest_256_spec(c),
        16 <= n <= 255,
        forall|i: int| 16 <= i <= 255 ==> palette_dist2(c, n as int) <= #[trigger] palette_dist2(c, i),
        n >= 232 ==> forall|i: int|
            16 <= i < 232 ==> palette_dist2(c, n as int) < #[trigger] palette_dist2(c, i),
{
    proof {
        lemma_nearest_256_is_nearest(c);
    }
    let ri = cube_index(c[0]);
    let gi = cube_index(c[1]);
    let bi = cube_index(c[2]);
    let cube_err = dist2(c, [cube_value(ri), cube_value(gi), cube_value(bi)]);

    let avg: u32 = (c[0] as u32 + c[1] as u32 + c[2] as u32) / 3;
    let grey_i: u32 = if avg < 3 {
        0
    } else if (avg - 3) / 10 > 23 {
        23
    } else {
        (avg - 3) / 10
    };
    assert(grey_i == grey_index(avg as int));
    let g = (8 + grey_i * 10) as u8;
    let grey_err = dist2(c, [g, g, g]);

    if grey_err < cube_err {
        (232 + grey_i) as u8
    } else {
        (16 + 36 * ri + 6 * gi + bi) as u8
    }
}

} // verus!
