//! Deterministic random numbers.
//!
//! A hand-rolled PCG32 (XSH-RR output over a 64-bit LCG) and FNV-1a-64, so
//! that a seed gives the same sequence on every platform and every build.
use vstd::prelude::*;

verus! {

/// The LCG multiplier of PCG32.
pub const PCG_MULT: u64 = 6364136223846793005;

/// The stream selector; the increment is `(PCG_SEQ << 1) | 1`.
pub const PCG_SEQ: u64 = 54;

/// The FNV-1a-64 offset basis.
pub const FNV_OFFSET: u64 = 0xcbf29ce484222325;

/// The FNV-1a-64 prime.
pub const FNV_PRIME: u64 = 0x100000001b3;

/// One LCG step of the generator's state: `state * PCG_MULT + inc` modulo 2^64.
pub open spec fn pcg_step(state: u64, inc: u64) -> u64 {
    vstd::wrapping::u64_specs::wrapping_add(
        vstd::wrapping::u64_specs::wrapping_mul(state, PCG_MULT),
        inc,
    )
}

/// Right rotation of a 32-bit word by `r` bits (`r` below 32).
pub open spec fn rotr32(x: u32, r: u32) -> u32 {
    if r == 0 {
        x
    } else {
        (x >> r) | (x << ((32 - r) as u32))
    }
}

/// The XSH-RR output function: the 32-bit word drawn from a given state.
pub open spec fn pcg_output(state: u64) -> u32 {
    rotr32((((state >> 18u64) ^ state) >> 27u64) as u32, (state >> 59u64) as u32)
}

/// The increment every generator uses.
pub open spec fn pcg_inc() -> u64 {
    109
}

/// The state a generator holds right after being seeded with `seed`.
pub open spec fn pcg_seeded(seed: u64) -> u64 {
    pcg_step(vstd::wrapping::u64_specs::wrapping_add(pcg_step(0, pcg_inc()), seed), pcg_inc())
}

/// Draws below this value are rejected by `below`, so that the accepted
/// range is a whole number of blocks of `bound` values.
pub open spec fn below_threshold(bound: u32) -> u32
    recommends
        bound > 0,
{
    ((0x1_0000_0000int - bound) % (bound as int)) as u32
}

/// Rejection sampling from `state`: the first draw at or above the threshold,
/// reduced modulo `bound`, and the state after it. `fuel` counts the draws
/// still allowed after this one; when it runs out the last draw is taken.
pub open spec fn below_draw(state: u64, inc: u64, bound: u32, fuel: nat) -> (u32, u64)
    decreases fuel,
{
    let r = pcg_output(state);
    let next = pcg_step(state, inc);
    if r >= below_threshold(bound) || fuel == 0 {
        ((r % bound) as u32, next)
    } else {
        below_draw(next, inc, bound, (fuel - 1) as nat)
    }
}

/// The number of draws `below` makes at most: a whole period of the LCG,
/// after which the state sequence repeats.
pub open spec fn below_fuel() -> nat {
    u64::MAX as nat
}

/// FNV-1a-64 of a byte sequence.
pub open spec fn fnv1a64_spec(bytes: Seq<u8>) -> u64
    decreases bytes.len(),
{
    if bytes.len() == 0 {
        FNV_OFFSET
    } else {
        vstd::wrapping::u64_specs::wrapping_mul(
            fnv1a64_spec(bytes.drop_last()) ^ (bytes.last() as u64),
            FNV_PRIME,
        )
    }
}

/// The draws `below` accepts, `threshold..2^32`, form a whole number of
/// blocks of `bound` consecutive values, so every residue below `bound` is hit
/// by the same number of them; the threshold itself is below `bound`.
pub proof fn lemma_below_accepts_whole_blocks(bound: u32)
    requires
        bound > 0,
    ensures
        below_threshold(bound) < bound,
        (0x1_0000_0000int - below_threshold(bound)) % (bound as int) == 0,
{
    let b = bound as int;
    let n = 0x1_0000_0000int;
    vstd::arithmetic::div_mod::lemma_mod_sub_multiples_vanish(n, b);
    assert((n - b) % b == n % b);
    vstd::arithmetic::div_mod::lemma_fundamental_div_mod(n, b);
    vstd::arithmetic::div_mod::lemma_mod_multiples_basic(n / b, b);
    assert(n - n % b == b * (n / b));
    assert((b * (n / b)) % b == 0) by {
        vstd::arithmetic::mul::lemma_mul_is_commutative(b, n / b);
    }
}

/// The state after `n` steps from `state`; draw number `n` (counting from 0)
/// is taken from it.
pub open spec fn pcg_nth(state: u64, inc: u64, n: nat) -> u64
    decreases n,
{
    if n == 0 {
        state
    } else {
        pcg_nth(pcg_step(state, inc), inc, (n - 1) as nat)
    }
}

/// One LCG step as arithmetic modulo 2^64.
proof fn lemma_step_affine(x: u64, inc: u64)
    ensures
        pcg_step(x, inc) as int == (x * PCG_MULT + inc) % 0x1_0000_0000_0000_0000int,
{
    let m = 0x1_0000_0000_0000_0000int;
    let p = (x * PCG_MULT) % m;
    assert(vstd::wrapping::u64_specs::wrapping_mul(x, PCG_MULT) as int == p);
    vstd::arithmetic::div_mod::lemma_add_mod_noop_right(inc as int, x * PCG_MULT, m);
    if p + inc >= m {
        vstd::arithmetic::div_mod::lemma_fundamental_div_mod_converse(p + inc, m, 1, p + inc - m);
    } else {
        vstd::arithmetic::div_mod::lemma_fundamental_div_mod_converse(p + inc, m, 0, p + inc);
    }
}

/// `n + m` steps are `n` steps followed by `m` steps.
proof fn lemma_nth_add(x: u64, inc: u64, n: nat, m: nat)
    ensures
        pcg_nth(x, inc, n + m) == pcg_nth(pcg_nth(x, inc, n), inc, m),
    decreases n,
{
    if n > 0 {
        lemma_nth_add(pcg_step(x, inc), inc, (n - 1) as nat, m);
        assert((n + m - 1) as nat == (n - 1) as nat + m);
    }
}

/// The multiplier of the affine map that `2^k` steps make: `PCG_MULT^(2^k)`.
spec fn jump_mult(k: nat) -> int
    decreases k,
{
    if k == 0 {
        PCG_MULT as int
    } else {
        jump_mult((k - 1) as nat) * jump_mult((k - 1) as nat)
    }
}

/// The factor of the increment in the affine map that `2^k` steps make:
/// `1 + PCG_MULT + ... + PCG_MULT^(2^k - 1)`.
spec fn jump_incr(k: nat) -> int
    decreases k,
{
    if k == 0 {
        1
    } else {
        jump_incr((k - 1) as nat) * (jump_mult((k - 1) as nat) + 1)
    }
}

/// `2^k` steps map `x` to `jump_mult(k) * x + inc * jump_incr(k)` modulo 2^64.
proof fn lemma_jump(x: u64, inc: u64, k: nat)
    ensures
        pcg_nth(x, inc, vstd::arithmetic::power2::pow2(k)) as int == (jump_mult(k) * x + inc
            * jump_incr(k)) % 0x1_0000_0000_0000_0000int,
    decreases k,
{
    let m = 0x1_0000_0000_0000_0000int;
    if k == 0 {
        vstd::arithmetic::power2::lemma2_to64();
        assert(pcg_nth(x, inc, 1) == pcg_nth(pcg_step(x, inc), inc, 0));
        lemma_step_affine(x, inc);
        assert(jump_mult(0) == PCG_MULT as int);
        assert(jump_incr(0) == 1);
        assert(x * PCG_MULT + inc == jump_mult(0) * x + inc * jump_incr(0));
    } else {
        let j = (k - 1) as nat;
        let p = vstd::arithmetic::power2::pow2(j);
        vstd::arithmetic::power2::lemma_pow2_unfold(k);
        lemma_jump(x, inc, j);
        let y = pcg_nth(x, inc, p);
        lemma_jump(y, inc, j);
        lemma_nth_add(x, inc, p, p);
        assert(p + p == vstd::arithmetic::power2::pow2(k));
        let a = jump_mult(j);
        let g = jump_incr(j);
        let z = a * x + inc * g;
        let w = inc * g;
        assert(y as int == z % m);
        vstd::arithmetic::div_mod::lemma_mul_mod_noop_right(a, z, m);
        vstd::arithmetic::div_mod::lemma_add_mod_noop(a * (z % m), w, m);
        vstd::arithmetic::div_mod::lemma_add_mod_noop(a * z, w, m);
        assert((a * (z % m) + w) % m == (a * z + w) % m);
        assert(a * z + w == (a * a) * x + inc * (g * (a + 1))) by (nonlinear_arith)
            requires
                z == a * x + inc * g,
                w == inc * g,
        ;
        assert(jump_mult(k) == a * a);
        assert(jump_incr(k) == g * (a + 1));
        assert(pcg_nth(y, inc, p) as int == (a * y + w) % m);
    }
}

/// `PCG_MULT^(2^k)` is 1 modulo `2^(k + 2)`.
proof fn lemma_jump_mult_form(k: nat) -> (t: int)
    ensures
        jump_mult(k) == 1 + t * vstd::arithmetic::power2::pow2(k + 2),
    decreases k,
{
    vstd::arithmetic::power2::lemma2_to64();
    if k == 0 {
        1591034055961698251int
    } else {
        let j = (k - 1) as nat;
        let t = lemma_jump_mult_form(j);
        let pk = vstd::arithmetic::power2::pow2(k) as int;
        let p1 = vstd::arithmetic::power2::pow2(k + 1) as int;
        let p2 = vstd::arithmetic::power2::pow2(k + 2) as int;
        vstd::arithmetic::power2::lemma_pow2_unfold(k);
        vstd::arithmetic::power2::lemma_pow2_unfold(k + 1);
        vstd::arithmetic::power2::lemma_pow2_unfold(k + 2);
        assert(j + 2 == k + 1);
        let a = jump_mult(j);
        assert(a * a == 1 + (t + t * t * pk) * p2) by (nonlinear_arith)
            requires
                a == 1 + t * p1,
                p1 == 2 * pk,
                p2 == 2 * p1,
        ;
        t + t * t * pk
    }
}

/// `1 + PCG_MULT + ... + PCG_MULT^(2^k - 1)` is a multiple of `2^k`.
proof fn lemma_jump_incr_form(k: nat) -> (u: int)
    ensures
        jump_incr(k) == u * vstd::arithmetic::power2::pow2(k),
    decreases k,
{
    vstd::arithmetic::power2::lemma2_to64();
    if k == 0 {
        1
    } else {
        let j = (k - 1) as nat;
        let u = lemma_jump_incr_form(j);
        let t = lemma_jump_mult_form(j);
        let q = vstd::arithmetic::power2::pow2(j) as int;
        let pk = vstd::arithmetic::power2::pow2(k) as int;
        let p1 = vstd::arithmetic::power2::pow2(k + 1) as int;
        vstd::arithmetic::power2::lemma_pow2_unfold(k);
        vstd::arithmetic::power2::lemma_pow2_unfold(k + 1);
        assert(j + 2 == k + 1);
        let a = jump_mult(j);
        let g = jump_incr(j);
        assert(g * (a + 1) == (u * (1 + t * pk)) * pk) by (nonlinear_arith)
            requires
                g == u * q,
                a == 1 + t * p1,
                pk == 2 * q,
                p1 == 2 * pk,
        ;
        u * (1 + t * pk)
    }
}

/// The generator's states repeat with period 2^64 (a divisor of it, in
/// general): `2^64` further steps from any state come back to it, whatever
/// the increment.
pub proof fn lemma_pcg_period(state: u64, inc: u64, n: nat)
    ensures
        pcg_nth(state, inc, n + 0x1_0000_0000_0000_0000nat) == pcg_nth(state, inc, n),
{
    let m = 0x1_0000_0000_0000_0000int;
    let x = pcg_nth(state, inc, n);
    vstd::arithmetic::power2::lemma2_to64();
    lemma_jump(x, inc, 64);
    let t = lemma_jump_mult_form(64);
    let u = lemma_jump_incr_form(64);
    vstd::arithmetic::power2::lemma_pow2_adds(64, 2);
    assert(vstd::arithmetic::power2::pow2(66) == 4 * m);
    let v = jump_mult(64) * x + inc * jump_incr(64);
    assert(v == (4 * t * x + inc * u) * m + x) by (nonlinear_arith)
        requires
            jump_mult(64) == 1 + t * (4 * m),
            jump_incr(64) == u * m,
            v == jump_mult(64) * x + inc * jump_incr(64),
    ;
    vstd::arithmetic::div_mod::lemma_fundamental_div_mod_converse(v, m, 4 * t * x + inc * u, x as int);
    lemma_nth_add(state, inc, n, 0x1_0000_0000_0000_0000nat);
}

/// The rejection law of `below`, within a given number of draws: when draw
/// `n` is the first one at or above the threshold and `n` is within `fuel`,
/// the rejection loop returns that draw modulo `bound` and the state after it.
proof fn lemma_below_draw_first_accepted(state: u64, inc: u64, bound: u32, n: nat, fuel: nat)
    requires
        bound > 0,
        n <= fuel,
        forall|m: nat| m < n ==> #[trigger] pcg_output(pcg_nth(state, inc, m)) < below_threshold(bound),
        pcg_output(pcg_nth(state, inc, n)) >= below_threshold(bound),
    ensures
        below_draw(state, inc, bound, fuel) == (
            (pcg_output(pcg_nth(state, inc, n)) % bound) as u32,
            pcg_nth(state, inc, n + 1),
        ),
    decreases n,
{
    let next = pcg_step(state, inc);
    assert(pcg_nth(state, inc, 1) == pcg_nth(next, inc, 0));
    if n > 0 {
        assert(pcg_output(pcg_nth(state, inc, 0)) < below_threshold(bound));
        assert forall|m: nat| m < (n - 1) as nat implies #[trigger] pcg_output(pcg_nth(next, inc, m))
            < below_threshold(bound) by {
            assert(pcg_nth(state, inc, m + 1) == pcg_nth(next, inc, m));
            assert(pcg_output(pcg_nth(state, inc, m + 1)) < below_threshold(bound));
        }
        assert(pcg_nth(state, inc, n) == pcg_nth(next, inc, (n - 1) as nat));
        assert(pcg_nth(state, inc, n + 1) == pcg_nth(next, inc, n));
        lemma_below_draw_first_accepted(next, inc, bound, (n - 1) as nat, (fuel - 1) as nat);
    }
}

/// The rejection law of `below`: when draw `n` is the first one at or above
/// the threshold, `below` returns that draw modulo `bound` and leaves the
/// generator right after it. By the period of the states, such a first draw
/// always comes within the draws that `below` makes at most.
pub proof fn lemma_below_first_accepted(state: u64, inc: u64, bound: u32, n: nat)
    requires
        bound > 0,
        forall|m: nat| m < n ==> #[trigger] pcg_output(pcg_nth(state, inc, m)) < below_threshold(bound),
        pcg_output(pcg_nth(state, inc, n)) >= below_threshold(bound),
    ensures
        below_draw(state, inc, bound, below_fuel()) == (
            (pcg_output(pcg_nth(state, inc, n)) % bound) as u32,
            pcg_nth(state, inc, n + 1),
        ),
{
    if n > below_fuel() {
        let m = (n - 0x1_0000_0000_0000_0000nat) as nat;
        lemma_pcg_period(state, inc, m);
        assert(m + 0x1_0000_0000_0000_0000nat == n);
        assert(pcg_output(pcg_nth(state, inc, m)) < below_threshold(bound));
    }
    lemma_below_draw_first_accepted(state, inc, bound, n, below_fuel());
}

/// When none of the first 2^64 draws is at or above the threshold, none ever
/// is: a rejection loop without a bound would then run forever, and this is
/// the only case in which `below` returns its last draw without accepting it.
pub proof fn lemma_below_rejects_forever(state: u64, inc: u64, bound: u32)
    requires
        forall|m: nat|
            m < 0x1_0000_0000_0000_0000nat ==> #[trigger] pcg_output(pcg_nth(state, inc, m))
                < below_threshold(bound),
    ensures
        forall|m: nat| #[trigger] pcg_output(pcg_nth(state, inc, m)) < below_threshold(bound),
{
    assert forall|m: nat| #[trigger] pcg_output(pcg_nth(state, inc, m)) < below_threshold(bound) by {
        lemma_rejected_at(state, inc, bound, m);
    }
}

proof fn lemma_rejected_at(state: u64, inc: u64, bound: u32, m: nat)
    requires
        forall|j: nat|
            j < 0x1_0000_0000_0000_0000nat ==> #[trigger] pcg_output(pcg_nth(state, inc, j))
                < below_threshold(bound),
    ensures
        pcg_output(pcg_nth(state, inc, m)) < below_threshold(bound),
    decreases m,
{
    if m >= 0x1_0000_0000_0000_0000nat {
        let j = (m - 0x1_0000_0000_0000_0000nat) as nat;
        lemma_pcg_period(state, inc, j);
        assert(j + 0x1_0000_0000_0000_0000nat == m);
        lemma_rejected_at(state, inc, bound, j);
    }
}

/// The draws `below` accepts that it maps to `v`.
pub open spec fn accepted_with_residue(bound: u32, v: int) -> Set<int> {
    Set::new(|r: int| below_threshold(bound) <= r < 0x1_0000_0000int && r % (bound as int) == v)
}

/// `below` is unbiased: every value below `bound` is reached by exactly
/// `2^32 / bound` of the draws it accepts.
pub proof fn lemma_below_unbiased(bound: u32, v: int)
    requires
        bound > 0,
        0 <= v < bound,
    ensures
        accepted_with_residue(bound, v).finite(),
        accepted_with_residue(bound, v).len() == 0x1_0000_0000int / (bound as int),
{
    let b = bound as int;
    let n = 0x1_0000_0000int;
    let t = below_threshold(bound) as int;
    lemma_below_accepts_whole_blocks(bound);
    let q = (n - t) / b;
    vstd::arithmetic::div_mod::lemma_fundamental_div_mod(n - t, b);
    assert(n - t == b * q);
    assert(n == q * b + t) by (nonlinear_arith)
        requires
            n - t == b * q,
    ;
    vstd::arithmetic::div_mod::lemma_fundamental_div_mod_converse(n, b, q, t);
    assert(q == n / b);
    let c = (v - t) % b;
    let k = (v - t) / b;
    vstd::arithmetic::div_mod::lemma_fundamental_div_mod(v - t, b);
    assert(v - t == b * k + c);
    assert(0 <= c < b);
    let s = Seq::new(q as nat, |j: int| t + c + j * b);
    assert forall|i: int, j: int| 0 <= i < j < s.len() implies s[i] != s[j] by {
        assert(i * b < j * b) by (nonlinear_arith)
            requires
                i < j,
                b > 0,
        ;
    }
    s.unique_seq_to_set();
    let acc = accepted_with_residue(bound, v);
    assert forall|r: int| acc.contains(r) <==> s.to_set().contains(r) by {
        if acc.contains(r) {
            let d = r - t;
            let m = r / b;
            vstd::arithmetic::div_mod::lemma_fundamental_div_mod(r, b);
            assert(r == b * m + v);
            assert(d == (k + m) * b + c) by (nonlinear_arith)
                requires
                    d == r - t,
                    r == b * m + v,
                    v - t == b * k + c,
            ;
            vstd::arithmetic::div_mod::lemma_fundamental_div_mod_converse(d, b, k + m, c);
            let j = k + m;
            assert(0 <= j) by (nonlinear_arith)
                requires
                    d == j * b + c,
                    d >= 0,
                    0 <= c < b,
            ;
            assert(j < q) by (nonlinear_arith)
                requires
                    d == j * b + c,
                    d < n - t,
                    n - t == b * q,
                    0 <= c,
                    b > 0,
            ;
            assert(s[j] == r);
        }
        if s.to_set().contains(r) {
            let j = choose|j: int| 0 <= j < s.len() && s[j] == r;
            assert(r == t + c + j * b);
            assert(t <= r);
            assert(r < n) by (nonlinear_arith)
                requires
                    r == t + c + j * b,
                    j < q,
                    0 <= j,
                    c < b,
                    b > 0,
                    n - t == b * q,
            ;
            assert(r == (j - k) * b + v) by (nonlinear_arith)
                requires
                    r == t + c + j * b,
                    v - t == b * k + c,
            ;
            vstd::arithmetic::div_mod::lemma_fundamental_div_mod_converse(r, b, j - k, v);
        }
    }
    assert(acc =~= s.to_set());
}

/// For a power-of-two bound nothing is rejected: `below` takes exactly one
/// draw and returns it modulo `bound`.
pub proof fn lemma_below_power_of_two(state: u64, inc: u64, k: nat, fuel: nat)
    requires
        k < 32,
    ensures
        below_threshold(vstd::arithmetic::power2::pow2(k) as u32) == 0,
        below_draw(state, inc, vstd::arithmetic::power2::pow2(k) as u32, fuel) == (
            (pcg_output(state) % (vstd::arithmetic::power2::pow2(k) as u32)) as u32,
            pcg_step(state, inc),
        ),
{
    let p = vstd::arithmetic::power2::pow2(k) as int;
    let e = vstd::arithmetic::power2::pow2((32 - k) as nat) as int;
    vstd::arithmetic::power2::lemma2_to64();
    vstd::arithmetic::power2::lemma_pow2_adds(k, (32 - k) as nat);
    vstd::arithmetic::power2::lemma_pow2_pos(k);
    vstd::arithmetic::power2::lemma_pow2_pos((32 - k) as nat);
    assert(p * e == 0x1_0000_0000int);
    assert(p <= 0x8000_0000int) by {
        if k < 31 {
            vstd::arithmetic::power2::lemma_pow2_strictly_increases(k, 31);
        }
    }
    assert(0x1_0000_0000int - p == (e - 1) * p + 0) by (nonlinear_arith)
        requires
            p * e == 0x1_0000_0000int,
    ;
    vstd::arithmetic::div_mod::lemma_fundamental_div_mod_converse(0x1_0000_0000int - p, p, e - 1, 0);
    assert((p as u32) as int == p);
}

pub struct Pcg32 {
    state: u64,
    inc: u64,
}

impl View for Pcg32 {
    /// The LCG state and increment.
    type V = (u64, u64);

    closed spec fn view(&self) -> (u64, u64) {
        (self.state, self.inc)
    }
}

fn rotate_right32(x: u32, r: u32) -> (y: u32)
    requires
        r < 32,
    ensures
        y == rotr32(x, r),
{
    if r == 0 {
        x
    } else {
        (x >> r) | (x << (32 - r))
    }
}

impl Pcg32 {
    pub fn new(seed: u64) -> (r: Pcg32)
        ensures
            r@ == (pcg_seeded(seed), pcg_inc()),
    {
        let mut r = Pcg32 { state: 0, inc: (PCG_SEQ << 1u64) | 1 };
        assert((PCG_SEQ << 1u64) | 1 == 109) by (bit_vector);
        r.next_u32();
        r.state = r.state.wrapping_add(seed);
        r.next_u32();
        r
    }

    /// Draws the next 32-bit word and advances the state.
    pub fn next_u32(&mut self) -> (w: u32)
        ensures
            w == pcg_output(old(self)@.0),
            final(self)@ == (pcg_step(old(self)@.0, old(self)@.1), old(self)@.1),
    {
        let old_state = self.state;
        self.state = old_state.wrapping_mul(PCG_MULT).wrapping_add(self.inc);
        let xorshifted = (((old_state >> 18u64) ^ old_state) >> 27u64) as u32;
        let rot = (old_state >> 59u64) as u32;
        assert(old_state >> 59u64 < 32) by (bit_vector);
        rotate_right32(xorshifted, rot)
    }

    /// Unbiased bounded draw: rejects the incomplete final block of the u32
    /// range so every value below `bound` is equally likely. The result is
    /// the first accepted draw modulo `bound` (`lemma_below_first_accepted`),
    /// each value is reached by the same number of accepted draws
    /// (`lemma_below_unbiased`), and a power-of-two bound takes exactly one
    /// draw (`lemma_below_power_of_two`). The loop stops after a whole period
    /// of draws, which only matters where no draw is ever accepted
    /// (`lemma_below_rejects_forever`).
    pub fn below(&mut self, bound: u32) -> (v: u32)
        requires
            bound > 0,
        ensures
            v < bound,
            (v, final(self)@.0) == below_draw(old(self)@.0, old(self)@.1, bound, below_fuel()),
            final(self)@.1 == old(self)@.1,
    {
        let threshold = 0u32.wrapping_sub(bound) % bound;
        assert(threshold == below_threshold(bound));
        let mut tries: u64 = 0;
        loop
            invariant
                bound > 0,
                threshold == below_threshold(bound),
                self@.1 == old(self)@.1,
                below_draw(self@.0, self@.1, bound, (u64::MAX - tries) as nat)
                    == below_draw(old(self)@.0, old(self)@.1, bound, below_fuel()),
            decreases u64::MAX - tries,
        {
            let r = self.next_u32();
            if r >= threshold || tries == u64::MAX {
                return r % bound;
            }
            tries = tries + 1;
        }
    }
}

pub fn fnv1a64(bytes: &[u8]) -> (h: u64)
    ensures
        h == fnv1a64_spec(bytes@),
{
    let mut h: u64 = FNV_OFFSET;
    let mut i: usize = 0;
    while i < bytes.len()
        invariant
            i <= bytes@.len(),
            h == fnv1a64_spec(bytes@.take(i as int)),
        decreases bytes@.len() - i,
    {
        assert(bytes@.take(i as int + 1).drop_last() == bytes@.take(i as int));
        h = h ^ (bytes[i] as u64);
        h = h.wrapping_mul(FNV_PRIME);
        i = i + 1;
    }
    assert(bytes@.take(i as int) == bytes@);
    h
}

} // verus!
