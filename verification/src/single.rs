//! Times in single precision.
//!
//! Animations are timed in seconds as IEEE 754 single-precision numbers. Such a
//! number, never negative here, is held as a whole multiple of 2^-33 s, and
//! arithmetic on it rounds as that format does: to 24 significant bits, to the
//! nearest number, and of two that are equally near to the one whose last bit is 0.
//! Every time that occurs is 0 or a sum and difference of times of 1 ms and more,
//! so none needs a finer multiple.

use vstd::prelude::*;

verus! {

/// One second.
pub const ONE_SECOND: u64 = 0x2_0000_0000;

/// A thirtieth of a second: what one display frame takes.
pub const DISPLAY_FRAME: u64 = 286_331_168;

/// No time grows above this by display frames: 2^20 s, where a thirtieth of a
/// second is less than half the distance to the next number.
pub const LONGEST_TIME: u64 = 0x20_0000_0000_0000;

/// The distance between neighbouring numbers at `n`: the least power of two by
/// which `n` has at most 24 bits.
pub open spec fn unit(n: int) -> int
    decreases n,
{
    if n < 0x100_0000 {
        1
    } else {
        2 * unit(n / 2)
    }
}

/// The number nearest to `a / d`.
pub open spec fn rounded_ratio(a: int, d: int) -> int {
    let step = d * unit(a / d);
    let q = a / step;
    let r = a % step;
    if 2 * r < step || (2 * r == step && q % 2 == 0) {
        q * unit(a / d)
    } else {
        (q + 1) * unit(a / d)
    }
}

/// The number nearest to `n`.
pub open spec fn rounded(n: int) -> int {
    rounded_ratio(n, 1)
}

proof fn lemma_unit_bounds(n: int)
    requires
        0 <= n,
    ensures
        1 <= unit(n),
        0x80_0000 * unit(n) <= n || unit(n) == 1,
    decreases n,
{
    if n >= 0x100_0000 {
        lemma_unit_bounds(n / 2);
    }
}

/// Where `n` has `24 + k` bits, the unit is two to the power of `k`.
proof fn lemma_unit_value(n: int, k: nat)
    requires
        0x80_0000 * vstd::arithmetic::power2::pow2(k) <= n < 0x100_0000
            * vstd::arithmetic::power2::pow2(k),
    ensures
        unit(n) == vstd::arithmetic::power2::pow2(k),
    decreases k,
{
    if k == 0 {
        vstd::arithmetic::power2::lemma2_to64();
    } else {
        vstd::arithmetic::power2::lemma_pow2_unfold(k);
        vstd::arithmetic::power2::lemma_pow2_pos((k - 1) as nat);
        lemma_unit_value(n / 2, (k - 1) as nat);
    }
}

/// Where `n` has at most `24 + k` bits, the unit divides two to the power of `k`.
proof fn lemma_unit_divides(n: int, k: nat) -> (m: int)
    requires
        0 <= n < 0x100_0000 * vstd::arithmetic::power2::pow2(k),
    ensures
        m * unit(n) == vstd::arithmetic::power2::pow2(k),
    decreases k,
{
    if n < 0x100_0000 {
        vstd::arithmetic::power2::pow2(k) as int
    } else {
        if k == 0 {
            vstd::arithmetic::power2::lemma2_to64();
        }
        vstd::arithmetic::power2::lemma_pow2_unfold(k);
        let m = lemma_unit_divides(n / 2, (k - 1) as nat);
        let u = unit(n / 2);
        assert(m * (2 * u) == 2 * (m * u)) by (nonlinear_arith);
        m
    }
}

proof fn lemma_quotient(a: int, d: int, u: int)
    requires
        0 <= a,
        0 < d,
        0 < u,
    ensures
        0 <= a / (d * u),
        a / (d * u) * u <= a / d,
{
    let step = d * u;
    assert(step > 0) by (nonlinear_arith)
        requires
            0 < d,
            0 < u,
            step == d * u,
    ;
    let q = a / step;
    vstd::arithmetic::div_mod::lemma_fundamental_div_mod(a, step);
    vstd::arithmetic::div_mod::lemma_div_pos_is_pos(a, step);
    vstd::arithmetic::div_mod::lemma_mod_bound(a, step);
    vstd::arithmetic::div_mod::lemma_fundamental_div_mod(a, d);
    vstd::arithmetic::div_mod::lemma_mod_bound(a, d);
    let n = a / d;
    assert(q * u <= n) by (nonlinear_arith)
        requires
            step * q <= a,
            step == d * u,
            a < d * n + d,
            0 < d,
    ;
}

/// Rounding moves a number by at most one unit up.
proof fn lemma_rounded_ratio_bounds(a: int, d: int)
    requires
        0 <= a,
        0 < d,
    ensures
        0 <= rounded_ratio(a, d) <= a / d + unit(a / d),
{
    vstd::arithmetic::div_mod::lemma_div_pos_is_pos(a, d);
    let u = unit(a / d);
    lemma_unit_bounds(a / d);
    lemma_quotient(a, d, u);
    let q = a / (d * u);
    assert((q + 1) * u == q * u + u) by (nonlinear_arith);
    assert(0 <= q * u) by (nonlinear_arith)
        requires
            0 <= q,
            0 < u,
    ;
}

/// Up to half a unit above the longest time, rounding gives at most that time.
proof fn lemma_rounded_stays_in_range(n: int)
    requires
        0 <= n < LONGEST_TIME + 0x2000_0000,
    ensures
        0 <= rounded(n) <= LONGEST_TIME,
{
    vstd::arithmetic::power2::lemma2_to64();
    lemma_rounded_ratio_bounds(n, 1);
    let u = unit(n);
    if n < LONGEST_TIME {
        assert(vstd::arithmetic::power2::pow2(29) == 0x2000_0000);
        let m = lemma_unit_divides(n, 29);
        lemma_unit_bounds(n);
        lemma_quotient(n, 1, u);
        let q = n / (1 * u);
        let top = 0x100_0000 * m;
        assert(top * u == LONGEST_TIME) by (nonlinear_arith)
            requires
                top == 0x100_0000 * m,
                m * u == 0x2000_0000,
                LONGEST_TIME == 0x20_0000_0000_0000,
        ;
        assert(q < top) by (nonlinear_arith)
            requires
                q * u < top * u,
                0 < u,
        ;
        assert((q + 1) * u <= top * u) by (nonlinear_arith)
            requires
                q + 1 <= top,
                0 < u,
        ;
        assert(q * u <= (q + 1) * u) by (nonlinear_arith)
            requires
                0 < u,
        ;
    } else {
        assert(vstd::arithmetic::power2::pow2(30) == 0x4000_0000);
        lemma_unit_value(n, 30);
        assert(u == 0x4000_0000);
    }
}

/// Finds the unit at `n`.
fn unit_at(n: u64) -> (u: u64)
    requires
        n <= 0x4000_0000_0000_0000,
    ensures
        u == unit(n as int),
        1 <= u,
        u <= n || u == 1,
{
    let mut u: u64 = 1;
    let mut m: u64 = n;
    while m >= 0x100_0000
        invariant
            unit(n as int) == u * unit(m as int),
            n <= 0x4000_0000_0000_0000,
            m * u <= n,
            1 <= u,
            u > 1 ==> m >= 0x80_0000,
        decreases m,
    {
        proof {
            let rest = unit(m as int / 2);
            assert(u * (2 * rest) == (2 * u) * rest) by (nonlinear_arith);
            let half = m / 2;
            assert(half * (2 * u) <= m * u && 2 * u <= m * u) by (nonlinear_arith)
                requires
                    2 * half <= m,
                    2 <= m,
                    1 <= u,
            ;
        }
        u = 2 * u;
        m = m / 2;
    }
    proof {
        lemma_unit_bounds(n as int);
    }
    u
}

/// Divides, rounding to the nearest number.
pub fn ratio(a: u128, d: u128) -> (r: u64)
    requires
        0 < d <= 1000,
        a / d <= 0x4000_0000_0000_0000,
    ensures
        r == rounded_ratio(a as int, d as int),
        r <= 0x8000_0000_0000_0000,
{
    let u: u64 = unit_at((a / d) as u64);
    proof {
        lemma_quotient(a as int, d as int, u as int);
        lemma_rounded_ratio_bounds(a as int, d as int);
        assert(0 < d * u <= 1000 * 0x4000_0000_0000_0000) by (nonlinear_arith)
            requires
                0 < d <= 1000,
                0 < u <= 0x4000_0000_0000_0000,
        ;
    }
    let step: u128 = d * (u as u128);
    let q: u128 = a / step;
    let r: u128 = a % step;
    proof {
        assert((q + 1) * u == q * u + u && q <= q * u) by (nonlinear_arith)
            requires
                0 <= q,
                1 <= u,
        ;
    }
    if r < step - r || (r == step - r && q % 2 == 0) {
        (q * (u as u128)) as u64
    } else {
        ((q + 1) * (u as u128)) as u64
    }
}

/// Rounds to the nearest number.
pub fn round(n: u64) -> (r: u64)
    requires
        n <= 0x4000_0000_0000_0000,
    ensures
        r == rounded(n as int),
        n < LONGEST_TIME + 0x2000_0000 ==> r <= LONGEST_TIME,
{
    proof {
        if n < LONGEST_TIME + 0x2000_0000 {
            lemma_rounded_stays_in_range(n as int);
        }
    }
    ratio(n as u128, 1)
}

// ─── Frame times ─────────────────────────────────────────────────────────────

/// How long a GIF frame is shown. No delay and anything from 28 to 42 ms count as
/// one display frame.
pub open spec fn frame_time(delay_ms: u32) -> u64 {
    if delay_ms == 0 || 28 <= delay_ms <= 42 {
        DISPLAY_FRAME
    } else {
        rounded_ratio(rounded(delay_ms as int) * ONE_SECOND, 1000) as u64
    }
}

/// Finds how long a GIF frame is shown.
pub fn time_of_delay(delay_ms: u32) -> (t: u64)
    ensures
        t == frame_time(delay_ms),
        t <= 0x100_0000_0000_0000,
{
    if delay_ms == 0 || (28 <= delay_ms && delay_ms <= 42) {
        DISPLAY_FRAME
    } else {
        let ms: u64 = round(delay_ms as u64);
        proof {
            lemma_unit_bounds(delay_ms as int);
            lemma_rounded_ratio_bounds(delay_ms as int, 1);
        }
        let t: u64 = ratio((ms as u128) * (ONE_SECOND as u128), 1000);
        proof {
            let a = ms * ONE_SECOND;
            lemma_unit_bounds(a / 1000);
            lemma_rounded_ratio_bounds(a, 1000);
        }
        t
    }
}

/// The time after one more display frame.
pub open spec fn later(t: u64) -> u64 {
    rounded(t + DISPLAY_FRAME) as u64
}

/// Adds one display frame to a time.
pub fn add_display_frame(t: u64) -> (r: u64)
    requires
        t <= LONGEST_TIME,
    ensures
        r == later(t),
        r <= LONGEST_TIME,
{
    round(t + DISPLAY_FRAME)
}

/// What is left of a time `t` after `d`.
pub open spec fn left_over(t: u64, d: u64) -> u64 {
    rounded(t - d) as u64
}

/// Takes a time off another.
pub fn subtract(t: u64, d: u64) -> (r: u64)
    requires
        d <= t <= LONGEST_TIME,
    ensures
        r == left_over(t, d),
        r <= LONGEST_TIME,
{
    round(t - d)
}

/// For how many display frames a frame is shown, from 1 to 255: thirty times its
/// seconds and a half, rounded down.
pub open spec fn shown_frames(t: u64) -> u8 {
    let n = rounded(rounded(t * 30) + ONE_SECOND / 2) / (ONE_SECOND as int);
    if n < 1 {
        1
    } else if n > 255 {
        255
    } else {
        n as u8
    }
}

/// Counts the display frames for which a frame is shown.
pub fn display_frames(t: u64) -> (n: u8)
    requires
        t <= 0x100_0000_0000_0000,
    ensures
        n == shown_frames(t),
{
    proof {
        lemma_unit_bounds(t * 30);
        lemma_rounded_ratio_bounds(t * 30, 1);
    }
    let p: u64 = round(t * 30);
    let n: u64 = round(p + ONE_SECOND / 2) / ONE_SECOND;
    if n < 1 {
        1
    } else if n > 255 {
        255
    } else {
        n as u8
    }
}

proof fn lemma_rounded_ratio_with(a: int, d: int, u: int, step: int)
    requires
        unit(a / d) == u,
        step == d * u,
    ensures
        rounded_ratio(a, d) == if 2 * (a % step) < step || (2 * (a % step) == step && a / step % 2
            == 0) {
            a / step * u
        } else {
            (a / step + 1) * u
        },
{
}

proof fn lemma_rounded_with(n: int, u: int)
    requires
        unit(n) == u,
    ensures
        rounded(n) == if 2 * (n % u) < u || (2 * (n % u) == u && n / u % 2 == 0) {
            n / u * u
        } else {
            (n / u + 1) * u
        },
{
    assert(n / 1 == n && 1 * u == u);
    lemma_rounded_ratio_with(n, 1, u, u);
}

/// A display frame is over after exactly one, with no time left over, and is stored
/// as one.
pub proof fn lemma_display_frame_is_shown_once()
    ensures
        later(0) == DISPLAY_FRAME,
        left_over(DISPLAY_FRAME, DISPLAY_FRAME) == 0,
        shown_frames(DISPLAY_FRAME) == 1,
{
    vstd::arithmetic::power2::lemma2_to64();
    lemma_unit_value(DISPLAY_FRAME as int, 5);
    lemma_unit_value(DISPLAY_FRAME * 30, 10);
    lemma_unit_value(ONE_SECOND + ONE_SECOND / 2, 10);
    lemma_rounded_with(DISPLAY_FRAME as int, 32);
    lemma_rounded_with(0, 1);
    lemma_rounded_with(DISPLAY_FRAME * 30, 1024);
    lemma_rounded_with(ONE_SECOND + ONE_SECOND / 2, 1024);
}

// ─── Laws ────────────────────────────────────────────────────────────────────

/// A display frame is the single-precision number nearest to a thirtieth of a
/// second.
pub proof fn law_display_frame_is_a_thirtieth()
    ensures
        DISPLAY_FRAME == rounded_ratio(ONE_SECOND as int, 30),
{
    vstd::arithmetic::power2::lemma2_to64();
    lemma_unit_value(0x2_0000_0000int / 30, 5);
    lemma_rounded_ratio_with(0x2_0000_0000, 30, 32, 960);
}

/// Rounding goes to a multiple of the unit that is at most half a unit away, and a
/// number of 24 bits stays as it is.
pub proof fn law_rounding_goes_to_the_nearest(n: int)
    requires
        0 <= n,
    ensures
        rounded(n) % unit(n) == 0,
        -unit(n) <= 2 * (rounded(n) - n) <= unit(n),
        n < 0x100_0000 ==> rounded(n) == n,
{
    let u = unit(n);
    lemma_unit_bounds(n);
    lemma_rounded_with(n, u);
    vstd::arithmetic::div_mod::lemma_fundamental_div_mod(n, u);
    vstd::arithmetic::div_mod::lemma_mod_bound(n, u);
    let q = n / u;
    assert((q + 1) * u == u * q + u && q * u == u * q) by (nonlinear_arith);
    vstd::arithmetic::div_mod::lemma_mod_multiples_basic(q, u);
    vstd::arithmetic::div_mod::lemma_mod_multiples_basic(q + 1, u);
}

} // verus!
