//! The tone curve: from a frequency and the viewing parameters to a grey
//! level.
//!
//! With brightness `b`, contrast `c` and frequency `f`, the grey level is
//! the whole part of `255 * min(1, 2^b * f^c)`, where a frequency of zero
//! always gives zero. So the level is the largest `k` up to 255 with
//! `k / 255 <= 2^b * f^c`. Brightness is a whole number of halves and
//! contrast a whole number of eighths, so raising both sides to the eighth
//! power leaves whole numbers only:
//! `k^8 * denom^(8c) <= 255^8 * 16^(2b) * numer^(8c)`.
//! That comparison is carried out exactly.

use vstd::prelude::*;
use vstd::arithmetic::power::*;
use crate::frequency::{Frequency, Ratio};
use crate::natural::Natural;
use crate::params::ViewParameters;

verus! {

/// The brightest grey level.
pub const WHITE: u8 = 255;

/// What level `k` asks for: `k^8 * denom^(8c)`.
pub open spec fn level_demand(f: Ratio, p: ViewParameters, k: nat) -> int {
    pow(k as int, 8) * pow(f.denom as int, p.contrast_eighths as nat)
}

/// What the frequency supplies: `255^8 * 16^(2b) * numer^(8c)`.
pub open spec fn supply(f: Ratio, p: ViewParameters) -> int {
    pow(255, 8) * pow(16, p.brightness_halves as nat) * pow(
        f.numer as int,
        p.contrast_eighths as nat,
    )
}

/// Whether `k / 255 <= 2^b * f^c`. Level zero is always reached, and a
/// frequency of zero reaches no other level, whatever the contrast.
pub open spec fn level_reached(f: Ratio, p: ViewParameters, k: nat) -> bool {
    k == 0 || (f.numer > 0 && level_demand(f, p, k) <= supply(f, p))
}

/// The largest level up to `bound` that is reached.
pub open spec fn highest_level(f: Ratio, p: ViewParameters, bound: nat) -> nat
    decreases bound,
{
    if bound == 0 || level_reached(f, p, bound) {
        bound
    } else {
        highest_level(f, p, (bound - 1) as nat)
    }
}

/// The grey level of frequency `f` under parameters `p`: the whole part of
/// `255 * min(1, 2^b * f^c)`.
pub open spec fn intensity(f: Ratio, p: ViewParameters) -> nat {
    highest_level(f, p, 255)
}

/// A power does not shrink when its base grows.
proof fn lemma_pow_base_monotone(a: int, b: int, e: nat)
    requires
        0 <= a <= b,
    ensures
        0 <= pow(a, e) <= pow(b, e),
    decreases e,
{
    reveal(pow);
    if e > 0 {
        lemma_pow_base_monotone(a, b, (e - 1) as nat);
        let x = pow(a, (e - 1) as nat);
        let y = pow(b, (e - 1) as nat);
        assert(0 <= a * x <= b * y) by (nonlinear_arith)
            requires
                0 <= a <= b,
                0 <= x <= y,
        ;
    }
}

/// One more factor raises the exponent by one.
proof fn lemma_pow_next(scale: int, base: int, e: nat)
    ensures
        scale * pow(base, e) * base == scale * pow(base, e + 1),
{
    reveal(pow);
    let x = pow(base, e);
    assert(pow(base, e + 1) == base * x);
    assert(scale * x * base == scale * (base * x)) by (nonlinear_arith);
}

/// The eighth power by three squarings.
proof fn lemma_eighth_power(k: int)
    ensures
        pow(k, 8) == ((k * k) * (k * k)) * ((k * k) * (k * k)),
{
    lemma_pow1(k);
    lemma_pow_adds(k, 1, 1);
    lemma_pow_adds(k, 2, 2);
    lemma_pow_adds(k, 4, 4);
}

/// A level that is reached is reached by every lower level too.
pub proof fn lemma_level_reached_below(f: Ratio, p: ViewParameters, lower: nat, upper: nat)
    requires
        lower <= upper,
        level_reached(f, p, upper),
    ensures
        level_reached(f, p, lower),
{
    if lower > 0 {
        let scale = pow(f.denom as int, p.contrast_eighths as nat);
        lemma_pow_base_monotone(0, f.denom as int, p.contrast_eighths as nat);
        lemma_pow_base_monotone(lower as int, upper as int, 8);
        let x = pow(lower as int, 8);
        let y = pow(upper as int, 8);
        assert(x * scale <= y * scale) by (nonlinear_arith)
            requires
                x <= y,
                0 <= scale,
        ;
    }
}

/// The level that is reached while none above it is, up to `bound`, is the
/// highest level up to `bound`.
proof fn lemma_highest_level_found(f: Ratio, p: ViewParameters, level: nat, bound: nat)
    requires
        level <= bound,
        level_reached(f, p, level),
        forall|k: nat| level < k <= bound ==> !level_reached(f, p, k),
    ensures
        highest_level(f, p, bound) == level,
    decreases bound,
{
    if level < bound {
        lemma_highest_level_found(f, p, level, (bound - 1) as nat);
    }
}

/// The highest level up to `bound` is reached, and no level between it and
/// `bound` is.
proof fn lemma_highest_level_is_highest(f: Ratio, p: ViewParameters, bound: nat)
    ensures
        highest_level(f, p, bound) <= bound,
        level_reached(f, p, highest_level(f, p, bound)),
        forall|k: nat| highest_level(f, p, bound) < k <= bound ==> !level_reached(f, p, k),
    decreases bound,
{
    if !(bound == 0 || level_reached(f, p, bound)) {
        lemma_highest_level_is_highest(f, p, (bound - 1) as nat);
    }
}

/// The grey level is the whole part of `255 * min(1, 2^b * f^c)`: it is at
/// most 255, it is reached together with every level below it, and no
/// level above it up to 255 is reached.
pub proof fn lemma_intensity_is_floor(f: Ratio, p: ViewParameters)
    ensures
        intensity(f, p) <= 255,
        forall|k: nat| k <= intensity(f, p) ==> level_reached(f, p, k),
        forall|k: nat| intensity(f, p) < k <= 255 ==> !level_reached(f, p, k),
{
    lemma_highest_level_is_highest(f, p, 255);
    assert forall|k: nat| k <= intensity(f, p) implies level_reached(f, p, k) by {
        lemma_level_reached_below(f, p, k, intensity(f, p));
    }
}

/// A frequency of zero is black, whatever the brightness and the contrast.
pub proof fn lemma_zero_is_black(f: Ratio, p: ViewParameters)
    requires
        f.numer == 0,
    ensures
        intensity(f, p) == 0,
{
    lemma_highest_level_found(f, p, 0, 255);
}

/// A frequency of one is white, whatever the brightness and the contrast.
pub proof fn lemma_one_is_white(f: Ratio, p: ViewParameters)
    requires
        f.is_one(),
    ensures
        intensity(f, p) == 255,
{
    let c = p.contrast_eighths as nat;
    let full = pow(f.denom as int, c);
    let gain = pow(16, p.brightness_halves as nat);
    let top = pow(255, 8);
    lemma_pow_positive(f.denom as int, c);
    lemma_pow_positive(16, p.brightness_halves as nat);
    lemma_pow_positive(255, 8);
    assert(top * full <= top * gain * full) by (nonlinear_arith)
        requires
            1 <= gain,
            0 < top,
            0 < full,
    ;
}

/// With contrast zero every frequency above zero is white.
pub proof fn lemma_no_contrast_is_white(f: Ratio, p: ViewParameters)
    requires
        f.numer > 0,
        p.contrast_eighths == 0,
    ensures
        intensity(f, p) == 255,
{
    let gain = pow(16, p.brightness_halves as nat);
    let top = pow(255, 8);
    lemma_pow0(f.denom as int);
    lemma_pow0(f.numer as int);
    lemma_pow_positive(16, p.brightness_halves as nat);
    lemma_pow_positive(255, 8);
    assert(top * 1 <= top * gain * 1) by (nonlinear_arith)
        requires
            1 <= gain,
            0 < top,
    ;
}

/// A power with a positive exponent grows when its base grows.
proof fn lemma_pow_base_strictly_monotone(a: int, b: int, e: nat)
    requires
        0 <= a < b,
        e >= 1,
    ensures
        pow(a, e) < pow(b, e),
    decreases e,
{
    reveal(pow);
    let x = pow(a, (e - 1) as nat);
    let y = pow(b, (e - 1) as nat);
    if e == 1 {
        lemma_pow0(a);
        lemma_pow0(b);
    } else {
        lemma_pow_base_strictly_monotone(a, b, (e - 1) as nat);
    }
    lemma_pow_base_monotone(a, b, (e - 1) as nat);
    lemma_pow_positive(b, (e - 1) as nat);
    assert(a * x < b * y) by (nonlinear_arith)
        requires
            0 <= a < b,
            0 <= x <= y,
            0 < y,
    ;
}

/// At the default parameters the curve is the straight line from black to
/// white: the grey level is the whole part of 255 times the frequency.
pub proof fn lemma_default_is_linear(f: Ratio)
    requires
        f.in_unit_interval(),
    ensures
        intensity(f, ViewParameters::initial()) == (255 * f.numer) / f.denom,
{
    let p = ViewParameters::initial();
    let n = f.numer as int;
    let m = f.denom as int;
    let level = (255 * n) / m;
    assert(0 <= level <= 255 && level * m <= 255 * n < (level + 1) * m) by (nonlinear_arith)
        requires
            level == (255 * n) / m,
            0 <= n <= m,
            1 <= m,
    ;
    lemma_pow0(16);
    assert forall|k: nat|
        #![auto]
        k >= 1 implies (level_reached(f, p, k) <==> k * m <= 255 * n) by {
        lemma_pow_distributes(k as int, m, 8);
        lemma_pow_distributes(255, n, 8);
        let demand = pow(k as int, 8) * pow(m, 8);
        let supplied = pow(255, 8) * pow(n, 8);
        assert(pow(255, 8) * 1 * pow(n, 8) == supplied);
        assert(0 <= k * m) by (nonlinear_arith)
            requires
                0 <= k,
                0 <= m,
        ;
        if k * m <= 255 * n {
            lemma_pow_base_monotone(k * m, 255 * n, 8);
            assert(n > 0) by (nonlinear_arith)
                requires
                    k >= 1,
                    m >= 1,
                    k * m <= 255 * n,
            ;
        } else {
            lemma_pow_base_strictly_monotone(255 * n, k * m, 8);
        }
    }
    if level >= 1 {
        assert(level_reached(f, p, level as nat));
    }
    assert forall|k: nat| level < k <= 255 implies !level_reached(f, p, k) by {
        assert((level + 1) * m <= k * m) by (nonlinear_arith)
            requires
                level + 1 <= k,
                0 <= m,
        ;
    }
    lemma_highest_level_found(f, p, level as nat, 255);
}

/// The product of `start` and `base` to the power `exponent`.
fn times_power(start: Natural, base: u64, exponent: u64) -> (r: Natural)
    ensures
        r@ == start@ * pow(base as int, exponent as nat),
{
    let ghost origin: int = start@ as int;
    let mut acc = start;
    let mut done: u64 = 0;
    proof {
        lemma_pow0(base as int);
    }
    while done < exponent
        invariant
            done <= exponent,
            acc@ == origin * pow(base as int, done as nat),
        decreases exponent - done,
    {
        proof {
            lemma_pow_next(origin, base as int, done as nat);
        }
        acc = acc.mul_small(base);
        done += 1;
    }
    acc
}

/// The eighth power of a grey level.
fn eighth_power(k: u8) -> (r: u64)
    ensures
        r == pow(k as int, 8),
{
    let k1: u64 = k as u64;
    assert(k1 * k1 <= 65025) by (nonlinear_arith)
        requires
            k1 <= 255,
    ;
    let k2: u64 = k1 * k1;
    assert(k2 * k2 <= 4228250625) by (nonlinear_arith)
        requires
            k2 <= 65025,
    ;
    let k4: u64 = k2 * k2;
    assert(k4 * k4 <= 17878103347812890625) by (nonlinear_arith)
        requires
            k4 <= 4228250625,
    ;
    proof {
        lemma_eighth_power(k as int);
    }
    k4 * k4
}

/// The grey level of frequency `f` under parameters `p`.
///
/// The level is the whole part of `255 * min(1, 2^b * f^c)` for brightness
/// `b` and contrast `c`, computed without rounding; a frequency of zero
/// gives zero for every contrast, zero included.
pub fn tone_map(f: Frequency, p: &ViewParameters) -> (level: u8)
    ensures
        level == intensity(f@, *p),
{
    let numerator = f.numerator();
    let denominator = f.denominator();
    if numerator == 0 {
        proof {
            lemma_zero_is_black(f@, *p);
        }
        return 0;
    }
    let unit_demand = times_power(Natural::from_u64(1), denominator, p.contrast_eighths);
    let gained = times_power(Natural::from_u64(eighth_power(WHITE)), 16, p.brightness_halves);
    let supplied = times_power(gained, numerator, p.contrast_eighths);
    let mut low: u8 = 0;
    let mut high: u16 = 256;
    while high - low as u16 > 1
        invariant
            low < high <= 256,
            f@.numer > 0,
            unit_demand@ == pow(f@.denom as int, p.contrast_eighths as nat),
            supplied@ == supply(f@, *p),
            level_reached(f@, *p, low as nat),
            forall|k: nat| high <= k <= 255 ==> !level_reached(f@, *p, k),
        decreases high - low,
    {
        let middle: u16 = (low as u16 + high) / 2;
        let demand = unit_demand.mul_small(eighth_power(middle as u8));
        proof {
            let x = pow(middle as int, 8);
            let y = pow(f@.denom as int, p.contrast_eighths as nat);
            assert(y * x == x * y) by (nonlinear_arith);
            assert(demand@ == level_demand(f@, *p, middle as nat));
        }
        if demand.le(&supplied) {
            low = middle as u8;
        } else {
            proof {
                assert forall|k: nat| middle <= k <= 255 implies !level_reached(f@, *p, k) by {
                    if level_reached(f@, *p, k) {
                        lemma_level_reached_below(f@, *p, middle as nat, k);
                    }
                }
            }
            high = middle;
        }
    }
    proof {
        lemma_highest_level_found(f@, *p, low as nat, 255);
    }
    low
}

} // verus!
