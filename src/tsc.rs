//! Calibration of a tick counter against wall-clock time, and conversion of
//! tick counts into nanoseconds, microseconds and milliseconds.

use vstd::prelude::*;

verus! {

/// A timestamp, or a count of ticks.
pub type T = u64;

/// Nanoseconds in one second.
pub const NANOS_PER_SEC: u64 = 1_000_000_000;

/// `10^n`.
pub open spec fn pow10(n: nat) -> nat
    decreases n,
{
    if n == 0 {
        1
    } else {
        10 * pow10((n - 1) as nat)
    }
}

/// The number of decimal digits of `x` (zero has none).
pub open spec fn num_digits(x: nat) -> nat
    decreases x,
{
    if x == 0 {
        0
    } else {
        1 + num_digits(x / 10)
    }
}

/// `x` rounded to its top `sigdigs` significant decimal digits, halves
/// rounded away from zero. With `unit = 10^(floor(log10 x) - (sigdigs - 1))`
/// this is `round(x / unit) * unit`; where `unit <= 1` it is `x` itself.
pub open spec fn round_sig(x: nat, sigdigs: nat) -> nat {
    if num_digits(x) <= sigdigs {
        x
    } else {
        let unit = pow10((num_digits(x) - sigdigs) as nat);
        ((x + unit / 2) / unit) * unit
    }
}

/// `round_sig` clamped to the range of `u64`.
pub open spec fn round_sig_u64(x: u64, sigdigs: u32) -> u64 {
    let r = round_sig(x as nat, sigdigs as nat);
    if r > u64::MAX {
        u64::MAX
    } else {
        r as u64
    }
}

/// The raw ticks-per-second estimate from `dc` ticks seen over `dt` nanoseconds.
pub open spec fn raw_tps(dc: u64, dt: u64) -> nat
    recommends
        dt > 0,
{
    (NANOS_PER_SEC * dc) as nat / dt as nat
}

/// The calibration constant: the raw estimate kept to two significant digits.
pub open spec fn tps_of(dc: u64, dt: u64) -> u64
    recommends
        dt > 0,
        raw_tps(dc, dt) <= u64::MAX,
{
    round_sig_u64(raw_tps(dc, dt) as u64, 2)
}

/// `dt` ticks in nanoseconds, at `tps` ticks per second.
pub open spec fn ns_of(dt: u64, tps: u64) -> nat
    recommends
        tps > 0,
{
    (dt * NANOS_PER_SEC) as nat / tps as nat
}

/// `dt` ticks in microseconds.
pub open spec fn us_of(dt: u64, tps: u64) -> nat
    recommends
        tps > 0,
{
    ns_of(dt, tps) / 1000
}

/// `dt` ticks in milliseconds.
pub open spec fn ms_of(dt: u64, tps: u64) -> nat
    recommends
        tps > 0,
{
    us_of(dt, tps) / 1000
}

proof fn lemma_pow10_positive(n: nat)
    ensures
        pow10(n) >= 1,
    decreases n,
{
    if n > 0 {
        lemma_pow10_positive((n - 1) as nat);
    }
}

proof fn lemma_pow10_mono(a: nat, b: nat)
    requires
        a <= b,
    ensures
        pow10(a) <= pow10(b),
    decreases b,
{
    if a < b {
        lemma_pow10_mono(a, (b - 1) as nat);
        lemma_pow10_positive((b - 1) as nat);
    }
}

/// A positive `x` has `10^(num_digits(x) - 1) <= x`.
proof fn lemma_num_digits_lower(x: nat)
    requires
        x > 0,
    ensures
        num_digits(x) >= 1,
        pow10((num_digits(x) - 1) as nat) <= x,
    decreases x,
{
    if x >= 10 {
        lemma_num_digits_lower(x / 10);
        assert(pow10((num_digits(x) - 1) as nat) == 10 * pow10((num_digits(x / 10) - 1) as nat));
    } else {
        assert(num_digits(x / 10) == 0);
    }
}

/// A value below `10^n` has at most `n` digits.
proof fn lemma_num_digits_upper(x: nat, n: nat)
    requires
        x < pow10(n),
    ensures
        num_digits(x) <= n,
    decreases n,
{
    if x > 0 {
        assert(n > 0);
        lemma_num_digits_upper(x / 10, (n - 1) as nat);
    }
}

/// Rounds `x` to its top `sigdigs` significant decimal digits, halves away
/// from zero; a result beyond `u64::MAX` is clamped to it.
pub fn round_keeping_top_sigdigs(x: u64, sigdigs: u32) -> (r: u64)
    ensures
        r == round_sig_u64(x, sigdigs),
{
    // Count the digits of `x`.
    let mut y: u64 = x;
    let mut digits: u32 = 0;
    proof {
        reveal_with_fuel(pow10, 21);
        lemma_num_digits_upper(x as nat, 20);
    }
    while y > 0
        invariant
            num_digits(x as nat) == digits + num_digits(y as nat),
            digits <= 20 - num_digits(y as nat),
            num_digits(y as nat) <= 20,
        decreases y,
    {
        assert(num_digits(y as nat) == 1 + num_digits((y / 10) as nat));
        y = y / 10;
        digits = digits + 1;
    }
    if digits <= sigdigs {
        return x;
    }
    proof {
        lemma_num_digits_lower(x as nat);
        lemma_pow10_mono((digits - sigdigs) as nat, digits as nat);
        assert(pow10(digits as nat) == 10 * pow10((digits - 1) as nat));
    }
    // unit = 10^(digits - sigdigs), at most 10 * x.
    let e: u32 = digits - sigdigs;
    let mut unit: u128 = 1;
    let mut i: u32 = 0;
    while i < e
        invariant
            i <= e,
            e == digits - sigdigs,
            unit == pow10(i as nat),
            pow10(e as nat) <= 10 * (x as nat),
        decreases e - i,
    {
        proof {
            lemma_pow10_mono((i + 1) as nat, e as nat);
        }
        unit = unit * 10;
        i = i + 1;
    }
    let half: u128 = unit / 2;
    let q: u128 = (x as u128 + half) / unit;
    proof {
        lemma_pow10_positive(e as nat);
        let n: int = x as int + half as int;
        let u: int = unit as int;
        assert((n / u) * u <= n) by (nonlinear_arith)
            requires
                u > 0,
                n >= 0,
        ;
    }
    let r: u128 = q * unit;
    if r > u64::MAX as u128 {
        u64::MAX
    } else {
        r as u64
    }
}

/// Estimates ticks per second from `dc` ticks counted over `dt` nanoseconds,
/// kept to two significant digits so that repeated calibrations agree.
pub fn calc_tps(dc: u64, dt: u64) -> (r: u64)
    requires
        dt > 0,
        raw_tps(dc, dt) <= u64::MAX,
    ensures
        r == tps_of(dc, dt),
{
    let wide: u128 = (NANOS_PER_SEC as u128) * (dc as u128) / (dt as u128);
    round_keeping_top_sigdigs(wide as u64, 2)
}

/// The calibration constant from two readings of the wall clock (`t0`, `t1`,
/// in nanoseconds) and of the tick counter (`c0`, `c1`) taken around a pause.
/// `None` where the clock did not advance, the counter went backwards, or the
/// estimate does not fit in `u64`: the readings are then not usable.
pub fn tps_from_samples(t0: u64, c0: T, t1: u64, c1: T) -> (r: Option<u64>)
    ensures
        r is Some <==> t0 < t1 && c0 <= c1 && raw_tps((c1 - c0) as u64, (t1 - t0) as u64)
            <= u64::MAX,
        r is Some ==> r->0 == tps_of((c1 - c0) as u64, (t1 - t0) as u64),
{
    if t1 <= t0 || c1 < c0 {
        return None;
    }
    let dc: u64 = c1 - c0;
    let dt: u64 = t1 - t0;
    assert((NANOS_PER_SEC as u128) * (dc as u128) <= 1_000_000_000u128 * 0xffff_ffff_ffff_ffffu128)
        by (nonlinear_arith)
        requires
            dc <= 0xffff_ffff_ffff_ffffu64,
    ;
    let wide: u128 = (NANOS_PER_SEC as u128) * (dc as u128) / (dt as u128);
    if wide > u64::MAX as u128 {
        None
    } else {
        Some(calc_tps(dc, dt))
    }
}

/// Converts `dt` ticks into nanoseconds at `tps` ticks per second.
pub fn to_ns(dt: T, tps: T) -> (r: u64)
    requires
        tps > 0,
        ns_of(dt, tps) <= u64::MAX,
    ensures
        r == ns_of(dt, tps),
{
    ((dt as u128) * (NANOS_PER_SEC as u128) / (tps as u128)) as u64
}

/// Converts `dt` ticks into microseconds at `tps` ticks per second.
pub fn to_us(dt: T, tps: T) -> (r: u64)
    requires
        tps > 0,
        ns_of(dt, tps) <= u64::MAX,
    ensures
        r == us_of(dt, tps),
{
    to_ns(dt, tps) / 1000
}

/// Converts `dt` ticks into milliseconds at `tps` ticks per second.
pub fn to_ms(dt: T, tps: T) -> (r: u64)
    requires
        tps > 0,
        ns_of(dt, tps) <= u64::MAX,
    ensures
        r == ms_of(dt, tps),
{
    to_us(dt, tps) / 1000
}

/// Milliseconds are exactly microseconds divided by a thousand, on every
/// input that the conversions accept.
pub proof fn lemma_ms_is_us_div_1000(dt: T, tps: T)
    requires
        tps > 0,
        ns_of(dt, tps) <= u64::MAX,
    ensures
        ms_of(dt, tps) == us_of(dt, tps) / 1000,
        us_of(dt, tps) == ns_of(dt, tps) / 1000,
{
}

/// At a rate of `NANOS_PER_SEC` ticks per second a tick is a nanosecond.
pub proof fn lemma_ns_rate_is_identity(dt: T)
    ensures
        ns_of(dt, NANOS_PER_SEC) == dt,
{
    assert((dt * NANOS_PER_SEC) as nat / NANOS_PER_SEC as nat == dt) by (nonlinear_arith);
}

} // verus!
