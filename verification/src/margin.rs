//! Policy margins: how far evidence that is not current is widened before it is graded.

use crate::binary64::Binary64;
use crate::provider::MemoryBackend;
use vstd::prelude::*;

verus! {

/// The relative margins of every backend family: one for measurements taken under another compile
/// closure, and one for synthesized estimates.
#[derive(Clone, Copy, Debug, PartialEq, Eq, Structural)]
pub struct MarginPolicy {
    pub candle_stale_measured: Binary64,
    pub mlx_stale_measured: Binary64,
    pub candle_estimate: Binary64,
    pub mlx_estimate: Binary64,
}

impl MarginPolicy {
    pub open spec fn stale_measured(self, backend: MemoryBackend) -> Binary64 {
        match backend {
            MemoryBackend::Candle => self.candle_stale_measured,
            MemoryBackend::Mlx => self.mlx_stale_measured,
        }
    }

    pub open spec fn estimate(self, backend: MemoryBackend) -> Binary64 {
        match backend {
            MemoryBackend::Candle => self.candle_estimate,
            MemoryBackend::Mlx => self.mlx_estimate,
        }
    }
}

/// The exact magnitude of `1 + margin`, and zero where that is below zero.
pub open spec fn exact_factor(margin: Binary64) -> nat {
    if margin.below_zero() {
        crate::binary64::difference_or_zero(crate::binary64::unit_magnitude(), margin.magnitude())
    } else {
        crate::binary64::unit_magnitude() + margin.magnitude()
    }
}

/// The exact product `peak * (1 + margin)` rounded up to a whole byte, not below zero and limited to
/// the largest count. A margin that is no number leaves nothing; one beyond all numbers leaves no
/// peak but zero in range.
pub open spec fn widened(peak: u64, margin: Binary64) -> nat {
    if margin.finite() {
        crate::binary64::whole_units(peak as nat * exact_factor(margin))
    } else if margin.bits == crate::binary64::INFINITY_BITS && peak > 0 {
        u64::MAX as nat
    } else {
        0
    }
}

/// The stale-measured margin of one backend.
pub fn stale_measured_margin(policy: &MarginPolicy, backend: MemoryBackend) -> (result: Binary64)
    ensures
        result == policy.stale_measured(backend),
{
    match backend {
        MemoryBackend::Candle => policy.candle_stale_measured,
        MemoryBackend::Mlx => policy.mlx_stale_measured,
    }
}

/// The estimate margin of one backend.
pub fn estimate_margin(policy: &MarginPolicy, backend: MemoryBackend) -> (result: Binary64)
    ensures
        result == policy.estimate(backend),
{
    match backend {
        MemoryBackend::Candle => policy.candle_estimate,
        MemoryBackend::Mlx => policy.mlx_estimate,
    }
}

/// Adding whole units before rounding up is adding them afterwards.
proof fn lemma_units_and_more(whole: nat, more: nat)
    ensures
        crate::binary64::quotient_rounded_up(
            whole * crate::binary64::unit_magnitude() + more,
            crate::binary64::unit_magnitude(),
        ) == whole + crate::binary64::quotient_rounded_up(more, crate::binary64::unit_magnitude()),
{
    let unit = crate::binary64::unit_magnitude();
    crate::binary64::lemma_unit_positive();
    crate::binary64::lemma_division(more, unit);
    let q = more / unit;
    let r = more % unit;
    assert(whole * unit + (q * unit + r) == (whole + q) * unit + r) by (nonlinear_arith);
    crate::binary64::lemma_quotient(whole * unit + more, unit, whole + q, r);
}

/// Taking an amount out of whole units and rounding up is taking out what of it is whole.
proof fn lemma_units_and_less(whole: nat, less: nat)
    requires
        less <= whole * crate::binary64::unit_magnitude(),
    ensures
        less / crate::binary64::unit_magnitude() <= whole,
        crate::binary64::quotient_rounded_up(
            (whole * crate::binary64::unit_magnitude() - less) as nat,
            crate::binary64::unit_magnitude(),
        ) == whole - less / crate::binary64::unit_magnitude(),
{
    let unit = crate::binary64::unit_magnitude();
    crate::binary64::lemma_unit_positive();
    crate::binary64::lemma_division(less, unit);
    let q = less / unit;
    let r = less % unit;
    let left = (whole * unit - less) as nat;
    assert(q <= whole) by (nonlinear_arith)
        requires
            q * unit <= whole * unit,
            unit > 0,
    ;
    let d = (whole - q) as nat;
    assert(whole * unit - q * unit == d * unit) by (nonlinear_arith)
        requires
            d == whole - q,
    ;
    if r == 0 {
        crate::binary64::lemma_quotient(left, unit, d, 0);
    } else {
        assert(d >= 1) by (nonlinear_arith)
            requires
                d * unit >= r,
                r > 0,
                unit > 0,
        ;
        assert(d * unit == (d - 1) * unit + unit) by (nonlinear_arith);
        crate::binary64::lemma_quotient(left, unit, (d - 1) as nat, (unit - r) as nat);
    }
}

/// Widens a byte ceiling by a margin, in whole bytes and rounded up, so that the result is never
/// under the exact `peak * (1 + margin)` where that is in range.
pub fn widened_peak_bytes(peak_bytes: u64, margin: Binary64) -> (result: u64)
    ensures
        result == widened(peak_bytes, margin),
{
    if !margin.is_finite() {
        return if margin.to_bits() == crate::binary64::INFINITY_BITS && peak_bytes > 0 {
            u64::MAX
        } else {
            0
        };
    }
    let ghost unit = crate::binary64::unit_magnitude();
    let ghost p = peak_bytes as nat;
    let ghost m = margin.magnitude();
    if margin.is_below_zero() {
        let less: u64 = margin.times_rounded_down(peak_bytes);
        proof {
            crate::binary64::lemma_unit_positive();
            lemma_narrowing(peak_bytes, margin);
        }
        if less < peak_bytes {
            peak_bytes - less
        } else {
            0
        }
    } else {
        let more: u64 = margin.times_rounded_up(peak_bytes);
        proof {
            assert(p * (unit + m) == p * unit + p * m) by (nonlinear_arith);
            lemma_units_and_more(p, p * m);
        }
        if more <= u64::MAX - peak_bytes {
            peak_bytes + more
        } else {
            u64::MAX
        }
    }
}

/// A margin below zero takes out the whole bytes of its share, and at most everything.
proof fn lemma_narrowing(peak: u64, margin: Binary64)
    requires
        margin.finite(),
        margin.below_zero(),
    ensures
        ({
            let less = (peak as nat * margin.magnitude()) / crate::binary64::unit_magnitude();
            widened(peak, margin) == if less < peak {
                (peak - less) as nat
            } else {
                0
            }
        }),
{
    let unit = crate::binary64::unit_magnitude();
    let p = peak as nat;
    let m = margin.magnitude();
    crate::binary64::lemma_unit_positive();
    if m <= unit {
        assert(p * (unit - m) == p * unit - p * m) by (nonlinear_arith);
        assert(p * m <= p * unit) by (nonlinear_arith)
            requires
                m <= unit,
        ;
        lemma_units_and_less(p, p * m);
    } else {
        assert(p * m >= p * unit) by (nonlinear_arith)
            requires
                m >= unit,
        ;
        crate::binary64::lemma_division(p * m, unit);
        let q = (p * m) / unit;
        assert(q >= p) by (nonlinear_arith)
            requires
                q * unit + unit > p * unit,
                unit > 0,
        ;
        assert(p * 0 == 0);
        assert(0 * unit == 0);
        crate::binary64::lemma_quotient(0, unit, 0, 0);
    }
}

/// The ceiling at which a stale-closure measurement of `backend` is graded.
pub fn stale_widened_peak_bytes(
    policy: &MarginPolicy,
    backend: MemoryBackend,
    peak_bytes: u64,
) -> (result: u64)
    ensures
        result == widened(peak_bytes, policy.stale_measured(backend)),
{
    widened_peak_bytes(peak_bytes, stale_measured_margin(policy, backend))
}

/// The widened ceiling is the least whole number of bytes that is not under the exact product
/// `peak * (1 + margin)`, except where the largest count cuts it off.
pub proof fn law_widening_covers_the_exact_product(peak: u64, margin: Binary64)
    requires
        margin.finite(),
    ensures
        ({
            let unit = crate::binary64::unit_magnitude();
            let product = peak as nat * exact_factor(margin);
            let bytes = widened(peak, margin);
            &&& product <= u64::MAX * unit ==> product <= bytes * unit
            &&& product > u64::MAX * unit ==> bytes == u64::MAX
            &&& bytes > 0 ==> (bytes - 1) * unit < product
        }),
{
    let unit = crate::binary64::unit_magnitude();
    let x = peak as nat * exact_factor(margin);
    let q = x / unit;
    crate::binary64::lemma_unit_positive();
    crate::binary64::lemma_division(x, unit);
    assert((q + 1) * unit == q * unit + unit) by (nonlinear_arith);
    assert((q - 1) * unit == q * unit - unit) by (nonlinear_arith);
    let bytes = widened(peak, margin);
    let full = crate::binary64::quotient_rounded_up(x, unit);
    assert(x <= full * unit);
    if bytes > 0 {
        assert((bytes - 1) * unit <= (full - 1) * unit) by (nonlinear_arith)
            requires
                bytes <= full,
        ;
    }
    if x <= u64::MAX * unit && full > u64::MAX {
        assert((full - 1) * unit >= u64::MAX * unit) by (nonlinear_arith)
            requires
                full - 1 >= u64::MAX,
        ;
    }
    if x > u64::MAX * unit && full <= u64::MAX {
        assert(full * unit <= u64::MAX * unit) by (nonlinear_arith)
            requires
                full <= u64::MAX,
        ;
    }
}

/// A larger peak, or a wider margin, is never graded lower.
pub proof fn law_widening_is_monotone(low: u64, high: u64, narrow: Binary64, wide: Binary64)
    requires
        low <= high,
        narrow.finite(),
        wide.finite(),
        exact_factor(narrow) <= exact_factor(wide),
    ensures
        widened(low, narrow) <= widened(high, wide),
{
    let unit = crate::binary64::unit_magnitude();
    let f = exact_factor(narrow);
    let g = exact_factor(wide);
    let x = low as nat * f;
    let y = high as nat * g;
    assert(low as nat * f <= high as nat * g) by (nonlinear_arith)
        requires
            low <= high,
            f <= g,
    ;
    crate::binary64::lemma_unit_positive();
    crate::binary64::lemma_division(x, unit);
    crate::binary64::lemma_division(y, unit);
    let a = x / unit;
    let b = y / unit;
    if a > b {
        assert((b + 1) * unit <= a * unit) by (nonlinear_arith)
            requires
                b + 1 <= a,
        ;
        assert((b + 1) * unit == b * unit + unit) by (nonlinear_arith);
    }
}

/// A margin that is not below zero never narrows a peak, and a margin of zero leaves it as it is.
pub proof fn law_widening_never_narrows(peak: u64, margin: Binary64)
    requires
        margin.finite(),
        !margin.below_zero(),
    ensures
        widened(peak, margin) >= peak,
        margin.magnitude() == 0 ==> widened(peak, margin) == peak,
{
    let unit = crate::binary64::unit_magnitude();
    let p = peak as nat;
    let m = margin.magnitude();
    assert(p * (unit + m) == p * unit + p * m) by (nonlinear_arith);
    lemma_units_and_more(p, p * m);
    if m == 0 {
        crate::binary64::lemma_unit_positive();
        assert(p * 0 == 0);
        assert(0 * unit == 0);
        crate::binary64::lemma_quotient(0, unit, 0, 0);
    }
}

/// The widened ceiling brackets the exact product `peak * (1 + margin)`, counted in steps of
/// `2^-1074`: it is the least whole number of bytes that is not under it. A margin below `-1` leaves
/// nothing.
pub proof fn law_widened_ceiling_brackets_the_product(peak: u64, margin: Binary64)
    requires
        margin.finite(),
    ensures
        ({
            let unit = crate::binary64::two_to(1074) as int;
            let share = if margin.bits < 0x8000_0000_0000_0000 {
                margin.magnitude() as int
            } else {
                -(margin.magnitude() as int)
            };
            let bytes = widened(peak, margin);
            &&& bytes <= u64::MAX
            &&& unit + share <= 0 ==> bytes == 0
            &&& bytes < u64::MAX ==> peak * (unit + share) <= bytes * unit
            &&& bytes > 0 ==> (bytes - 1) * unit < peak * (unit + share)
        }),
{
    law_widening_covers_the_exact_product(peak, margin);
    let unit = crate::binary64::unit_magnitude();
    crate::binary64::lemma_unit_positive();
    let p = peak as nat;
    if exact_factor(margin) == 0 {
        assert(p * 0 == 0);
        let m = margin.magnitude();
        assert(p * (unit - m) <= 0) by (nonlinear_arith)
            requires
                unit <= m,
                p >= 0,
        ;
        let bytes = widened(peak, margin);
        if bytes > 0 {
            assert((bytes - 1) * unit >= 0) by (nonlinear_arith)
                requires
                    bytes >= 1,
                    unit > 0,
            ;
        }
    }
}

/// A margin without a finite value widens nothing to nothing. Positive infinity puts any other peak out
/// of reach, and what is no number, like negative infinity, leaves nothing.
pub proof fn law_margin_beyond_all_numbers(peak: u64, margin: Binary64)
    requires
        margin.bits % 0x8000_0000_0000_0000 >= 0x7ff0_0000_0000_0000,
    ensures
        widened(peak, margin) == if peak > 0 && margin.bits == 0x7ff0_0000_0000_0000 {
            0xffff_ffff_ffff_ffffnat
        } else {
            0
        },
{
    crate::binary64::law_kinds_are_told_by_the_pattern(margin);
}

/// Each backend family is widened by its own margins.
pub proof fn law_each_backend_has_its_own_margins(policy: MarginPolicy)
    ensures
        policy.stale_measured(MemoryBackend::Candle) == policy.candle_stale_measured,
        policy.stale_measured(MemoryBackend::Mlx) == policy.mlx_stale_measured,
        policy.estimate(MemoryBackend::Candle) == policy.candle_estimate,
        policy.estimate(MemoryBackend::Mlx) == policy.mlx_estimate,
{
}

} // verus!
