//! IEEE 754 binary64 numbers, as bit patterns.
//!
//! Quantities of memory in GiB and margins are carried in this form, in which hosts report live
//! memory. Nothing here computes in floating point: a finite pattern denotes an exact integer count
//! of the format's smallest step, and every operation is carried out on those integers, followed by
//! the format's rounding to the nearest representable value, ties to even.

use vstd::prelude::*;

verus! {

/// `2^52`: the weight of the bit above a fraction field.
pub const HIDDEN_BIT: u64 = 0x10_0000_0000_0000;

/// `2^53`: the first integer that a significand cannot hold.
pub const SIGNIFICAND_LIMIT: u64 = 0x20_0000_0000_0000;

/// `2^63`: the weight of the sign bit.
pub const SIGN_BIT: u64 = 0x8000_0000_0000_0000;

/// The exponent field of infinities and NaNs.
pub const SPECIAL_EXPONENT: u64 = 2047;

/// The pattern of positive infinity.
pub const INFINITY_BITS: u64 = 0x7ff0_0000_0000_0000;

/// The binary exponent of the number one, counted from the smallest step, which is `2^-1074`.
pub const UNIT_EXPONENT: u32 = 1074;

/// The binary exponent of one byte in a quantity of GiB: a byte is `2^-30` GiB.
pub const BYTE_EXPONENT: u32 = 1044;

/// `2^n`.
pub open spec fn two_to(n: nat) -> nat
    decreases n,
{
    if n == 0 {
        1
    } else {
        2 * two_to((n - 1) as nat)
    }
}

/// How many low bits `x` has beyond the 53 that a significand holds.
pub open spec fn excess_bits(x: nat) -> nat
    decreases x,
{
    if x < SIGNIFICAND_LIMIT {
        0
    } else {
        1 + excess_bits(x / 2)
    }
}

/// `x` rounded to 53 significant bits: to the nearest such value, and to the one with an even
/// significand where two are equally near.
pub open spec fn nearest_even(x: nat) -> nat {
    let step = two_to(excess_bits(x));
    let kept = x / step;
    let rest = x % step;
    if 2 * rest < step || (2 * rest == step && kept % 2 == 0) {
        kept * step
    } else {
        (kept + 1) * step
    }
}

/// The first magnitude beyond the finite range.
pub open spec fn overflow_magnitude() -> nat {
    two_to(2098)
}

/// `x / y`, rounded up.
pub open spec fn quotient_rounded_up(x: nat, y: nat) -> nat
    recommends
        y > 0,
{
    if x % y == 0 {
        x / y
    } else {
        x / y + 1
    }
}

/// A binary64 number, as its bit pattern.
#[derive(Clone, Copy, Debug, PartialEq, Eq, Structural)]
pub struct Binary64 {
    pub bits: u64,
}

impl Binary64 {
    pub open spec fn exponent_field(self) -> nat {
        ((self.bits / HIDDEN_BIT) % 2048) as nat
    }

    pub open spec fn fraction_field(self) -> nat {
        (self.bits % HIDDEN_BIT) as nat
    }

    /// The sign bit is set.
    pub open spec fn signed(self) -> bool {
        self.bits >= SIGN_BIT
    }

    /// Neither an infinity nor a NaN.
    pub open spec fn finite(self) -> bool {
        self.exponent_field() < SPECIAL_EXPONENT
    }

    /// The absolute value of a finite pattern, counted in steps of `2^-1074`.
    pub open spec fn magnitude(self) -> nat {
        if self.exponent_field() == 0 {
            self.fraction_field()
        } else {
            (HIDDEN_BIT + self.fraction_field()) as nat * two_to((self.exponent_field() - 1) as nat)
        }
    }

    /// Below zero; the pattern of negative zero is not.
    pub open spec fn below_zero(self) -> bool {
        self.signed() && self.magnitude() > 0
    }

    /// A finite pattern without a sign.
    pub open spec fn plain(self) -> bool {
        self.finite() && !self.signed()
    }

    /// `self` is the binary64 number for the exact magnitude `x`: that magnitude where it is in the
    /// finite range, and positive infinity otherwise.
    pub open spec fn denotes(self, x: nat) -> bool {
        if x < overflow_magnitude() {
            self.plain() && self.magnitude() == x
        } else {
            self.bits == INFINITY_BITS
        }
    }
}

/// A magnitude taken apart: `significand * 2^exponent` steps.
struct Scaled {
    significand: u64,
    exponent: u32,
}

impl Scaled {
    spec fn value(self) -> nat {
        self.significand as nat * two_to(self.exponent as nat)
    }

    /// As taken from a finite pattern.
    spec fn well_formed(self) -> bool {
        &&& self.significand < SIGNIFICAND_LIMIT
        &&& self.exponent <= 2045
        &&& self.exponent > 0 ==> self.significand >= HIDDEN_BIT
    }
}

proof fn lemma_two_to_positive(n: nat)
    ensures
        two_to(n) > 0,
    decreases n,
{
    if n > 0 {
        lemma_two_to_positive((n - 1) as nat);
    }
}

proof fn lemma_unit_step(x: nat)
    ensures
        x * two_to(0) == x,
{
    assert(two_to(0) == 1);
    assert(x * 1 == x);
}

proof fn lemma_two_to_adds(m: nat, n: nat)
    ensures
        two_to(m + n) == two_to(m) * two_to(n),
    decreases m,
{
    if m > 0 {
        lemma_two_to_adds((m - 1) as nat, n);
        let a = two_to((m - 1) as nat);
        let b = two_to(n);
        assert((2 * a) * b == 2 * (a * b)) by (nonlinear_arith);
    } else {
        let b = two_to(n);
        assert(1 * b == b);
    }
}

proof fn lemma_two_to_increases(m: nat, n: nat)
    requires
        m <= n,
    ensures
        two_to(m) <= two_to(n),
    decreases n,
{
    if m < n {
        lemma_two_to_increases(m, (n - 1) as nat);
    }
}

proof fn lemma_two_to_values()
    ensures
        two_to(52) == HIDDEN_BIT,
        two_to(53) == SIGNIFICAND_LIMIT,
        two_to(64) == 0x1_0000_0000_0000_0000,
        two_to(120) == 0x1_00_0000_0000_0000_0000_0000_0000_0000,
{
    reveal_with_fuel(two_to, 65);
    lemma_two_to_adds(64, 56);
}

pub proof fn lemma_quotient(x: nat, d: nat, q: nat, r: nat)
    requires
        d > 0,
        x == q * d + r,
        r < d,
    ensures
        x / d == q,
        x % d == r,
{
    vstd::arithmetic::div_mod::lemma_fundamental_div_mod_converse(
        x as int,
        d as int,
        q as int,
        r as int,
    );
}

pub proof fn lemma_division(x: nat, d: nat)
    requires
        d > 0,
    ensures
        x == (x / d) * d + x % d,
        x % d < d,
{
    vstd::arithmetic::div_mod::lemma_fundamental_div_mod(x as int, d as int);
    assert((x / d) * d == d * (x / d)) by (nonlinear_arith);
    vstd::arithmetic::div_mod::lemma_mod_bound(x as int, d as int);
}

/// A value whose leading bit has weight `2^(52 + k)` has `k` excess bits.
proof fn lemma_excess_bits_at(x: nat, k: nat)
    requires
        HIDDEN_BIT * two_to(k) <= x,
        x < SIGNIFICAND_LIMIT * two_to(k),
    ensures
        excess_bits(x) == k,
    decreases k,
{
    if k > 0 {
        lemma_two_to_positive((k - 1) as nat);
        lemma_excess_bits_at(x / 2, (k - 1) as nat);
    }
}

/// A value with excess bits has its leading bit at the matching weight.
proof fn lemma_excess_bits_range(x: nat)
    ensures
        x < SIGNIFICAND_LIMIT * two_to(excess_bits(x)),
        excess_bits(x) > 0 ==> HIDDEN_BIT * two_to(excess_bits(x)) <= x,
    decreases x,
{
    if x >= SIGNIFICAND_LIMIT {
        lemma_excess_bits_range(x / 2);
        let k = excess_bits(x / 2);
        assert(two_to(excess_bits(x)) == 2 * two_to(k));
        if k == 0 {
            assert(two_to(0) == 1);
        }
    }
}

proof fn lemma_nearest_even_doubles(x: nat)
    ensures
        nearest_even(2 * x) == 2 * nearest_even(x),
{
    assert((2 * x) / 2 == x);
    if 2 * x < SIGNIFICAND_LIMIT {
        lemma_nearest_even_of_short(x);
        lemma_nearest_even_of_short(2 * x);
    } else {
        let step = two_to(excess_bits(x));
        lemma_two_to_positive(excess_bits(x));
        assert(excess_bits(2 * x) == excess_bits(x) + 1);
        assert(two_to(excess_bits(2 * x)) == 2 * step);
        let kept = x / step;
        let rest = x % step;
        lemma_division(x, step);
        assert(2 * x == kept * (2 * step) + 2 * rest) by (nonlinear_arith)
            requires
                x == kept * step + rest,
        ;
        lemma_quotient(2 * x, 2 * step, kept, 2 * rest);
        assert(kept * (2 * step) == 2 * (kept * step)) by (nonlinear_arith);
        assert((kept + 1) * (2 * step) == 2 * ((kept + 1) * step)) by (nonlinear_arith);
    }
}

/// Rounding commutes with a change of unit by a power of two.
proof fn lemma_nearest_even_scales(x: nat, n: nat)
    ensures
        nearest_even(x * two_to(n)) == nearest_even(x) * two_to(n),
    decreases n,
{
    if n > 0 {
        let half = two_to((n - 1) as nat);
        lemma_nearest_even_scales(x, (n - 1) as nat);
        lemma_nearest_even_doubles(x * half);
        assert(x * (2 * half) == 2 * (x * half)) by (nonlinear_arith);
        let y = nearest_even(x);
        assert(y * (2 * half) == 2 * (y * half)) by (nonlinear_arith);
    } else {
        let y = nearest_even(x);
        assert(two_to(0) == 1);
        assert(x * 1 == x);
        assert(y * 1 == y);
    }
}

pub proof fn lemma_nearest_even_of_short(x: nat)
    requires
        x <= SIGNIFICAND_LIMIT,
    ensures
        nearest_even(x) == x,
{
    assert(two_to(0) == 1);
    if x == SIGNIFICAND_LIMIT {
        assert(excess_bits((x / 2) as nat) == 0);
        assert(excess_bits(x) == 1);
        assert(two_to(1) == 2 * two_to(0));
    }
}

/// An addend below an eighth of a step of the larger operand is rounded away.
proof fn lemma_far_operand(m: nat, d: nat, s: nat)
    requires
        HIDDEN_BIT <= m < SIGNIFICAND_LIMIT,
        d >= 2,
        s < two_to((d - 2) as nat),
    ensures
        nearest_even(m * two_to(d) + s) == m * two_to(d),
        s <= m * two_to(d),
        nearest_even((m * two_to(d) - s) as nat) == m * two_to(d),
{
    let step = two_to(d);
    let quarter = two_to((d - 2) as nat);
    lemma_two_to_positive((d - 2) as nat);
    assert(two_to((d - 1) as nat) == 2 * quarter);
    assert(step == 4 * quarter);
    assert(HIDDEN_BIT * step <= m * step) by (nonlinear_arith)
        requires
            HIDDEN_BIT <= m,
    ;
    assert(m * step + step <= SIGNIFICAND_LIMIT * step) by (nonlinear_arith)
        requires
            m + 1 <= SIGNIFICAND_LIMIT,
    ;
    let above = m * step + s;
    lemma_excess_bits_at(above, d);
    lemma_quotient(above, step, m, s);
    if s == 0 {
    } else if m > HIDDEN_BIT {
        let below = (m * step - s) as nat;
        assert((m - 1) * step == m * step - step) by (nonlinear_arith);
        assert(HIDDEN_BIT * step <= (m - 1) * step) by (nonlinear_arith)
            requires
                HIDDEN_BIT <= m - 1,
        ;
        lemma_excess_bits_at(below, d);
        lemma_quotient(below, step, (m - 1) as nat, (step - s) as nat);
    } else {
        let below = (m * step - s) as nat;
        let half = 2 * quarter;
        let top = (SIGNIFICAND_LIMIT - 1) as nat;
        assert(m * step == SIGNIFICAND_LIMIT * half) by (nonlinear_arith)
            requires
                step == 2 * half,
                2 * m == SIGNIFICAND_LIMIT,
        ;
        assert(top * half == SIGNIFICAND_LIMIT * half - half) by (nonlinear_arith)
            requires
                top == SIGNIFICAND_LIMIT - 1,
        ;
        assert(HIDDEN_BIT * half <= top * half) by (nonlinear_arith)
            requires
                HIDDEN_BIT <= top,
        ;
        lemma_excess_bits_at(below, (d - 1) as nat);
        lemma_quotient(below, half, top, (half - s) as nat);
        assert((top + 1) * half == SIGNIFICAND_LIMIT * half);
    }
}

/// A larger pattern without a sign denotes a larger magnitude.
proof fn lemma_patterns_ordered(a: Binary64, b: Binary64)
    requires
        a.plain(),
        b.plain(),
        a.bits < b.bits,
    ensures
        a.magnitude() < b.magnitude(),
{
    let e = a.exponent_field();
    let f = b.exponent_field();
    assert(a.bits == e * HIDDEN_BIT + a.fraction_field());
    assert(b.bits == f * HIDDEN_BIT + b.fraction_field());
    assert(e <= f);
    if e == f {
        if e > 0 {
            let unit = two_to((e - 1) as nat);
            lemma_two_to_positive((e - 1) as nat);
            let x = HIDDEN_BIT + a.fraction_field();
            let y = HIDDEN_BIT + b.fraction_field();
            assert(x * unit < y * unit) by (nonlinear_arith)
                requires
                    x < y,
                    unit > 0,
            ;
        }
    } else {
        let unit = two_to((f - 1) as nat);
        lemma_two_to_positive((f - 1) as nat);
        let y = HIDDEN_BIT + b.fraction_field();
        assert(HIDDEN_BIT * unit <= y * unit) by (nonlinear_arith)
            requires
                HIDDEN_BIT <= y,
        ;
        if e > 0 {
            let low = two_to((e - 1) as nat);
            let x = HIDDEN_BIT + a.fraction_field();
            lemma_two_to_positive((e - 1) as nat);
            lemma_two_to_increases(e, (f - 1) as nat);
            assert(two_to(e) == 2 * low);
            assert(x * low < SIGNIFICAND_LIMIT * low) by (nonlinear_arith)
                requires
                    x < SIGNIFICAND_LIMIT,
                    low > 0,
            ;
        }
    }
}

/// A magnitude has one pattern without a sign.
pub proof fn law_magnitude_fixes_the_pattern(a: Binary64, b: Binary64)
    requires
        a.plain(),
        b.plain(),
        a.magnitude() == b.magnitude(),
    ensures
        a == b,
{
    if a.bits < b.bits {
        lemma_patterns_ordered(a, b);
    } else if b.bits < a.bits {
        lemma_patterns_ordered(b, a);
    }
}

/// Zero has two patterns, with a sign and without.
pub proof fn lemma_zero_patterns(x: Binary64)
    ensures
        x.magnitude() == 0 <==> x.bits % SIGN_BIT == 0,
{
    if x.exponent_field() > 0 {
        let unit = two_to((x.exponent_field() - 1) as nat);
        let significand = HIDDEN_BIT + x.fraction_field();
        lemma_two_to_positive((x.exponent_field() - 1) as nat);
        assert(significand * unit > 0) by (nonlinear_arith)
            requires
                significand > 0,
                unit > 0,
        ;
    }
}

/// `2^n`, in range of the type.
fn power_of_two(n: u32) -> (result: u128)
    requires
        n <= 120,
    ensures
        result == two_to(n as nat),
{
    let mut result: u128 = 1;
    let mut i: u32 = 0;
    while i < n
        invariant
            i <= n <= 120,
            result == two_to(i as nat),
        decreases n - i,
    {
        proof {
            lemma_two_to_increases(i as nat, 120);
            lemma_two_to_values();
        }
        result = result * 2;
        i = i + 1;
    }
    result
}

/// The pattern of `significand * 2^exponent` steps.
fn encode(significand: u64, exponent: u32) -> (result: Binary64)
    requires
        significand <= SIGNIFICAND_LIMIT,
        exponent <= 4000,
    ensures
        result.denotes(significand as nat * two_to(exponent as nat)),
{
    let ghost value = significand as nat * two_to(exponent as nat);
    let mut m: u64 = significand;
    let mut e: u32 = exponent;
    if m == SIGNIFICAND_LIMIT {
        proof {
            let unit = two_to(exponent as nat);
            assert(two_to((exponent + 1) as nat) == 2 * unit);
            assert(HIDDEN_BIT * (2 * unit) == SIGNIFICAND_LIMIT * unit) by (nonlinear_arith)
                requires
                    2 * HIDDEN_BIT == SIGNIFICAND_LIMIT,
            ;
        }
        m = HIDDEN_BIT;
        e = e + 1;
    }
    while m < HIDDEN_BIT && e > 0
        invariant
            m < SIGNIFICAND_LIMIT,
            e <= 4001,
            m as nat * two_to(e as nat) == value,
        decreases e,
    {
        proof {
            let half = two_to((e - 1) as nat);
            let x = m as nat;
            assert(two_to(e as nat) == 2 * half);
            assert((2 * x) * half == x * (2 * half)) by (nonlinear_arith);
        }
        m = m * 2;
        e = e - 1;
    }
    proof {
        lemma_two_to_values();
        lemma_two_to_adds(53, 2045);
        lemma_two_to_adds(52, 2046);
        lemma_two_to_positive(e as nat);
    }
    if m < HIDDEN_BIT {
        proof {
            lemma_unit_step(m as nat);
            lemma_two_to_increases(53, 2098);
        }
        Binary64 { bits: m }
    } else if e <= 2045 {
        let bits: u64 = (e as u64 + 1) * HIDDEN_BIT + (m - HIDDEN_BIT);
        proof {
            lemma_two_to_increases(e as nat, 2045);
            let x = m as nat;
            let unit = two_to(e as nat);
            let top = two_to(2045);
            assert(x * unit < SIGNIFICAND_LIMIT * unit) by (nonlinear_arith)
                requires
                    x < SIGNIFICAND_LIMIT,
                    unit > 0,
            ;
            assert(SIGNIFICAND_LIMIT * unit <= SIGNIFICAND_LIMIT * top) by (nonlinear_arith)
                requires
                    unit <= top,
            ;
        }
        Binary64 { bits }
    } else {
        proof {
            lemma_two_to_increases(2046, e as nat);
            let x = m as nat;
            let unit = two_to(e as nat);
            let top = two_to(2046);
            assert(HIDDEN_BIT * top <= x * unit) by (nonlinear_arith)
                requires
                    HIDDEN_BIT <= x,
                    top <= unit,
            ;
        }
        Binary64 { bits: INFINITY_BITS }
    }
}

/// The pattern nearest to `sum * 2^exponent` steps.
fn rounded(sum: u128, exponent: u32) -> (result: Binary64)
    requires
        exponent <= 2100,
    ensures
        result.denotes(nearest_even(sum as nat * two_to(exponent as nat))),
{
    let mut step: u128 = 1;
    let mut excess: u32 = 0;
    let ghost s = sum as nat;
    assert(s / 1 == s);
    while sum / step >= SIGNIFICAND_LIMIT as u128
        invariant
            s == sum,
            0 < step <= 0x1000_0000_0000_0000_0000,
            excess <= 76,
            step == two_to(excess as nat),
            excess_bits(s) == excess + excess_bits(s / (step as nat)),
        decreases s / (step as nat),
    {
        proof {
            let d = step as nat;
            let q = s / d;
            lemma_division(s, d);
            assert(q * d >= SIGNIFICAND_LIMIT * d) by (nonlinear_arith)
                requires
                    q >= SIGNIFICAND_LIMIT,
            ;
            assert(d <= 0x800_0000_0000_0000_0000);
            vstd::arithmetic::div_mod::lemma_div_denominator(s as int, d as int, 2);
            assert(d * 2 == 2 * d);
            assert(excess_bits(q) == 1 + excess_bits(q / 2));
            if excess >= 76 {
                lemma_two_to_increases(76, excess as nat);
                lemma_two_to_adds(64, 12);
                lemma_two_to_values();
                reveal_with_fuel(two_to, 13);
            }
        }
        step = step * 2;
        excess = excess + 1;
    }
    let kept: u64 = (sum / step) as u64;
    let rest: u128 = sum % step;
    let ghost unit = two_to(exponent as nat);
    proof {
        lemma_nearest_even_scales(s, exponent as nat);
        lemma_two_to_adds(excess as nat, exponent as nat);
        let d = step as nat;
        let a = kept as nat;
        assert(a * (d * unit) == (a * d) * unit) by (nonlinear_arith);
        assert((a + 1) * (d * unit) == ((a + 1) * d) * unit) by (nonlinear_arith);
    }
    if 2 * rest < step || (2 * rest == step && kept % 2 == 0) {
        encode(kept, excess + exponent)
    } else {
        encode(kept + 1, excess + exponent)
    }
}

impl Binary64 {
    /// The number with the given bit pattern.
    pub fn from_bits(bits: u64) -> (result: Self)
        ensures
            result.bits == bits,
    {
        Binary64 { bits }
    }

    /// The bit pattern of the number.
    pub fn to_bits(self) -> (result: u64)
        ensures
            result == self.bits,
    {
        self.bits
    }

    /// Neither an infinity nor a NaN.
    pub fn is_finite(self) -> (result: bool)
        ensures
            result == self.finite(),
    {
        (self.bits / HIDDEN_BIT) % 2048 < SPECIAL_EXPONENT
    }

    /// The magnitude is zero.
    pub fn is_zero(self) -> (result: bool)
        ensures
            result == (self.magnitude() == 0),
    {
        proof {
            lemma_zero_patterns(self);
        }
        self.bits % SIGN_BIT == 0
    }

    /// Below zero; negative zero is not.
    pub fn is_below_zero(self) -> (result: bool)
        ensures
            result == self.below_zero(),
    {
        self.bits >= SIGN_BIT && !self.is_zero()
    }

    fn decode(self) -> (result: Scaled)
        requires
            self.finite(),
        ensures
            result.well_formed(),
            result.value() == self.magnitude(),
    {
        let field: u64 = (self.bits / HIDDEN_BIT) % 2048;
        let fraction: u64 = self.bits % HIDDEN_BIT;
        if field == 0 {
            proof {
                lemma_unit_step(fraction as nat);
            }
            Scaled { significand: fraction, exponent: 0 }
        } else {
            Scaled { significand: HIDDEN_BIT + fraction, exponent: (field - 1) as u32 }
        }
    }
}

/// The magnitude of `a - b`, and zero where `b` is the larger.
pub open spec fn difference_or_zero(a: nat, b: nat) -> nat {
    if a >= b {
        (a - b) as nat
    } else {
        0
    }
}

/// Where the exponents lie more than 64 apart, the smaller operand is rounded away.
proof fn lemma_far_apart(large: Scaled, small: Scaled)
    requires
        large.well_formed(),
        small.well_formed(),
        large.exponent > small.exponent + 64,
    ensures
        nearest_even(large.value() + small.value()) == large.value(),
        small.value() <= large.value(),
        nearest_even((large.value() - small.value()) as nat) == large.value(),
        large.value() < overflow_magnitude(),
{
    let d = (large.exponent - small.exponent) as nat;
    let m = large.significand as nat;
    let s = small.significand as nat;
    let unit = two_to(small.exponent as nat);
    lemma_two_to_values();
    lemma_two_to_increases(53, (d - 2) as nat);
    lemma_far_operand(m, d, s);
    lemma_two_to_adds(d, small.exponent as nat);
    let high = m * two_to(d);
    let t = two_to(d);
    assert(m * (t * unit) == (m * t) * unit) by (nonlinear_arith);
    assert((high + s) * unit == high * unit + s * unit) by (nonlinear_arith);
    assert((high - s) * unit == high * unit - s * unit) by (nonlinear_arith);
    assert(s * unit <= high * unit) by (nonlinear_arith)
        requires
            s <= high,
    ;
    lemma_nearest_even_scales(high + s, small.exponent as nat);
    lemma_nearest_even_scales((high - s) as nat, small.exponent as nat);
    lemma_scaled_in_range(large);
}

proof fn lemma_scaled_in_range(x: Scaled)
    requires
        x.well_formed(),
    ensures
        x.value() < overflow_magnitude(),
{
    lemma_two_to_values();
    lemma_two_to_adds(53, 2045);
    lemma_two_to_increases(x.exponent as nat, 2045);
    lemma_two_to_positive(2045);
    let m = x.significand as nat;
    let unit = two_to(x.exponent as nat);
    let top = two_to(2045);
    assert(m * unit < SIGNIFICAND_LIMIT * top) by (nonlinear_arith)
        requires
            m < SIGNIFICAND_LIMIT,
            unit <= top,
            0 < top,
    ;
}

/// A finite number is in the finite range.
pub proof fn lemma_finite_in_range(x: Binary64)
    requires
        x.finite(),
    ensures
        x.magnitude() < overflow_magnitude(),
{
    if x.exponent_field() == 0 {
        lemma_two_to_values();
        lemma_two_to_increases(53, 2098);
    } else {
        lemma_scaled_in_range(
            Scaled {
                significand: (HIDDEN_BIT + x.fraction_field()) as u64,
                exponent: (x.exponent_field() - 1) as u32,
            },
        );
    }
}

/// A finite number needs no rounding.
pub proof fn lemma_finite_is_exact(x: Binary64)
    requires
        x.finite(),
    ensures
        nearest_even(x.magnitude()) == x.magnitude(),
{
    if x.exponent_field() == 0 {
        lemma_nearest_even_of_short(x.magnitude());
    } else {
        let significand = (HIDDEN_BIT + x.fraction_field()) as nat;
        lemma_nearest_even_of_short(significand);
        lemma_nearest_even_scales(significand, (x.exponent_field() - 1) as nat);
    }
}

/// A rounded magnitude needs no further rounding.
pub proof fn lemma_nearest_even_is_exact(x: nat)
    ensures
        nearest_even(nearest_even(x)) == nearest_even(x),
{
    let k = excess_bits(x);
    let step = two_to(k);
    let kept = x / step;
    lemma_two_to_positive(k);
    lemma_division(x, step);
    lemma_excess_bits_range(x);
    if kept >= SIGNIFICAND_LIMIT {
        assert(kept * step >= SIGNIFICAND_LIMIT * step) by (nonlinear_arith)
            requires
                kept >= SIGNIFICAND_LIMIT,
        ;
    }
    lemma_nearest_even_of_short(kept);
    lemma_nearest_even_scales(kept, k);
    lemma_nearest_even_of_short(kept + 1);
    lemma_nearest_even_scales(kept + 1, k);
}

proof fn lemma_ordered_products(x: nat, y: nat, unit: nat)
    requires
        unit > 0,
    ensures
        x * unit >= y * unit <==> x >= y,
{
    if x >= y {
        assert(x * unit >= y * unit) by (nonlinear_arith)
            requires
                x >= y,
        ;
    } else {
        assert(x * unit < y * unit) by (nonlinear_arith)
            requires
                x < y,
                unit > 0,
        ;
    }
}

proof fn lemma_excess_bits_monotone(x: nat, y: nat)
    requires
        x <= y,
    ensures
        excess_bits(x) <= excess_bits(y),
    decreases y,
{
    if x >= SIGNIFICAND_LIMIT {
        lemma_excess_bits_monotone(x / 2, y / 2);
    }
}

/// Rounding keeps the order of magnitudes.
pub proof fn lemma_nearest_even_monotone(x: nat, y: nat)
    requires
        x <= y,
    ensures
        nearest_even(x) <= nearest_even(y),
{
    lemma_excess_bits_monotone(x, y);
    let k = excess_bits(x);
    let l = excess_bits(y);
    let dx = two_to(k);
    let dy = two_to(l);
    lemma_two_to_positive(k);
    lemma_two_to_positive(l);
    lemma_division(x, dx);
    lemma_division(y, dy);
    lemma_excess_bits_range(x);
    lemma_excess_bits_range(y);
    let qx = x / dx;
    let qy = y / dy;
    assert((qx + 1) * dx == qx * dx + dx) by (nonlinear_arith);
    assert((qy + 1) * dy == qy * dy + dy) by (nonlinear_arith);
    if k == l {
        if qx > qy {
            assert(qx * dx >= (qy + 1) * dy) by (nonlinear_arith)
                requires
                    qx >= qy + 1,
                    dx == dy,
            ;
        } else if qx < qy {
            assert((qx + 1) * dx <= qy * dy) by (nonlinear_arith)
                requires
                    qx + 1 <= qy,
                    dx == dy,
            ;
        }
    } else {
        lemma_two_to_increases(k + 1, l);
        assert(two_to(k + 1) == 2 * dx);
        if qx >= SIGNIFICAND_LIMIT {
            assert(qx * dx >= SIGNIFICAND_LIMIT * dx) by (nonlinear_arith)
                requires
                    qx >= SIGNIFICAND_LIMIT,
            ;
        }
        assert((qx + 1) * dx <= SIGNIFICAND_LIMIT * dx) by (nonlinear_arith)
            requires
                qx + 1 <= SIGNIFICAND_LIMIT,
        ;
        if qy < HIDDEN_BIT {
            assert((qy + 1) * dy <= HIDDEN_BIT * dy) by (nonlinear_arith)
                requires
                    qy + 1 <= HIDDEN_BIT,
            ;
        }
        assert(qy * dy >= HIDDEN_BIT * dy) by (nonlinear_arith)
            requires
                qy >= HIDDEN_BIT,
        ;
        assert(HIDDEN_BIT * dy >= SIGNIFICAND_LIMIT * dx) by (nonlinear_arith)
            requires
                2 * HIDDEN_BIT == SIGNIFICAND_LIMIT,
                dy >= 2 * dx,
        ;
    }
}

/// What does not exceed a finite number stays in the finite range when rounded.
proof fn lemma_nearest_even_in_range(bound: Scaled, x: nat)
    requires
        bound.well_formed(),
        x <= bound.value(),
    ensures
        nearest_even(x) < overflow_magnitude(),
{
    lemma_nearest_even_monotone(x, bound.value());
    lemma_nearest_even_of_short(bound.significand as nat);
    lemma_nearest_even_scales(bound.significand as nat, bound.exponent as nat);
    lemma_scaled_in_range(bound);
}

/// Brings two magnitudes at most 64 binary places apart to the exponent of the smaller.
fn aligned(large: &Scaled, small: &Scaled) -> (result: u128)
    requires
        large.well_formed(),
        small.well_formed(),
        small.exponent <= large.exponent <= small.exponent + 64,
    ensures
        result <= 0x20_0000_0000_0000_0000_0000_0000_0000,
        result as nat * two_to(small.exponent as nat) == large.value(),
{
    let shift: u32 = large.exponent - small.exponent;
    let factor: u128 = power_of_two(shift);
    proof {
        lemma_two_to_adds(shift as nat, small.exponent as nat);
        lemma_two_to_increases(shift as nat, 64);
        lemma_two_to_values();
        let m = large.significand as nat;
        let t = factor as nat;
        let unit = two_to(small.exponent as nat);
        assert(m * t <= SIGNIFICAND_LIMIT * 0x1_0000_0000_0000_0000) by (nonlinear_arith)
            requires
                m <= SIGNIFICAND_LIMIT,
                t <= 0x1_0000_0000_0000_0000,
        ;
        assert(m * (t * unit) == (m * t) * unit) by (nonlinear_arith);
    }
    large.significand as u128 * factor
}

fn sum(large: &Scaled, small: &Scaled) -> (result: Binary64)
    requires
        large.well_formed(),
        small.well_formed(),
        small.exponent <= large.exponent,
    ensures
        result.denotes(nearest_even(large.value() + small.value())),
{
    if large.exponent - small.exponent > 64 {
        proof {
            lemma_far_apart(*large, *small);
        }
        encode(large.significand, large.exponent)
    } else {
        let high: u128 = aligned(large, small);
        proof {
            let unit = two_to(small.exponent as nat);
            let h = high as nat;
            let s = small.significand as nat;
            assert((h + s) * unit == h * unit + s * unit) by (nonlinear_arith);
        }
        rounded(high + small.significand as u128, small.exponent)
    }
}

impl Binary64 {
    /// `self + other` for numbers that are finite and not below zero.
    pub fn plus(self, other: Self) -> (result: Self)
        requires
            self.finite(),
            other.finite(),
            !self.below_zero(),
            !other.below_zero(),
        ensures
            result.denotes(nearest_even(self.magnitude() + other.magnitude())),
    {
        let a = self.decode();
        let b = other.decode();
        if a.exponent > b.exponent {
            sum(&a, &b)
        } else {
            sum(&b, &a)
        }
    }

    /// `self - other` for numbers that are finite and not below zero, with a negative difference
    /// raised to zero.
    pub fn minus_or_zero(self, other: Self) -> (result: Self)
        requires
            self.finite(),
            other.finite(),
            !self.below_zero(),
            !other.below_zero(),
        ensures
            result.plain(),
            result.magnitude() == nearest_even(
                difference_or_zero(self.magnitude(), other.magnitude()),
            ),
    {
        let a = self.decode();
        let b = other.decode();
        proof {
            lemma_scaled_in_range(a);
            lemma_nearest_even_of_short(0);
            lemma_two_to_positive(a.exponent as nat);
            lemma_two_to_positive(b.exponent as nat);
            lemma_two_to_positive(2098);
        }
        if a.exponent > b.exponent {
            if a.exponent - b.exponent > 64 {
                proof {
                    lemma_far_apart(a, b);
                }
                return encode(a.significand, a.exponent);
            }
            let high: u128 = aligned(&a, &b);
            let ghost unit = two_to(b.exponent as nat);
            proof {
                let h = high as nat;
                let s = b.significand as nat;
                assert((h - s) * unit == h * unit - s * unit) by (nonlinear_arith);
                lemma_ordered_products(h, s, unit);
            }
            if high >= b.significand as u128 {
                let result = rounded(high - b.significand as u128, b.exponent);
                proof {
                    lemma_nearest_even_in_range(a, difference_or_zero(a.value(), b.value()));
                }
                result
            } else {
                Binary64 { bits: 0 }
            }
        } else {
            if b.exponent - a.exponent > 64 {
                proof {
                    lemma_far_apart(b, a);
                }
                return Binary64 { bits: 0 };
            }
            let high: u128 = aligned(&b, &a);
            let ghost unit = two_to(a.exponent as nat);
            proof {
                let h = high as nat;
                let s = a.significand as nat;
                assert((s - h) * unit == s * unit - h * unit) by (nonlinear_arith);
                lemma_ordered_products(h, s, unit);
            }
            if a.significand as u128 >= high {
                let result = rounded(a.significand as u128 - high, a.exponent);
                proof {
                    lemma_nearest_even_in_range(a, difference_or_zero(a.value(), b.value()));
                }
                result
            } else {
                Binary64 { bits: 0 }
            }
        }
    }

    /// The lesser of two numbers without a sign, either of which may be infinite.
    pub fn lesser(self, other: Self) -> (result: Self)
        requires
            self.plain() || self.bits == INFINITY_BITS,
            other.plain() || other.bits == INFINITY_BITS,
        ensures
            result == self || result == other,
            self.plain() && other.plain() ==> result.magnitude() <= self.magnitude()
                && result.magnitude() <= other.magnitude(),
            !other.plain() ==> result == self,
            self.plain() || other.plain() ==> result.plain(),
    {
        proof {
            if self.plain() && other.plain() && self.bits < other.bits {
                lemma_patterns_ordered(self, other);
            }
            if self.plain() && other.plain() && other.bits < self.bits {
                lemma_patterns_ordered(other, self);
            }
        }
        if other.bits < self.bits {
            other
        } else {
            self
        }
    }
}

proof fn lemma_quotient_cancels(x: nat, y: nat, unit: nat)
    requires
        y > 0,
        unit > 0,
    ensures
        y * unit > 0,
        (x * unit) / (y * unit) == x / y,
        (x * unit) % (y * unit) == 0 <==> x % y == 0,
{
    lemma_division(x, y);
    let q = x / y;
    let r = x % y;
    assert(y * unit > 0) by (nonlinear_arith)
        requires
            y > 0,
            unit > 0,
    ;
    assert(x * unit == q * (y * unit) + r * unit) by (nonlinear_arith)
        requires
            x == q * y + r,
    ;
    assert(r * unit < y * unit) by (nonlinear_arith)
        requires
            r < y,
            unit > 0,
    ;
    assert(r * unit == 0 <==> r == 0) by (nonlinear_arith)
        requires
            unit > 0,
    ;
    lemma_quotient(x * unit, y * unit, q, r * unit);
}

/// `count`, and no more than the largest count that 64 bits hold.
pub open spec fn capped(count: nat) -> nat {
    if count <= u64::MAX {
        count
    } else {
        u64::MAX as nat
    }
}

/// How many times `2^exponent` steps it takes to reach `magnitude`, and no more than the largest
/// count.
pub open spec fn whole_count(magnitude: nat, exponent: nat) -> nat {
    capped(quotient_rounded_up(magnitude, two_to(exponent)))
}

/// A quantity of GiB as a whole number of bytes, rounded up, and no more than the largest count.
pub open spec fn whole_bytes(magnitude: nat) -> nat {
    whole_count(magnitude, BYTE_EXPONENT as nat)
}

/// The magnitude of the number one.
pub open spec fn unit_magnitude() -> nat {
    two_to(UNIT_EXPONENT as nat)
}

/// A number rounded up to an integer, and no more than the largest count.
pub open spec fn whole_units(magnitude: nat) -> nat {
    capped(quotient_rounded_up(magnitude, unit_magnitude()))
}

/// The magnitude of a byte count as a binary64 number of GiB.
pub open spec fn magnitude_of_bytes(bytes: u64) -> nat {
    nearest_even(bytes as nat * two_to(BYTE_EXPONENT as nat))
}

/// `significand * 2^exponent` divided by `2^unit`: the quotient, no more than the largest count, and
/// whether there is a remainder.
fn divided(significand: u128, exponent: u32, unit: u32) -> (result: (u64, bool))
    requires
        significand < 0x1_00_0000_0000_0000_0000_0000_0000_0000,
    ensures
        result.0 == capped(
            (significand as nat * two_to(exponent as nat)) / two_to(unit as nat),
        ),
        result.1 == ((significand as nat * two_to(exponent as nat)) % two_to(unit as nat) != 0),
{
    let ghost m = significand as nat;
    let ghost step = two_to(unit as nat);
    proof {
        lemma_two_to_values();
        lemma_two_to_positive(unit as nat);
    }
    if exponent >= unit {
        let shift: u32 = exponent - unit;
        let ghost factor = two_to(shift as nat);
        proof {
            lemma_two_to_positive(shift as nat);
            lemma_two_to_adds(shift as nat, unit as nat);
            assert(m * (factor * step) == (m * factor) * step) by (nonlinear_arith);
            lemma_quotient((m * factor) * step, step, m * factor, 0);
        }
        if significand == 0 {
            assert(0 * factor == 0);
            return (0, false);
        }
        if shift > 64 || significand > u64::MAX as u128 {
            proof {
                if shift > 64 {
                    lemma_two_to_increases(64, shift as nat);
                }
                assert(m * factor > u64::MAX) by (nonlinear_arith)
                    requires
                        m >= 1,
                        factor >= 1,
                        m > u64::MAX || factor > u64::MAX,
                ;
            }
            return (u64::MAX, false);
        }
        let power: u128 = power_of_two(shift);
        proof {
            lemma_two_to_increases(shift as nat, 64);
            assert(m * factor <= 0xffff_ffff_ffff_ffff * 0x1_0000_0000_0000_0000)
                by (nonlinear_arith)
                requires
                    m <= 0xffff_ffff_ffff_ffff,
                    factor <= 0x1_0000_0000_0000_0000,
            ;
        }
        let count: u128 = significand * power;
        if count <= u64::MAX as u128 {
            (count as u64, false)
        } else {
            (u64::MAX, false)
        }
    } else {
        let shift: u32 = unit - exponent;
        let ghost divisor = two_to(shift as nat);
        proof {
            lemma_two_to_adds(shift as nat, exponent as nat);
            lemma_two_to_positive(exponent as nat);
            lemma_two_to_positive(shift as nat);
            lemma_quotient_cancels(m, divisor, two_to(exponent as nat));
        }
        if shift > 120 {
            proof {
                lemma_two_to_increases(120, shift as nat);
                assert(0 * divisor == 0);
                lemma_quotient(m, divisor, 0, m);
            }
            (0, significand != 0)
        } else {
            let power: u128 = power_of_two(shift);
            let whole: u128 = significand / power;
            let rest: bool = significand % power != 0;
            if whole <= u64::MAX as u128 {
                (whole as u64, rest)
            } else {
                (u64::MAX, rest)
            }
        }
    }
}

/// How many times `2^unit` steps it takes to reach `significand * 2^exponent`, and no more than the
/// largest count.
fn rounded_up(significand: u128, exponent: u32, unit: u32) -> (result: u64)
    requires
        significand < 0x1_00_0000_0000_0000_0000_0000_0000_0000,
    ensures
        result == whole_count(significand as nat * two_to(exponent as nat), unit as nat),
{
    let (quotient, rest) = divided(significand, exponent, unit);
    if rest && quotient < u64::MAX {
        quotient + 1
    } else {
        quotient
    }
}

impl Binary64 {
    /// The quantity of GiB in bytes, rounded up to a whole byte and limited to the largest count.
    pub fn byte_ceiling(self) -> (result: u64)
        requires
            self.plain(),
        ensures
            result == whole_bytes(self.magnitude()),
    {
        let x = self.decode();
        rounded_up(x.significand as u128, x.exponent, BYTE_EXPONENT)
    }

    /// The significand of the exact product of `count` and the number without its sign, and its
    /// exponent.
    fn product(self, count: u64) -> (result: (u128, u32))
        requires
            self.finite(),
        ensures
            result.0 < 0x1_00_0000_0000_0000_0000_0000_0000_0000,
            result.0 as nat * two_to(result.1 as nat) == count as nat * self.magnitude(),
    {
        let x = self.decode();
        proof {
            let c = count as nat;
            let m = x.significand as nat;
            let unit = two_to(x.exponent as nat);
            assert((c * m) * unit == c * (m * unit)) by (nonlinear_arith);
            assert(c * m <= 0xffff_ffff_ffff_ffff * 0x20_0000_0000_0000) by (nonlinear_arith)
                requires
                    c <= 0xffff_ffff_ffff_ffff,
                    m <= 0x20_0000_0000_0000,
            ;
        }
        (count as u128 * x.significand as u128, x.exponent)
    }

    /// The exact product of `count` and the number without its sign, rounded up to an integer and
    /// limited to the largest count.
    pub fn times_rounded_up(self, count: u64) -> (result: u64)
        requires
            self.finite(),
        ensures
            result == whole_units(count as nat * self.magnitude()),
    {
        let (significand, exponent) = self.product(count);
        rounded_up(significand, exponent, UNIT_EXPONENT)
    }

    /// The exact product of `count` and the number without its sign, rounded down to an integer and
    /// limited to the largest count.
    pub fn times_rounded_down(self, count: u64) -> (result: u64)
        requires
            self.finite(),
        ensures
            result == capped((count as nat * self.magnitude()) / unit_magnitude()),
    {
        let (significand, exponent) = self.product(count);
        divided(significand, exponent, UNIT_EXPONENT).0
    }
}

/// A byte count as a quantity in GiB.
pub fn peak_bytes_to_gb(peak_bytes: u64) -> (result: Binary64)
    ensures
        result.plain(),
        result.magnitude() == magnitude_of_bytes(peak_bytes),
{
    proof {
        lemma_bytes_in_range(peak_bytes);
    }
    rounded(peak_bytes as u128, BYTE_EXPONENT)
}

proof fn lemma_bytes_in_range(bytes: u64)
    ensures
        magnitude_of_bytes(bytes) < overflow_magnitude(),
{
    let byte = two_to(BYTE_EXPONENT as nat);
    let bound = Scaled { significand: HIDDEN_BIT, exponent: 1056 };
    lemma_two_to_values();
    lemma_two_to_adds(12, BYTE_EXPONENT as nat);
    reveal_with_fuel(two_to, 13);
    let b = bytes as nat;
    assert(b * byte <= HIDDEN_BIT * (0x1000 * byte)) by (nonlinear_arith)
        requires
            b <= HIDDEN_BIT * 0x1000,
    ;
    lemma_nearest_even_in_range(bound, b * byte);
}

pub proof fn lemma_unit_positive()
    ensures
        unit_magnitude() > 0,
{
    lemma_two_to_positive(UNIT_EXPONENT as nat);
}

/// Powers of two start at one and double from each to the next.
pub proof fn law_powers_of_two(n: nat)
    ensures
        two_to(0) == 1,
        two_to(n + 1) == two_to(n) + two_to(n),
{
}

/// The kinds of number are told by the size of the pattern: apart from its sign, a finite one is below
/// that of infinity, and a plain one has no sign. A number is below zero where its pattern is beyond
/// that of negative zero.
pub proof fn law_kinds_are_told_by_the_pattern(x: Binary64)
    ensures
        x.finite() <==> x.bits % 0x8000_0000_0000_0000 < 0x7ff0_0000_0000_0000,
        x.plain() <==> x.bits < 0x7ff0_0000_0000_0000,
        x.signed() <==> x.bits >= 0x8000_0000_0000_0000,
        x.below_zero() <==> x.bits > 0x8000_0000_0000_0000,
{
    lemma_zero_patterns(x);
}

/// The patterns up to `2^53` count the smallest steps themselves. From there each binade repeats the one
/// before at twice the magnitude, and the sign changes no magnitude.
pub proof fn law_magnitudes_double_from_binade_to_binade(x: Binary64)
    ensures
        x.bits <= 0x20_0000_0000_0000 ==> x.magnitude() == x.bits,
        0x10_0000_0000_0000 <= x.bits < 0x7fe0_0000_0000_0000 ==> (Binary64 {
            bits: (x.bits + 0x10_0000_0000_0000) as u64,
        }).magnitude() == 2 * x.magnitude(),
        x.bits >= 0x8000_0000_0000_0000 ==> x.magnitude() == (Binary64 {
            bits: (x.bits - 0x8000_0000_0000_0000) as u64,
        }).magnitude(),
{
    assert(two_to(0) == 1);
    assert(two_to(1) == 2 * two_to(0));
    if 0x10_0000_0000_0000 <= x.bits <= 0x20_0000_0000_0000 {
        let significand = (HIDDEN_BIT + x.fraction_field()) as nat;
        if x.bits < 0x20_0000_0000_0000 {
            assert(x.exponent_field() == 1);
            assert(significand * 1 == significand);
        } else {
            assert(x.exponent_field() == 2);
            assert(significand * 2 == 2 * significand);
        }
    }
    if 0x10_0000_0000_0000 <= x.bits < 0x7fe0_0000_0000_0000 {
        let next = Binary64 { bits: (x.bits + 0x10_0000_0000_0000) as u64 };
        let e = x.exponent_field();
        assert(next.exponent_field() == e + 1);
        assert(next.fraction_field() == x.fraction_field());
        let significand = (HIDDEN_BIT + x.fraction_field()) as nat;
        let unit = two_to((e - 1) as nat);
        assert(two_to(e) == 2 * unit);
        assert(significand * (2 * unit) == 2 * (significand * unit)) by (nonlinear_arith);
    }
    if x.bits >= 0x8000_0000_0000_0000 {
        let bare = Binary64 { bits: (x.bits - 0x8000_0000_0000_0000) as u64 };
        assert(bare.exponent_field() == x.exponent_field());
        assert(bare.fraction_field() == x.fraction_field());
    }
}

/// The finite range ends one step of the last binade beyond the largest finite number.
pub proof fn law_finite_range_ends_after_the_largest_number()
    ensures
        overflow_magnitude() == (Binary64 { bits: 0x7fef_ffff_ffff_ffff }).magnitude() + two_to(2045),
        INFINITY_BITS == 0x7ff0_0000_0000_0000,
{
    let x = Binary64 { bits: 0x7fef_ffff_ffff_ffff };
    assert(x.exponent_field() == 2046);
    assert(x.fraction_field() == 0xf_ffff_ffff_ffff);
    lemma_two_to_values();
    lemma_two_to_adds(53, 2045);
    let unit = two_to(2045);
    assert(0x1f_ffff_ffff_ffff * unit + unit == 0x20_0000_0000_0000 * unit) by (nonlinear_arith);
}

/// A magnitude of at most 53 bits is kept as it is. A longer one, that is 53 leading bits `kept`
/// followed by `k` further bits of value `rest`, goes to the nearer of the two values with `k` zero bits
/// beside it, and from the middle to the one whose kept bits are even.
pub proof fn law_rounding_goes_to_the_nearest(kept: nat, k: nat, rest: nat)
    requires
        0x10_0000_0000_0000 <= kept < 0x20_0000_0000_0000,
        rest < two_to(k),
    ensures
        nearest_even(kept) == kept,
        ({
            let lower = kept * two_to(k);
            let upper = (kept + 1) * two_to(k);
            let exact = lower + rest;
            let rounded = nearest_even(exact);
            &&& lower <= exact < upper
            &&& rounded == lower || rounded == upper
            &&& rounded == lower ==> exact - lower <= upper - exact
            &&& rounded == upper ==> upper - exact <= exact - lower
            &&& exact - lower == upper - exact ==> (rounded == lower <==> kept % 2 == 0)
        }),
{
    lemma_nearest_even_of_short(kept);
    let step = two_to(k);
    assert((kept + 1) * step == kept * step + step) by (nonlinear_arith);
    assert(0x10_0000_0000_0000 * step <= kept * step) by (nonlinear_arith)
        requires
            0x10_0000_0000_0000 <= kept,
    ;
    assert((kept + 1) * step <= 0x20_0000_0000_0000 * step) by (nonlinear_arith)
        requires
            kept + 1 <= 0x20_0000_0000_0000,
    ;
    lemma_excess_bits_at(kept * step + rest, k);
    lemma_quotient(kept * step + rest, step, kept, rest);
}

/// A quantity of GiB takes the least whole number of bytes that is not under it, each `2^-30` GiB, as
/// far as a count can hold it.
pub proof fn law_byte_ceiling_brackets_the_quantity(magnitude: nat)
    ensures
        whole_bytes(magnitude) <= u64::MAX,
        whole_bytes(magnitude) < u64::MAX ==> magnitude <= whole_bytes(magnitude) * two_to(1044),
        whole_bytes(magnitude) > 0 ==> (whole_bytes(magnitude) - 1) * two_to(1044) < magnitude,
{
    let unit = two_to(1044);
    lemma_two_to_positive(1044);
    lemma_division(magnitude, unit);
    let q = magnitude / unit;
    let bytes = whole_bytes(magnitude);
    assert((q + 1) * unit == q * unit + unit) by (nonlinear_arith);
    if bytes > 0 {
        assert((bytes - 1) * unit == bytes * unit - unit) by (nonlinear_arith);
        if bytes <= q {
            assert(bytes * unit <= q * unit) by (nonlinear_arith)
                requires
                    bytes <= q,
            ;
        }
    }
}

/// A byte count in GiB is its exact value, rounded to the nearest number; a count of up to 53 bits is
/// exact and comes back from the conversion to bytes. More bytes are never fewer GiB.
pub proof fn law_byte_counts_in_gib(bytes: u64, more: u64)
    ensures
        magnitude_of_bytes(bytes) == nearest_even(bytes as nat * two_to(1044)),
        bytes <= 0x20_0000_0000_0000 ==> magnitude_of_bytes(bytes) == bytes * two_to(1044),
        bytes <= 0x20_0000_0000_0000 ==> whole_bytes(magnitude_of_bytes(bytes)) == bytes,
        bytes <= more ==> magnitude_of_bytes(bytes) <= magnitude_of_bytes(more),
{
    let unit = two_to(1044);
    lemma_two_to_positive(1044);
    if bytes <= 0x20_0000_0000_0000 {
        lemma_nearest_even_of_short(bytes as nat);
        lemma_nearest_even_scales(bytes as nat, 1044);
        lemma_quotient(bytes as nat * unit, unit, bytes as nat, 0);
    }
    if bytes <= more {
        lemma_ordered_products(more as nat, bytes as nat, unit);
        lemma_nearest_even_monotone(bytes as nat * unit, more as nat * unit);
    }
}

} // verus!
