//! The live memory budget that candidates are graded against.

use crate::binary64::Binary64;
use vstd::prelude::*;

verus! {

/// Live budget. Headroom is removed once from the live and reclaimable pool and once from the
/// physical ceiling; a requirement equal to what is left fits.
#[derive(Clone, Copy, Debug, PartialEq, Eq, Structural)]
pub struct Budget {
    pub available_gb: Binary64,
    pub reclaimable_gb: Binary64,
    pub total_gb: Binary64,
    pub reserved_headroom_gb: Binary64,
}

/// What is left of `pool` once `headroom` is taken out, not below zero. A pool beyond the finite
/// range stays there.
pub open spec fn after_headroom(pool: nat, headroom: nat) -> nat {
    if pool < crate::binary64::overflow_magnitude() {
        crate::binary64::nearest_even(crate::binary64::difference_or_zero(pool, headroom))
    } else {
        pool
    }
}

pub open spec fn lesser_of(a: nat, b: nat) -> nat {
    if a <= b {
        a
    } else {
        b
    }
}

impl Budget {
    /// Every figure is finite and none is below zero, and there is physical memory at all.
    pub open spec fn coherent(self) -> bool {
        &&& self.available_gb.finite()
        &&& self.reclaimable_gb.finite()
        &&& self.total_gb.finite()
        &&& self.reserved_headroom_gb.finite()
        &&& !self.available_gb.below_zero()
        &&& !self.reclaimable_gb.below_zero()
        &&& !self.total_gb.below_zero()
        &&& self.total_gb.magnitude() > 0
        &&& !self.reserved_headroom_gb.below_zero()
    }

    /// What live and reclaimable memory leave after headroom, limited by what the physical ceiling
    /// leaves after headroom.
    pub open spec fn effective_magnitude(self) -> nat {
        let pool = crate::binary64::nearest_even(
            self.available_gb.magnitude() + self.reclaimable_gb.magnitude(),
        );
        let headroom = self.reserved_headroom_gb.magnitude();
        lesser_of(
            after_headroom(pool, headroom),
            after_headroom(self.total_gb.magnitude(), headroom),
        )
    }

    /// The memory a request may take, or `None` for an incoherent budget.
    pub fn effective_gb(self) -> (result: Option<Binary64>)
        ensures
            result is Some <==> self.coherent(),
            result matches Some(effective) ==> {
                &&& effective.plain()
                &&& effective.magnitude() == self.effective_magnitude()
            },
    {
        if !self.available_gb.is_finite() || !self.reclaimable_gb.is_finite()
            || !self.total_gb.is_finite() || !self.reserved_headroom_gb.is_finite()
            || self.available_gb.is_below_zero() || self.reclaimable_gb.is_below_zero()
            || self.total_gb.is_below_zero() || self.total_gb.is_zero()
            || self.reserved_headroom_gb.is_below_zero() {
            return None;
        }
        let pool = self.available_gb.plus(self.reclaimable_gb);
        let ceiling = self.total_gb.minus_or_zero(self.reserved_headroom_gb);
        proof {
            crate::binary64::lemma_finite_in_range(self.total_gb);
            crate::binary64::lemma_finite_in_range(ceiling);
        }
        if !pool.is_finite() {
            return Some(ceiling);
        }
        Some(pool.minus_or_zero(self.reserved_headroom_gb).lesser(ceiling))
    }

    /// The whole bytes that a request may take, rounded up so that a requirement converted to bytes
    /// the same way and equal to the budget still fits.
    pub open spec fn effective_bytes(self) -> nat {
        crate::binary64::whole_bytes(self.effective_magnitude())
    }
}

/// The effective budget exceeds neither the physical memory nor the live and reclaimable pool, and
/// headroom that covers the physical memory leaves nothing.
pub proof fn law_effective_budget_is_bounded(budget: Budget)
    requires
        budget.coherent(),
    ensures
        budget.effective_magnitude() <= budget.total_gb.magnitude(),
        budget.effective_magnitude() <= crate::binary64::nearest_even(
            budget.available_gb.magnitude() + budget.reclaimable_gb.magnitude(),
        ),
        budget.reserved_headroom_gb.magnitude() >= budget.total_gb.magnitude()
            ==> budget.effective_magnitude() == 0,
{
    let sum = budget.available_gb.magnitude() + budget.reclaimable_gb.magnitude();
    let headroom = budget.reserved_headroom_gb.magnitude();
    let total = budget.total_gb.magnitude();
    crate::binary64::lemma_finite_in_range(budget.total_gb);
    crate::binary64::lemma_finite_is_exact(budget.total_gb);
    crate::binary64::lemma_nearest_even_monotone(
        crate::binary64::difference_or_zero(total, headroom),
        total,
    );
    crate::binary64::lemma_nearest_even_is_exact(sum);
    let pool = crate::binary64::nearest_even(sum);
    crate::binary64::lemma_nearest_even_monotone(crate::binary64::difference_or_zero(pool, headroom), pool);
    crate::binary64::lemma_nearest_even_of_short(0);
}

/// A budget has an effective figure exactly where each of its four figures is a finite number that is
/// not below zero, negative zero included, and the physical memory is not zero. In bit patterns: no
/// exponent field is all ones, no sign bit is set but on zero, and the total is neither zero.
pub proof fn law_coherence_is_read_off_every_figure(budget: Budget)
    ensures
        budget.coherent() <==> {
            &&& (budget.available_gb.bits / 0x10_0000_0000_0000) % 2048 < 2047
            &&& (budget.reclaimable_gb.bits / 0x10_0000_0000_0000) % 2048 < 2047
            &&& (budget.total_gb.bits / 0x10_0000_0000_0000) % 2048 < 2047
            &&& (budget.reserved_headroom_gb.bits / 0x10_0000_0000_0000) % 2048 < 2047
            &&& budget.available_gb.bits <= 0x8000_0000_0000_0000
            &&& budget.reclaimable_gb.bits <= 0x8000_0000_0000_0000
            &&& budget.total_gb.bits < 0x8000_0000_0000_0000
            &&& budget.reserved_headroom_gb.bits <= 0x8000_0000_0000_0000
            &&& budget.total_gb.bits != 0
        },
{
    crate::binary64::lemma_zero_patterns(budget.available_gb);
    crate::binary64::lemma_zero_patterns(budget.reclaimable_gb);
    crate::binary64::lemma_zero_patterns(budget.total_gb);
    crate::binary64::lemma_zero_patterns(budget.reserved_headroom_gb);
}

/// The effective figure depends on available and reclaimable memory only through their sum: moving
/// memory between the two leaves it unchanged.
pub proof fn law_effective_budget_depends_on_the_pool(a: Budget, b: Budget)
    requires
        a.coherent(),
        b.coherent(),
        a.available_gb.magnitude() + a.reclaimable_gb.magnitude() == b.available_gb.magnitude()
            + b.reclaimable_gb.magnitude(),
        a.total_gb.magnitude() == b.total_gb.magnitude(),
        a.reserved_headroom_gb.magnitude() == b.reserved_headroom_gb.magnitude(),
    ensures
        a.effective_magnitude() == b.effective_magnitude(),
        a.effective_bytes() == b.effective_bytes(),
{
}

/// Headroom is removed once from the live and reclaimable pool: where the pool is within the physical
/// memory and covers the headroom, what is left is the pool less the headroom, up to the format's
/// rounding, so with figures that need no rounding it makes up the pool again with the headroom.
pub proof fn law_headroom_is_removed_once_from_the_pool(budget: Budget)
    requires
        budget.coherent(),
        crate::binary64::nearest_even(
            budget.available_gb.magnitude() + budget.reclaimable_gb.magnitude(),
        ) == budget.available_gb.magnitude() + budget.reclaimable_gb.magnitude(),
        budget.reserved_headroom_gb.magnitude() <= budget.available_gb.magnitude()
            + budget.reclaimable_gb.magnitude(),
        budget.available_gb.magnitude() + budget.reclaimable_gb.magnitude()
            <= budget.total_gb.magnitude(),
    ensures
        ({
            let pool = budget.available_gb.magnitude() + budget.reclaimable_gb.magnitude();
            let left = (pool - budget.reserved_headroom_gb.magnitude()) as nat;
            &&& budget.effective_magnitude() == crate::binary64::nearest_even(left)
            &&& crate::binary64::nearest_even(left) == left ==> budget.effective_magnitude()
                + budget.reserved_headroom_gb.magnitude() == pool
        }),
{
    let pool = budget.available_gb.magnitude() + budget.reclaimable_gb.magnitude();
    let headroom = budget.reserved_headroom_gb.magnitude();
    let total = budget.total_gb.magnitude();
    crate::binary64::lemma_finite_in_range(budget.total_gb);
    crate::binary64::lemma_nearest_even_monotone(
        (pool - headroom) as nat,
        (total - headroom) as nat,
    );
}

/// Headroom is removed once from the physical ceiling: where the pool is at least the physical memory,
/// what is left is the physical memory less the headroom, up to the format's rounding.
pub proof fn law_headroom_is_removed_once_from_the_ceiling(budget: Budget)
    requires
        budget.coherent(),
        budget.reserved_headroom_gb.magnitude() <= budget.total_gb.magnitude(),
        budget.total_gb.magnitude() <= budget.available_gb.magnitude()
            + budget.reclaimable_gb.magnitude(),
    ensures
        ({
            let left = (budget.total_gb.magnitude() - budget.reserved_headroom_gb.magnitude()) as nat;
            &&& budget.effective_magnitude() == crate::binary64::nearest_even(left)
            &&& crate::binary64::nearest_even(left) == left ==> budget.effective_magnitude()
                + budget.reserved_headroom_gb.magnitude() == budget.total_gb.magnitude()
        }),
{
    let sum = budget.available_gb.magnitude() + budget.reclaimable_gb.magnitude();
    let pool = crate::binary64::nearest_even(sum);
    let headroom = budget.reserved_headroom_gb.magnitude();
    let total = budget.total_gb.magnitude();
    crate::binary64::lemma_finite_in_range(budget.total_gb);
    crate::binary64::lemma_finite_is_exact(budget.total_gb);
    crate::binary64::lemma_nearest_even_monotone(total, sum);
    let left = (total - headroom) as nat;
    crate::binary64::lemma_nearest_even_monotone(left, (pool - headroom) as nat);
    crate::binary64::lemma_nearest_even_monotone(left, total);
}

/// Headroom that covers the pool leaves nothing.
pub proof fn law_headroom_that_covers_the_pool_leaves_nothing(budget: Budget)
    requires
        budget.coherent(),
        budget.available_gb.magnitude() + budget.reclaimable_gb.magnitude()
            <= budget.reserved_headroom_gb.magnitude(),
    ensures
        budget.effective_magnitude() == 0,
{
    let sum = budget.available_gb.magnitude() + budget.reclaimable_gb.magnitude();
    let headroom = budget.reserved_headroom_gb.magnitude();
    crate::binary64::lemma_finite_in_range(budget.reserved_headroom_gb);
    crate::binary64::lemma_finite_is_exact(budget.reserved_headroom_gb);
    crate::binary64::lemma_nearest_even_monotone(sum, headroom);
    crate::binary64::lemma_nearest_even_of_short(0);
}

/// More available, reclaimable or physical memory, or less headroom, never leaves less.
pub proof fn law_effective_budget_is_monotone(a: Budget, b: Budget)
    requires
        a.coherent(),
        b.coherent(),
        a.available_gb.magnitude() <= b.available_gb.magnitude(),
        a.reclaimable_gb.magnitude() <= b.reclaimable_gb.magnitude(),
        a.total_gb.magnitude() <= b.total_gb.magnitude(),
        a.reserved_headroom_gb.magnitude() >= b.reserved_headroom_gb.magnitude(),
    ensures
        a.effective_magnitude() <= b.effective_magnitude(),
{
    let x = a.available_gb.magnitude() + a.reclaimable_gb.magnitude();
    let y = b.available_gb.magnitude() + b.reclaimable_gb.magnitude();
    crate::binary64::lemma_nearest_even_monotone(x, y);
    crate::binary64::lemma_nearest_even_is_exact(x);
    crate::binary64::lemma_finite_in_range(a.total_gb);
    crate::binary64::lemma_finite_in_range(b.total_gb);
    lemma_after_headroom_monotone(
        crate::binary64::nearest_even(x),
        crate::binary64::nearest_even(y),
        a.reserved_headroom_gb.magnitude(),
        b.reserved_headroom_gb.magnitude(),
    );
    crate::binary64::lemma_finite_is_exact(a.total_gb);
    lemma_after_headroom_monotone(
        a.total_gb.magnitude(),
        b.total_gb.magnitude(),
        a.reserved_headroom_gb.magnitude(),
        b.reserved_headroom_gb.magnitude(),
    );
}

proof fn lemma_after_headroom_monotone(x: nat, y: nat, more: nat, less: nat)
    requires
        x <= y,
        less <= more,
        crate::binary64::nearest_even(x) == x,
    ensures
        after_headroom(x, more) <= after_headroom(y, less),
{
    let a = crate::binary64::difference_or_zero(x, more);
    crate::binary64::lemma_nearest_even_monotone(
        a,
        crate::binary64::difference_or_zero(y, less),
    );
    crate::binary64::lemma_nearest_even_monotone(a, x);
}

/// What a request may take in bytes is the effective budget rounded up to a whole byte of `2^-30` GiB,
/// as far as a count can hold it.
pub proof fn law_effective_bytes_bracket_the_budget(budget: Budget)
    ensures
        ({
            let bytes = budget.effective_bytes();
            let unit = crate::binary64::two_to(1044);
            &&& bytes <= u64::MAX
            &&& bytes < u64::MAX ==> budget.effective_magnitude() <= bytes * unit
            &&& bytes > 0 ==> (bytes - 1) * unit < budget.effective_magnitude()
        }),
{
    crate::binary64::law_byte_ceiling_brackets_the_quantity(budget.effective_magnitude());
}

} // verus!
