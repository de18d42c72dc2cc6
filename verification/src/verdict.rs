//! Evidence verdicts, and which of several reasons is reported.

use vstd::prelude::*;

verus! {

/// What an evidence check concluded.
#[derive(Clone, Copy, Debug, PartialEq, Eq, Structural)]
pub enum MemoryEvidenceVerdict {
    Satisfied,
    Unverified,
    Missing,
    OutOfEnvelope,
    Stale,
    FingerprintMismatch,
    CompositionMismatch,
    Invalid,
}

/// How specific a verdict is. Generic absence is least actionable; concrete integrity, calibration,
/// revision and envelope failures outrank it.
pub open spec fn priority(verdict: MemoryEvidenceVerdict) -> int {
    match verdict {
        MemoryEvidenceVerdict::Satisfied => 0,
        MemoryEvidenceVerdict::Unverified => 1,
        MemoryEvidenceVerdict::Missing => 2,
        MemoryEvidenceVerdict::OutOfEnvelope => 3,
        MemoryEvidenceVerdict::Stale => 4,
        MemoryEvidenceVerdict::FingerprintMismatch => 5,
        MemoryEvidenceVerdict::CompositionMismatch => 6,
        MemoryEvidenceVerdict::Invalid => 7,
    }
}

/// `reason` is among `reasons` and none of them is more specific.
pub open spec fn most_specific(
    reasons: Set<MemoryEvidenceVerdict>,
    reason: MemoryEvidenceVerdict,
) -> bool {
    &&& reasons.contains(reason)
    &&& forall|other: MemoryEvidenceVerdict| #[trigger]
        reasons.contains(other) ==> priority(other) <= priority(reason)
}

/// The most specific of `reasons`, where there are any.
pub open spec fn aggregate(reasons: Set<MemoryEvidenceVerdict>) -> Option<MemoryEvidenceVerdict> {
    if reasons.contains(MemoryEvidenceVerdict::Invalid) {
        Some(MemoryEvidenceVerdict::Invalid)
    } else if reasons.contains(MemoryEvidenceVerdict::CompositionMismatch) {
        Some(MemoryEvidenceVerdict::CompositionMismatch)
    } else if reasons.contains(MemoryEvidenceVerdict::FingerprintMismatch) {
        Some(MemoryEvidenceVerdict::FingerprintMismatch)
    } else if reasons.contains(MemoryEvidenceVerdict::Stale) {
        Some(MemoryEvidenceVerdict::Stale)
    } else if reasons.contains(MemoryEvidenceVerdict::OutOfEnvelope) {
        Some(MemoryEvidenceVerdict::OutOfEnvelope)
    } else if reasons.contains(MemoryEvidenceVerdict::Missing) {
        Some(MemoryEvidenceVerdict::Missing)
    } else if reasons.contains(MemoryEvidenceVerdict::Unverified) {
        Some(MemoryEvidenceVerdict::Unverified)
    } else if reasons.contains(MemoryEvidenceVerdict::Satisfied) {
        Some(MemoryEvidenceVerdict::Satisfied)
    } else {
        None
    }
}

/// The reason that stands once `candidate` has been weighed against the reason so far: the more
/// specific of the two.
pub open spec fn weighed(
    current: Option<MemoryEvidenceVerdict>,
    candidate: MemoryEvidenceVerdict,
) -> MemoryEvidenceVerdict {
    match current {
        Some(reason) => if priority(candidate) > priority(reason) {
            candidate
        } else {
            reason
        },
        None => candidate,
    }
}

/// How specific a verdict is; a higher number outranks a lower one.
pub fn verdict_priority(verdict: MemoryEvidenceVerdict) -> (result: u8)
    ensures
        result == priority(verdict),
{
    match verdict {
        MemoryEvidenceVerdict::Satisfied => 0,
        MemoryEvidenceVerdict::Unverified => 1,
        MemoryEvidenceVerdict::Missing => 2,
        MemoryEvidenceVerdict::OutOfEnvelope => 3,
        MemoryEvidenceVerdict::Stale => 4,
        MemoryEvidenceVerdict::FingerprintMismatch => 5,
        MemoryEvidenceVerdict::CompositionMismatch => 6,
        MemoryEvidenceVerdict::Invalid => 7,
    }
}

/// Weighs one more reason against the one so far.
pub fn accumulate_reason(
    current: &mut Option<MemoryEvidenceVerdict>,
    candidate: MemoryEvidenceVerdict,
)
    ensures
        *final(current) == Some(weighed(*old(current), candidate)),
{
    let replace = match *current {
        Some(reason) => verdict_priority(candidate) > verdict_priority(reason),
        None => true,
    };
    if replace {
        *current = Some(candidate);
    }
}

/// The reason that stands after weighing `reasons` one after another.
pub open spec fn weighed_in_turn(
    reasons: Seq<MemoryEvidenceVerdict>,
) -> Option<MemoryEvidenceVerdict>
    decreases reasons.len(),
{
    if reasons.len() == 0 {
        None
    } else {
        Some(weighed(weighed_in_turn(reasons.drop_last()), reasons.last()))
    }
}

/// Weighing one more reason gives the aggregate of the larger set.
pub proof fn lemma_aggregate_insert(
    reasons: Set<MemoryEvidenceVerdict>,
    candidate: MemoryEvidenceVerdict,
)
    ensures
        aggregate(reasons.insert(candidate)) == Some(weighed(aggregate(reasons), candidate)),
{
}

/// The aggregate is a most specific reason, and there is one as soon as there is a reason.
pub proof fn law_aggregate_is_most_specific(reasons: Set<MemoryEvidenceVerdict>)
    ensures
        aggregate(reasons) is None <==> reasons == Set::<MemoryEvidenceVerdict>::empty(),
        aggregate(reasons) matches Some(reason) ==> most_specific(reasons, reason),
{
    if aggregate(reasons) is None {
        assert forall|reason: MemoryEvidenceVerdict| !reasons.contains(reason) by {
            match reason {
                MemoryEvidenceVerdict::Satisfied => {},
                _ => {},
            }
        }
        assert(reasons =~= Set::<MemoryEvidenceVerdict>::empty());
    }
}

/// Weighing reasons one after another arrives at the aggregate of the set of them.
pub proof fn law_weighing_gives_the_aggregate(reasons: Seq<MemoryEvidenceVerdict>)
    ensures
        weighed_in_turn(reasons) == aggregate(reasons.to_set()),
    decreases reasons.len(),
{
    if reasons.len() > 0 {
        let shorter = reasons.drop_last();
        law_weighing_gives_the_aggregate(shorter);
        lemma_aggregate_insert(shorter.to_set(), reasons.last());
        assert(reasons.to_set() =~= shorter.to_set().insert(reasons.last())) by {
            assert forall|r: MemoryEvidenceVerdict| reasons.contains(r) <==> (shorter.contains(r)
                || r == reasons.last()) by {
                if reasons.contains(r) {
                    let i = choose|i: int| 0 <= i < reasons.len() && reasons[i] == r;
                    if i < shorter.len() {
                        assert(shorter[i] == r);
                    }
                }
                if shorter.contains(r) {
                    let i = choose|i: int| 0 <= i < shorter.len() && shorter[i] == r;
                    assert(reasons[i] == r);
                }
                assert(reasons[reasons.len() - 1] == reasons.last());
            }
        }
    } else {
        assert(reasons.to_set() =~= Set::<MemoryEvidenceVerdict>::empty());
    }
}

/// The reason that stands depends on which reasons were weighed, not on their order or number.
pub proof fn law_weighing_ignores_order(
    a: Seq<MemoryEvidenceVerdict>,
    b: Seq<MemoryEvidenceVerdict>,
)
    requires
        a.to_set() == b.to_set(),
    ensures
        weighed_in_turn(a) == weighed_in_turn(b),
{
    law_weighing_gives_the_aggregate(a);
    law_weighing_gives_the_aggregate(b);
}

/// From the least to the most specific: nothing wrong, a generic lack of verification, absence, an
/// envelope that is left, staleness, another fingerprint, another composition, and an invalid record.
pub proof fn law_specificity_order()
    ensures
        priority(MemoryEvidenceVerdict::Satisfied) < priority(MemoryEvidenceVerdict::Unverified),
        priority(MemoryEvidenceVerdict::Unverified) < priority(MemoryEvidenceVerdict::Missing),
        priority(MemoryEvidenceVerdict::Missing) < priority(MemoryEvidenceVerdict::OutOfEnvelope),
        priority(MemoryEvidenceVerdict::OutOfEnvelope) < priority(MemoryEvidenceVerdict::Stale),
        priority(MemoryEvidenceVerdict::Stale) < priority(
            MemoryEvidenceVerdict::FingerprintMismatch,
        ),
        priority(MemoryEvidenceVerdict::FingerprintMismatch) < priority(
            MemoryEvidenceVerdict::CompositionMismatch,
        ),
        priority(MemoryEvidenceVerdict::CompositionMismatch) < priority(
            MemoryEvidenceVerdict::Invalid,
        ),
{
}

/// Weighing a reason keeps the more specific of the two, and gives up the one so far for nothing less
/// than a more specific one.
pub proof fn law_weighing_keeps_the_more_specific(
    current: MemoryEvidenceVerdict,
    candidate: MemoryEvidenceVerdict,
)
    ensures
        ({
            let kept = weighed(Some(current), candidate);
            &&& kept == current || kept == candidate
            &&& priority(kept) >= priority(current)
            &&& priority(kept) >= priority(candidate)
            &&& kept != current ==> priority(kept) > priority(current)
        }),
        weighed(None, candidate) == candidate,
{
}

} // verus!
