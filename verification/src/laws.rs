//! What holds of every selection.

use crate::binary64::Binary64;
use crate::budget::Budget;
use crate::evidence::{Candidate, CandidateCurrency, MemoryEvidence, RequestScope};
use crate::ladder::MemoryStrategy;
use crate::margin::MarginPolicy;
use crate::preference::MemoryPreference;
use crate::provider::MemoryProviderContract;
use crate::selector::{Contest, Merit, Selection};
use crate::verdict::MemoryEvidenceVerdict;
use vstd::prelude::*;

verus! {

/// Two contests that differ at most in the order and number in which they list the same candidates.
pub open spec fn same_offer<'a>(a: Contest<'a>, b: Contest<'a>) -> bool {
    &&& a.request == b.request
    &&& a.contract == b.contract
    &&& a.policy == b.policy
    &&& a.available_bytes == b.available_bytes
    &&& a.candidates.to_set() == b.candidates.to_set()
}

/// Of two merits one beats the other, unless they are equal.
pub proof fn law_merits_are_totally_ordered(a: Merit, b: Merit, c: Merit)
    ensures
        !a.beaten_by(a),
        a.beaten_by(b) ==> !b.beaten_by(a),
        !a.beaten_by(b) && !b.beaten_by(a) ==> a == b,
        a.beaten_by(b) && b.beaten_by(c) ==> a.beaten_by(c),
{
}

/// Whatever the preference, a rung that is implemented and has a fitting candidate leads to a
/// selection, and nothing else does. Excluded evidence at one rung does not block another, and a
/// request that runs under one preference runs under each.
pub proof fn law_selected_iff_some_rung_fits<'a>(
    contest: Contest<'a>,
    preference: MemoryPreference,
    available_gb: Binary64,
    answer: Selection<'a>,
)
    requires
        contest.answered(preference, available_gb, answer),
    ensures
        answer is Selected <==> exists|strategy: MemoryStrategy| contest.selectable(strategy),
{
}

/// What is selected was submitted for an implemented rung, is admitted and not superseded, and does
/// not need more than is available.
pub proof fn law_selected_candidate_is_admitted_and_fits<'a>(
    contest: Contest<'a>,
    preference: MemoryPreference,
    available_gb: Binary64,
    answer: Selection<'a>,
)
    requires
        contest.answered(preference, available_gb, answer),
    ensures
        answer matches Selection::Selected { selection, .. } ==> {
            &&& contest.contract.implements(selection.strategy)
            &&& exists|i: int|
                {
                    &&& #[trigger] contest.fits(i, selection.strategy)
                    &&& contest.candidates[i].selection == selection
                    &&& contest.peak(i) <= contest.available_bytes
                }
        },
{
    if let Selection::Selected { selection, .. } = answer {
        let (i, strategy) = choose|i: int, strategy: MemoryStrategy|
            {
                &&& #[trigger] contest.carried(i, preference, strategy)
                &&& contest.preferred(preference, strategy)
                &&& selection == contest.candidates[i].selection
            };
        assert(contest.fits(i, strategy));
    }
}

/// A selection runs at the numeric tier of the request, whatever the preference.
pub proof fn law_numeric_tier_is_kept<'a>(
    contest: Contest<'a>,
    preference: MemoryPreference,
    available_gb: Binary64,
    answer: Selection<'a>,
)
    requires
        contest.answered(preference, available_gb, answer),
    ensures
        answer matches Selection::Selected { selection, .. } ==> selection.tier@
            == contest.request.tier@,
{
    if let Selection::Selected { selection, .. } = answer {
        law_selected_candidate_is_admitted_and_fits(contest, preference, available_gb, answer);
        let i = choose|i: int|
            #[trigger] contest.fits(i, selection.strategy) && contest.candidates[i].selection
                == selection;
        law_admitted_candidate_is_eligible(
            contest.request,
            contest.contract,
            contest.candidates[i],
        );
    }
}

/// By default the selected rung is the cheapest selectable one. Preferring an offload, it is the
/// cheapest verified one below a selectable resident rung, and the resident rung where there is none;
/// where the resident rung is not selectable, the default order stands. Preferring the most offload,
/// it is the deepest verified one below the resident rung, and the default one where there is none.
pub proof fn law_selected_rung<'a>(
    contest: Contest<'a>,
    preference: MemoryPreference,
    available_gb: Binary64,
    answer: Selection<'a>,
    other: MemoryStrategy,
)
    requires
        contest.answered(preference, available_gb, answer),
        contest.selectable(other),
    ensures
        answer is Selected,
        ({
            let taken = answer->selection.strategy;
            let offloads = other != MemoryStrategy::Resident && contest.verified(other);
            match preference {
                MemoryPreference::Default => taken.depth() <= other.depth(),
                MemoryPreference::PreferOffload => if contest.selectable(MemoryStrategy::Resident) {
                    &&& taken == MemoryStrategy::Resident || contest.verified(taken)
                    &&& offloads ==> taken != MemoryStrategy::Resident && taken.depth()
                        <= other.depth()
                } else {
                    taken.depth() <= other.depth()
                },
                MemoryPreference::MaxOffload => {
                    &&& offloads ==> contest.verified(taken) && taken.depth() >= other.depth()
                    &&& taken == MemoryStrategy::Resident || !contest.verified(taken)
                        ==> taken.depth() <= other.depth()
                },
            }
        }),
{
    let (i, strategy) = choose|i: int, strategy: MemoryStrategy|
        {
            &&& #[trigger] contest.carried(i, preference, strategy)
            &&& contest.preferred(preference, strategy)
            &&& answer->selection == contest.candidates[i].selection
        };
    assert(contest.fits(i, strategy));
    assert(answer->selection.strategy == strategy);
    if preference == MemoryPreference::PreferOffload && contest.selectable(MemoryStrategy::Resident)
        && strategy != MemoryStrategy::Resident {
        assert(contest.ahead(preference, strategy, MemoryStrategy::Resident));
    }
}

/// An offload preference is lossless: a rung that it takes over a resident rung that fits is one
/// that is carried by evidence which is eligible under the provider's contract.
pub proof fn law_offload_preference_is_lossless<'a>(
    contest: Contest<'a>,
    preference: MemoryPreference,
    available_gb: Binary64,
    answer: Selection<'a>,
)
    requires
        contest.answered(preference, available_gb, answer),
        preference != MemoryPreference::Default,
        contest.selectable(MemoryStrategy::Resident),
        answer->selection.strategy != MemoryStrategy::Resident,
    ensures
        exists|i: int| #[trigger]
            contest.carried(i, preference, answer->selection.strategy)
                && contest.candidates[i].selection == answer->selection
                && contest.candidates[i].finding.eligibility is Ok,
{
    let (i, strategy) = choose|i: int, strategy: MemoryStrategy|
        {
            &&& #[trigger] contest.carried(i, preference, strategy)
            &&& contest.preferred(preference, strategy)
            &&& answer->selection == contest.candidates[i].selection
        };
    assert(contest.fits(i, strategy));
    assert(contest.ahead(preference, strategy, MemoryStrategy::Resident));
}

/// Only verified rungs are ever preferred: where a preference takes another rung than the default
/// order would, that rung is carried by evidence which is eligible under the provider's contract.
pub proof fn law_only_verified_rungs_are_preferred<'a>(
    contest: Contest<'a>,
    preference: MemoryPreference,
    available_gb: Binary64,
    by_default: Selection<'a>,
    answer: Selection<'a>,
)
    requires
        contest.answered(MemoryPreference::Default, available_gb, by_default),
        contest.answered(preference, available_gb, answer),
        answer is Selected,
        answer->selection.strategy != by_default->selection.strategy,
    ensures
        exists|i: int| #[trigger]
            contest.carried(i, preference, answer->selection.strategy)
                && contest.candidates[i].selection == answer->selection
                && contest.candidates[i].finding.eligibility is Ok,
{
    let (i, strategy) = choose|i: int, strategy: MemoryStrategy|
        {
            &&& #[trigger] contest.carried(i, preference, strategy)
            &&& contest.preferred(preference, strategy)
            &&& answer->selection == contest.candidates[i].selection
        };
    let (j, usual) = choose|j: int, usual: MemoryStrategy|
        {
            &&& #[trigger] contest.carried(j, MemoryPreference::Default, usual)
            &&& contest.preferred(MemoryPreference::Default, usual)
            &&& by_default->selection == contest.candidates[j].selection
        };
    assert(contest.fits(i, strategy) && contest.fits(j, usual));
    assert(contest.selectable(strategy) && contest.selectable(usual));
    assert(contest.ahead(preference, strategy, usual));
    assert(contest.ahead(MemoryPreference::Default, usual, strategy));
}

/// A rung where a candidate contends has exactly one choice among those that do.
pub proof fn law_rung_has_one_choice<'a>(
    contest: Contest<'a>,
    strategy: MemoryStrategy,
    verified_only: bool,
) -> (choice: int)
    requires
        exists|i: int| contest.contends(i, strategy, verified_only),
    ensures
        contest.chosen(choice, strategy, verified_only),
        forall|j: int| #[trigger] contest.chosen(j, strategy, verified_only) ==> j == choice,
{
    let i = choose|i: int| contest.contends(i, strategy, verified_only);
    assert(i < contest.candidates.len());
    let best = lemma_best_below(
        contest,
        strategy,
        verified_only,
        contest.candidates.len() as int,
    );
    assert(contest.chosen(best, strategy, verified_only)) by {
        assert forall|j: int| #[trigger] contest.contends(j, strategy, verified_only) implies j
            < contest.candidates.len() by {}
    }
    assert forall|j: int| #[trigger] contest.chosen(j, strategy, verified_only) implies j
        == best by {
        assert(contest.contends(j, strategy, verified_only));
    }
    best
}

proof fn lemma_best_below<'a>(
    contest: Contest<'a>,
    strategy: MemoryStrategy,
    verified_only: bool,
    n: int,
) -> (best: int)
    requires
        0 <= n,
        exists|i: int| i < n && #[trigger] contest.contends(i, strategy, verified_only),
    ensures
        best < n,
        contest.contends(best, strategy, verified_only),
        forall|j: int| #[trigger]
            contest.contends(j, strategy, verified_only) && j < n ==> {
                &&& !contest.merit(best).beaten_by(contest.merit(j))
                &&& j > best ==> contest.merit(j).beaten_by(contest.merit(best))
            },
    decreases n,
{
    let last = n - 1;
    if exists|i: int| i < last && #[trigger] contest.contends(i, strategy, verified_only) {
        let best = lemma_best_below(contest, strategy, verified_only, last);
        if contest.contends(last, strategy, verified_only) && !contest.merit(last).beaten_by(
            contest.merit(best),
        ) {
            assert forall|j: int| #[trigger] contest.contends(j, strategy, verified_only) && j
                < n implies !contest.merit(last).beaten_by(contest.merit(j)) by {
                law_merits_are_totally_ordered(
                    contest.merit(best),
                    contest.merit(last),
                    contest.merit(j),
                );
            }
            last
        } else {
            best
        }
    } else {
        last
    }
}

/// A selection rests on one candidate: the one that carries its rung, whose selection it is and at
/// whose peak it is graded.
pub proof fn law_selection_is_carried_by_one_candidate<'a>(
    contest: Contest<'a>,
    preference: MemoryPreference,
    available_gb: Binary64,
    answer: Selection<'a>,
    i: int,
)
    requires
        contest.answered(preference, available_gb, answer),
        answer is Selected,
        contest.carried(i, preference, answer->selection.strategy),
    ensures
        answer->selection == contest.candidates[i].selection,
        answer->Selected_needed_gb.magnitude() == crate::binary64::magnitude_of_bytes(
            contest.peak(i) as u64,
        ),
{
    let (j, strategy) = choose|j: int, strategy: MemoryStrategy|
        {
            &&& #[trigger] contest.carried(j, preference, strategy)
            &&& answer->selection == contest.candidates[j].selection
            &&& answer->Selected_needed_gb.magnitude() == crate::binary64::magnitude_of_bytes(
                contest.peak(j) as u64,
            )
        };
    let verified_only = contest.promoted(preference, strategy);
    assert(contest.fits(j, strategy));
    assert(contest.contends(i, strategy, verified_only));
    assert(contest.contends(j, strategy, verified_only));
}

/// A preference changes which of the fitting rungs is taken and nothing else: where nothing fits, the
/// answer is the same under each.
pub proof fn law_preference_only_chooses_among_fitting_rungs<'a>(
    contest: Contest<'a>,
    p: MemoryPreference,
    q: MemoryPreference,
    available_gb: Binary64,
    x: Selection<'a>,
    y: Selection<'a>,
)
    requires
        contest.answered(p, available_gb, x),
        contest.answered(q, available_gb, y),
    ensures
        x is Selected <==> y is Selected,
        !(x is Selected) ==> x == y,
{
    if !(x is Selected) && x is Reject {
        lemma_reject_is_unique(contest, p, q, available_gb, x, y);
    }
}

proof fn lemma_reject_is_unique<'a>(
    contest: Contest<'a>,
    p: MemoryPreference,
    q: MemoryPreference,
    available_gb: Binary64,
    x: Selection<'a>,
    y: Selection<'a>,
)
    requires
        contest.answered(p, available_gb, x),
        contest.answered(q, available_gb, y),
        x is Reject,
    ensures
        x == y,
{
    assert(y is Reject);
    assert(x->Reject_needed_gb.plain() && y->Reject_needed_gb.plain());
    let a = choose|peak: nat|
        #[trigger] contest.least_requirement(peak) && x->Reject_needed_gb.magnitude()
            == crate::binary64::magnitude_of_bytes(peak as u64);
    let b = choose|peak: nat|
        #[trigger] contest.least_requirement(peak) && y->Reject_needed_gb.magnitude()
            == crate::binary64::magnitude_of_bytes(peak as u64);
    assert(contest.requirement(a) && contest.requirement(b));
    assert(a == b);
    crate::binary64::law_magnitude_fixes_the_pattern(x->Reject_needed_gb, y->Reject_needed_gb);
}

/// The answer is determined: the same request under the same preference has one answer.
pub proof fn law_answer_is_determined<'a>(
    contest: Contest<'a>,
    preference: MemoryPreference,
    available_gb: Binary64,
    x: Selection<'a>,
    y: Selection<'a>,
)
    requires
        contest.answered(preference, available_gb, x),
        contest.answered(preference, available_gb, y),
    ensures
        x == y,
{
    if exists|strategy: MemoryStrategy| contest.selectable(strategy) {
        let (i, s) = choose|i: int, s: MemoryStrategy|
            {
                &&& #[trigger] contest.carried(i, preference, s)
                &&& contest.preferred(preference, s)
                &&& x->selection == contest.candidates[i].selection
                &&& x->Selected_needed_gb.plain()
                &&& x->Selected_needed_gb.magnitude() == crate::binary64::magnitude_of_bytes(
                    contest.peak(i) as u64,
                )
            };
        let (j, t) = choose|j: int, t: MemoryStrategy|
            {
                &&& #[trigger] contest.carried(j, preference, t)
                &&& contest.preferred(preference, t)
                &&& y->selection == contest.candidates[j].selection
                &&& y->Selected_needed_gb.plain()
                &&& y->Selected_needed_gb.magnitude() == crate::binary64::magnitude_of_bytes(
                    contest.peak(j) as u64,
                )
            };
        assert(contest.selectable(s) && contest.selectable(t));
        if s != t {
            crate::preference::law_preference_is_decisive(
                preference,
                s,
                contest.promoted(preference, s),
                t,
                contest.promoted(preference, t),
            );
        }
        let verified_only = contest.promoted(preference, s);
        assert(contest.contends(i, s, verified_only) && contest.contends(j, s, verified_only));
        assert(i == j);
        crate::binary64::law_magnitude_fixes_the_pattern(
            x->Selected_needed_gb,
            y->Selected_needed_gb,
        );
    } else if x is Reject {
        lemma_reject_is_unique(contest, preference, preference, available_gb, x, y);
    }
}

/// A decision is determined by what it is made from.
pub proof fn law_decision_is_determined<'a>(
    preference: MemoryPreference,
    request: RequestScope<'a>,
    contract: MemoryProviderContract,
    policy: MarginPolicy,
    budget: Option<Budget>,
    candidates: Seq<Candidate<'a>>,
    x: Selection<'a>,
    y: Selection<'a>,
)
    requires
        crate::selector::decided(preference, request, contract, policy, budget, candidates, x),
        crate::selector::decided(preference, request, contract, policy, budget, candidates, y),
    ensures
        x == y,
{
    if contract.trustworthy() && budget is Some && budget->Some_0.coherent() {
        let effective = budget->Some_0.effective_magnitude();
        let contest = crate::selector::contest_of(
            request,
            contract,
            policy,
            budget->Some_0.effective_bytes(),
            candidates,
        );
        let a = choose|gb: Binary64|
            gb.plain() && gb.magnitude() == effective && #[trigger] contest.answered(
                preference,
                gb,
                x,
            );
        let b = choose|gb: Binary64|
            gb.plain() && gb.magnitude() == effective && #[trigger] contest.answered(
                preference,
                gb,
                y,
            );
        crate::binary64::law_magnitude_fixes_the_pattern(a, b);
        law_answer_is_determined(contest, preference, a, x, y);
    }
}

/// Where a measurement, current or stale, is admitted at a rung, no estimate stands there, so an
/// estimate neither wins over a measurement nor rescues a rung whose measurement does not fit.
pub proof fn law_measurement_supersedes_estimates<'a>(
    contest: Contest<'a>,
    strategy: MemoryStrategy,
    measurement: int,
    estimate: int,
)
    requires
        contest.admitted(measurement, strategy),
        contest.admission(measurement)->Ok_0 != CandidateCurrency::Estimate,
        contest.admission(estimate) == Ok::<_, MemoryEvidenceVerdict>(CandidateCurrency::Estimate),
    ensures
        !contest.standing(estimate, strategy),
{
    assert(contest.admission(measurement) is Ok);
    assert(contest.measured(strategy));
}

/// Where a cell was measured again under the live closure, its stale measurement does not stand.
pub proof fn law_current_supersedes_stale<'a>(
    contest: Contest<'a>,
    strategy: MemoryStrategy,
    current: int,
    stale: int,
)
    requires
        contest.admitted(current, strategy),
        contest.admission(current)->Ok_0 == CandidateCurrency::Current,
        contest.admission(stale) == Ok::<_, MemoryEvidenceVerdict>(CandidateCurrency::StaleClosure),
        contest.candidates[current].evidence.key@ == contest.candidates[stale].evidence.key@,
    ensures
        contest.standing(current, strategy),
        !contest.standing(stale, strategy),
{
    assert(contest.admission(current) is Ok);
    assert(contest.remeasured(stale, strategy));
}

/// Superseding never empties a rung: where a candidate is admitted, one stands.
pub proof fn law_superseding_leaves_a_candidate<'a>(
    contest: Contest<'a>,
    strategy: MemoryStrategy,
    admitted: int,
)
    requires
        contest.admitted(admitted, strategy),
    ensures
        exists|i: int| contest.standing(i, strategy),
{
    match contest.admission(admitted)->Ok_0 {
        CandidateCurrency::Current => {
            assert(contest.standing(admitted, strategy));
        },
        CandidateCurrency::StaleClosure => {
            lemma_stale_leaves_a_candidate(contest, strategy, admitted);
        },
        CandidateCurrency::Estimate => {
            if contest.measured(strategy) {
                let j = choose|j: int|
                    {
                        &&& #[trigger] contest.admitted(j, strategy)
                        &&& contest.admission(j) != Ok::<_, MemoryEvidenceVerdict>(
                            CandidateCurrency::Estimate,
                        )
                    };
                if contest.admission(j)->Ok_0 == CandidateCurrency::Current {
                    assert(contest.standing(j, strategy));
                } else {
                    lemma_stale_leaves_a_candidate(contest, strategy, j);
                }
            } else {
                assert(contest.standing(admitted, strategy));
            }
        },
    }
}

proof fn lemma_stale_leaves_a_candidate<'a>(
    contest: Contest<'a>,
    strategy: MemoryStrategy,
    stale: int,
)
    requires
        contest.admitted(stale, strategy),
        contest.admission(stale)->Ok_0 == CandidateCurrency::StaleClosure,
    ensures
        exists|i: int| contest.standing(i, strategy),
{
    if contest.remeasured(stale, strategy) {
        let j = choose|j: int|
            {
                &&& #[trigger] contest.admitted(j, strategy)
                &&& contest.admission(j) == Ok::<_, MemoryEvidenceVerdict>(
                    CandidateCurrency::Current,
                )
                &&& contest.candidates[j].evidence.key@ == contest.candidates[stale].evidence.key@
            };
        assert(contest.standing(j, strategy));
    } else {
        assert(contest.standing(stale, strategy));
    }
}

/// A current measurement is graded at its own peak, and under margins that are not below zero nothing
/// is graded below the peak that its evidence states.
pub proof fn law_grading_never_narrows<'a>(contest: Contest<'a>, i: int)
    requires
        contest.admission(i) is Ok,
        contest.policy.stale_measured(contest.contract.backend_kind).finite(),
        contest.policy.estimate(contest.contract.backend_kind).finite(),
        !contest.policy.stale_measured(contest.contract.backend_kind).below_zero(),
        !contest.policy.estimate(contest.contract.backend_kind).below_zero(),
    ensures
        contest.peak(i) >= contest.candidates[i].evidence.predicted_peak_bytes,
        contest.admission(i)->Ok_0 == CandidateCurrency::Current ==> contest.peak(i)
            == contest.candidates[i].evidence.predicted_peak_bytes,
{
    let peak = contest.candidates[i].evidence.predicted_peak_bytes;
    let backend = contest.contract.backend_kind;
    crate::margin::law_widening_never_narrows(peak, contest.policy.stale_measured(backend));
    crate::margin::law_widening_never_narrows(peak, contest.policy.estimate(backend));
}

/// More available memory keeps every rung selectable that was, so it keeps a selection, and by
/// default never moves it down the ladder. A selection that stays at its rung does not need less, but
/// where an offload is preferred over a resident rung that only the larger memory holds: the rung may
/// then be carried by a smaller, verified candidate.
pub proof fn law_more_memory_keeps_a_selection<'a>(
    tight: Contest<'a>,
    ample: Contest<'a>,
    preference: MemoryPreference,
    tight_gb: Binary64,
    ample_gb: Binary64,
    x: Selection<'a>,
    y: Selection<'a>,
)
    requires
        tight.available_bytes <= ample.available_bytes,
        ample == (Contest { available_bytes: ample.available_bytes, ..tight }),
        tight.answered(preference, tight_gb, x),
        ample.answered(preference, ample_gb, y),
    ensures
        x is Selected ==> y is Selected,
        x is Selected && preference == MemoryPreference::Default
            ==> y->selection.strategy.depth() <= x->selection.strategy.depth(),
        x is Selected && y->selection.strategy == x->selection.strategy && (preference
            == MemoryPreference::PreferOffload ==> tight.selectable(MemoryStrategy::Resident)
            == ample.selectable(MemoryStrategy::Resident))
            ==> y->Selected_needed_gb.magnitude() >= x->Selected_needed_gb.magnitude(),
{
    if x is Selected {
        if y is Selected && y->selection.strategy == x->selection.strategy && (preference
            == MemoryPreference::PreferOffload ==> tight.selectable(MemoryStrategy::Resident)
            == ample.selectable(MemoryStrategy::Resident)) {
            lemma_larger_choice(tight, ample, preference, tight_gb, ample_gb, x, y);
        }
        law_selected_candidate_is_admitted_and_fits(tight, preference, tight_gb, x);
        let strategy = x->selection.strategy;
        let i = choose|i: int|
            #[trigger] tight.fits(i, strategy) && tight.candidates[i].selection == x->selection;
        lemma_standing_ignores_memory(tight, ample, i, strategy);
        assert(ample.fits(i, strategy));
        assert(ample.selectable(strategy));
        law_selected_rung(ample, preference, ample_gb, y, strategy);
    }
}

/// With more memory the choice of a rung does not need less.
proof fn lemma_larger_choice<'a>(
    tight: Contest<'a>,
    ample: Contest<'a>,
    preference: MemoryPreference,
    tight_gb: Binary64,
    ample_gb: Binary64,
    x: Selection<'a>,
    y: Selection<'a>,
)
    requires
        tight.available_bytes <= ample.available_bytes,
        ample == (Contest { available_bytes: ample.available_bytes, ..tight }),
        tight.answered(preference, tight_gb, x),
        ample.answered(preference, ample_gb, y),
        x is Selected,
        y is Selected,
        y->selection.strategy == x->selection.strategy,
        preference == MemoryPreference::PreferOffload ==> tight.selectable(
            MemoryStrategy::Resident,
        ) == ample.selectable(MemoryStrategy::Resident),
    ensures
        y->Selected_needed_gb.magnitude() >= x->Selected_needed_gb.magnitude(),
{
    let (i, s) = choose|i: int, s: MemoryStrategy|
        {
            &&& #[trigger] tight.carried(i, preference, s)
            &&& x->selection == tight.candidates[i].selection
            &&& x->Selected_needed_gb.magnitude() == crate::binary64::magnitude_of_bytes(
                tight.peak(i) as u64,
            )
        };
    let (j, t) = choose|j: int, t: MemoryStrategy|
        {
            &&& #[trigger] ample.carried(j, preference, t)
            &&& y->selection == ample.candidates[j].selection
            &&& y->Selected_needed_gb.magnitude() == crate::binary64::magnitude_of_bytes(
                ample.peak(j) as u64,
            )
        };
    assert(tight.fits(i, s) && ample.fits(j, t));
    assert(s == t);
    lemma_standing_ignores_memory(tight, ample, i, s);
    lemma_standing_ignores_memory(tight, ample, j, s);
    assert(ample.fits(i, s));
    let before = tight.promoted(preference, s);
    let after = ample.promoted(preference, s);
    if before == after {
        assert(ample.contends(i, s, after));
        assert(!ample.merit(j).beaten_by(ample.merit(i)));
    } else if before {
        assert(tight.contends(i, s, before));
        assert(ample.verified(s));
    } else {
        assert(ample.contends(j, s, after));
        assert(!tight.fits(j, s));
    }
    let p = tight.peak(i) as u64;
    let q = ample.peak(j) as u64;
    assert(p <= q);
    let byte = crate::binary64::two_to(crate::binary64::BYTE_EXPONENT as nat);
    assert(p as nat * byte <= q as nat * byte) by (nonlinear_arith)
        requires
            p <= q,
    ;
    crate::binary64::lemma_nearest_even_monotone(p as nat * byte, q as nat * byte);
}

proof fn lemma_standing_ignores_memory<'a>(
    a: Contest<'a>,
    b: Contest<'a>,
    i: int,
    strategy: MemoryStrategy,
)
    requires
        b == (Contest { available_bytes: b.available_bytes, ..a }),
    ensures
        a.standing(i, strategy) == b.standing(i, strategy),
        a.peak(i) == b.peak(i),
{
    assert forall|j: int| a.admitted(j, strategy) == b.admitted(j, strategy) by {}
    if a.measured(strategy) {
        let j = choose|j: int|
            {
                &&& #[trigger] a.admitted(j, strategy)
                &&& a.admission(j) != Ok::<_, MemoryEvidenceVerdict>(CandidateCurrency::Estimate)
            };
        assert(b.admitted(j, strategy));
    }
    if b.measured(strategy) {
        let j = choose|j: int|
            {
                &&& #[trigger] b.admitted(j, strategy)
                &&& b.admission(j) != Ok::<_, MemoryEvidenceVerdict>(CandidateCurrency::Estimate)
            };
        assert(a.admitted(j, strategy));
    }
    if a.remeasured(i, strategy) {
        let j = choose|j: int|
            {
                &&& #[trigger] a.admitted(j, strategy)
                &&& a.admission(j) == Ok::<_, MemoryEvidenceVerdict>(CandidateCurrency::Current)
                &&& a.candidates[j].evidence.key@ == a.candidates[i].evidence.key@
            };
        assert(b.admitted(j, strategy));
    }
    if b.remeasured(i, strategy) {
        let j = choose|j: int|
            {
                &&& #[trigger] b.admitted(j, strategy)
                &&& b.admission(j) == Ok::<_, MemoryEvidenceVerdict>(CandidateCurrency::Current)
                &&& b.candidates[j].evidence.key@ == b.candidates[i].evidence.key@
            };
        assert(a.admitted(j, strategy));
    }
}

proof fn lemma_counterpart<'a>(a: Contest<'a>, b: Contest<'a>, i: int) -> (j: int)
    requires
        same_offer(a, b),
        0 <= i < a.candidates.len(),
    ensures
        0 <= j < b.candidates.len(),
        b.candidates[j] == a.candidates[i],
{
    let candidate = a.candidates[i];
    assert(a.candidates.contains(candidate));
    assert(a.candidates.to_set().contains(candidate));
    assert(b.candidates.to_set().contains(candidate));
    assert(b.candidates.contains(candidate));
    choose|j: int| 0 <= j < b.candidates.len() && b.candidates[j] == candidate
}

proof fn lemma_measured_carries_over<'a>(a: Contest<'a>, b: Contest<'a>, strategy: MemoryStrategy)
    requires
        same_offer(a, b),
        a.measured(strategy),
    ensures
        b.measured(strategy),
{
    let i = choose|i: int|
        {
            &&& #[trigger] a.admitted(i, strategy)
            &&& a.admission(i) != Ok::<_, MemoryEvidenceVerdict>(CandidateCurrency::Estimate)
        };
    let j = lemma_counterpart(a, b, i);
    assert(b.admitted(j, strategy));
}

proof fn lemma_remeasured_carries_over<'a>(
    a: Contest<'a>,
    b: Contest<'a>,
    i: int,
    j: int,
    strategy: MemoryStrategy,
)
    requires
        same_offer(a, b),
        a.candidates[i] == b.candidates[j],
        a.remeasured(i, strategy),
    ensures
        b.remeasured(j, strategy),
{
    let k = choose|k: int|
        {
            &&& #[trigger] a.admitted(k, strategy)
            &&& a.admission(k) == Ok::<_, MemoryEvidenceVerdict>(CandidateCurrency::Current)
            &&& a.candidates[k].evidence.key@ == a.candidates[i].evidence.key@
        };
    let l = lemma_counterpart(a, b, k);
    assert(b.admitted(l, strategy));
}

/// A candidate stands in one contest as its counterpart does in the other.
proof fn lemma_standing_carries_over<'a>(
    a: Contest<'a>,
    b: Contest<'a>,
    i: int,
    strategy: MemoryStrategy,
) -> (j: int)
    requires
        same_offer(a, b),
        a.standing(i, strategy),
    ensures
        b.standing(j, strategy),
        b.candidates[j] == a.candidates[i],
        b.peak(j) == a.peak(i),
        b.merit(j) == a.merit(i),
        b.fits(j, strategy) == a.fits(i, strategy),
{
    let j = lemma_counterpart(a, b, i);
    assert(same_offer(b, a));
    if b.measured(strategy) {
        lemma_measured_carries_over(b, a, strategy);
    }
    if b.remeasured(j, strategy) {
        lemma_remeasured_carries_over(b, a, j, i, strategy);
    }
    j
}

proof fn lemma_rung_carries_over<'a>(a: Contest<'a>, b: Contest<'a>, strategy: MemoryStrategy)
    requires
        same_offer(a, b),
    ensures
        a.selectable(strategy) ==> b.selectable(strategy),
        b.unknown(strategy) ==> a.unknown(strategy),
        a.unknown_reason(strategy) == b.unknown_reason(strategy),
{
    if a.selectable(strategy) {
        let i = choose|i: int| a.fits(i, strategy);
        let j = lemma_standing_carries_over(a, b, i, strategy);
        assert(b.fits(j, strategy));
    }
    if b.unknown(strategy) {
        assert forall|i: int| !a.standing(i, strategy) by {
            if a.standing(i, strategy) {
                let j = lemma_standing_carries_over(a, b, i, strategy);
                assert(b.standing(j, strategy));
            }
        }
    }
    assert(a.exclusions(strategy) =~= b.exclusions(strategy)) by {
        lemma_exclusions_carry_over(a, b, strategy);
        assert(same_offer(b, a));
        lemma_exclusions_carry_over(b, a, strategy);
    }
}

proof fn lemma_exclusions_carry_over<'a>(a: Contest<'a>, b: Contest<'a>, strategy: MemoryStrategy)
    requires
        same_offer(a, b),
    ensures
        a.exclusions(strategy).subset_of(b.exclusions(strategy)),
{
    reveal(Contest::exclusions);
    assert forall|reason: MemoryEvidenceVerdict| #[trigger]
        a.exclusions(strategy).contains(reason) implies b.exclusions(strategy).contains(
        reason,
    ) by {
        let i = choose|i: int|
            #[trigger] a.submitted(i, strategy) && a.admission(i) == Err::<CandidateCurrency, _>(
                reason,
            );
        let j = lemma_counterpart(a, b, i);
        assert(b.submitted(j, strategy));
    }
}

proof fn lemma_requirement_carries_over<'a>(a: Contest<'a>, b: Contest<'a>, peak: nat)
    requires
        same_offer(a, b),
        a.requirement(peak),
    ensures
        b.requirement(peak),
{
    let (i, s) = choose|i: int, s: MemoryStrategy|
        {
            &&& a.contract.implements(s)
            &&& #[trigger] a.standing(i, s)
            &&& a.peak(i) == peak
        };
    let j = lemma_standing_carries_over(a, b, i, s);
    assert(b.standing(j, s));
}

proof fn lemma_choices_agree<'a>(
    a: Contest<'a>,
    b: Contest<'a>,
    i: int,
    j: int,
    strategy: MemoryStrategy,
    verified_only: bool,
)
    requires
        same_offer(a, b),
        a.chosen(i, strategy, verified_only),
        b.chosen(j, strategy, verified_only),
    ensures
        a.merit(i) == b.merit(j),
        a.peak(i) == b.peak(j),
{
    assert(same_offer(b, a));
    let k = lemma_standing_carries_over(a, b, i, strategy);
    let l = lemma_standing_carries_over(b, a, j, strategy);
    assert(b.contends(k, strategy, verified_only) && a.contends(l, strategy, verified_only));
    law_merits_are_totally_ordered(a.merit(i), b.merit(j), a.merit(i));
}

/// Two fitting candidates of one rung that compare as equal are the same selection.
pub open spec fn ties_agree<'a>(contest: Contest<'a>) -> bool {
    forall|i: int, j: int, strategy: MemoryStrategy|
        #![trigger contest.fits(i, strategy), contest.fits(j, strategy)]
        contest.fits(i, strategy) && contest.fits(j, strategy) && contest.merit(i) == contest.merit(
            j,
        ) ==> contest.candidates[i].selection == contest.candidates[j].selection
}

proof fn lemma_verified_carries_over<'a>(a: Contest<'a>, b: Contest<'a>, strategy: MemoryStrategy)
    requires
        same_offer(a, b),
        a.verified(strategy),
    ensures
        b.verified(strategy),
{
    let i = choose|i: int| #[trigger]
        a.fits(i, strategy) && a.candidates[i].finding.eligibility is Ok;
    let j = lemma_standing_carries_over(a, b, i, strategy);
    assert(b.fits(j, strategy));
}

/// The order in which candidates are submitted does not matter, nor how often: the kind of answer,
/// the rung, the tier, the requirement and the reason stay the same, and so does the whole answer
/// where equally good candidates of a rung stand for the same selection.
pub proof fn law_submission_order_is_irrelevant<'a>(
    a: Contest<'a>,
    b: Contest<'a>,
    preference: MemoryPreference,
    available_gb: Binary64,
    x: Selection<'a>,
    y: Selection<'a>,
)
    requires
        same_offer(a, b),
        a.answered(preference, available_gb, x),
        b.answered(preference, available_gb, y),
    ensures
        match x {
            Selection::Selected { selection, needed_gb, available_gb: reported_gb } => {
                &&& y is Selected
                &&& y->selection.strategy == selection.strategy
                &&& y->selection.tier@ == selection.tier@
                &&& y->Selected_needed_gb == needed_gb
                &&& y->Selected_available_gb == reported_gb
                &&& ties_agree(a) ==> x == y
            },
            _ => x == y,
        },
{
    law_numeric_tier_is_kept(a, preference, available_gb, x);
    law_numeric_tier_is_kept(b, preference, available_gb, y);
    assert(same_offer(b, a));
    assert forall|s: MemoryStrategy| #[trigger] a.selectable(s) == b.selectable(s) by {
        lemma_rung_carries_over(a, b, s);
        lemma_rung_carries_over(b, a, s);
    }
    if exists|s: MemoryStrategy| a.selectable(s) {
        let s0 = choose|s: MemoryStrategy| a.selectable(s);
        assert(b.selectable(s0));
        let (i, s) = choose|i: int, s: MemoryStrategy|
            {
                &&& #[trigger] a.carried(i, preference, s)
                &&& a.preferred(preference, s)
                &&& x->selection == a.candidates[i].selection
                &&& x->Selected_needed_gb.plain()
                &&& x->Selected_needed_gb.magnitude() == crate::binary64::magnitude_of_bytes(
                    a.peak(i) as u64,
                )
            };
        let (j, t) = choose|j: int, t: MemoryStrategy|
            {
                &&& #[trigger] b.carried(j, preference, t)
                &&& b.preferred(preference, t)
                &&& y->selection == b.candidates[j].selection
                &&& y->Selected_needed_gb.plain()
                &&& y->Selected_needed_gb.magnitude() == crate::binary64::magnitude_of_bytes(
                    b.peak(j) as u64,
                )
            };
        assert(a.selectable(s) && b.selectable(s) && b.selectable(t) && a.selectable(t));
        assert forall|r: MemoryStrategy| #[trigger] a.promoted(preference, r) == b.promoted(
            preference,
            r,
        ) by {
            if a.verified(r) {
                lemma_verified_carries_over(a, b, r);
            }
            if b.verified(r) {
                lemma_verified_carries_over(b, a, r);
            }
            assert(a.selectable(MemoryStrategy::Resident) == b.selectable(
                MemoryStrategy::Resident,
            ));
        }
        if s != t {
            assert(a.ahead(preference, s, t) && b.ahead(preference, t, s));
            crate::preference::law_preference_is_decisive(
                preference,
                s,
                a.promoted(preference, s),
                t,
                a.promoted(preference, t),
            );
        }
        lemma_choices_agree(a, b, i, j, s, a.promoted(preference, s));
        crate::binary64::law_magnitude_fixes_the_pattern(
            x->Selected_needed_gb,
            y->Selected_needed_gb,
        );
        assert(a.fits(i, s) && b.fits(j, s));
        if ties_agree(a) {
            let l = lemma_standing_carries_over(b, a, j, s);
            assert(a.fits(l, s));
        }
    } else {
        assert forall|s: MemoryStrategy| !b.selectable(s) by {
            assert(!a.selectable(s));
        }
        assert forall|s: MemoryStrategy| #[trigger]
            a.unknown(s) == b.unknown(s) && a.unknown_reason(s) == b.unknown_reason(s) by {
            lemma_rung_carries_over(a, b, s);
            lemma_rung_carries_over(b, a, s);
        }
        lemma_nothing_fits_alike(a, b, preference, available_gb, x, y);
    }
}

proof fn lemma_nothing_fits_alike<'a>(
    a: Contest<'a>,
    b: Contest<'a>,
    preference: MemoryPreference,
    available_gb: Binary64,
    x: Selection<'a>,
    y: Selection<'a>,
)
    requires
        same_offer(a, b),
        a.answered(preference, available_gb, x),
        b.answered(preference, available_gb, y),
        forall|s: MemoryStrategy| !a.selectable(s),
        forall|s: MemoryStrategy| !b.selectable(s),
        forall|s: MemoryStrategy| #[trigger]
            a.unknown(s) == b.unknown(s) && a.unknown_reason(s) == b.unknown_reason(s),
    ensures
        x == y,
{
    assert(same_offer(b, a));
    assert(a.unknown_reasons() =~= b.unknown_reasons()) by {
        assert forall|r: MemoryEvidenceVerdict|
            a.unknown_reasons().contains(r) == b.unknown_reasons().contains(r) by {
            if a.unknown_reasons().contains(r) {
                let s = choose|s: MemoryStrategy|
                    #[trigger] a.unknown(s) && a.unknown_reason(s) == r;
                assert(b.unknown(s));
            }
            if b.unknown_reasons().contains(r) {
                let s = choose|s: MemoryStrategy|
                    #[trigger] b.unknown(s) && b.unknown_reason(s) == r;
                assert(a.unknown(s));
            }
        }
    }
    assert((exists|s: MemoryStrategy| a.unknown(s)) == (exists|s: MemoryStrategy| b.unknown(s))) by {
        if exists|s: MemoryStrategy| a.unknown(s) {
            let s = choose|s: MemoryStrategy| a.unknown(s);
            assert(b.unknown(s));
        }
        if exists|s: MemoryStrategy| b.unknown(s) {
            let s = choose|s: MemoryStrategy| b.unknown(s);
            assert(a.unknown(s));
        }
    }
    assert forall|peak: nat| #[trigger] a.requirement(peak) == b.requirement(peak) by {
        if a.requirement(peak) {
            lemma_requirement_carries_over(a, b, peak);
        }
        if b.requirement(peak) {
            lemma_requirement_carries_over(b, a, peak);
        }
    }
    if !(exists|s: MemoryStrategy| a.unknown(s)) {
        if exists|peak: nat| a.requirement(peak) {
            let p0 = choose|peak: nat| a.requirement(peak);
            assert(b.requirement(p0));
            let p = choose|peak: nat|
                #[trigger] a.least_requirement(peak) && x->Reject_needed_gb.magnitude()
                    == crate::binary64::magnitude_of_bytes(peak as u64);
            let q = choose|peak: nat|
                #[trigger] b.least_requirement(peak) && y->Reject_needed_gb.magnitude()
                    == crate::binary64::magnitude_of_bytes(peak as u64);
            assert(a.requirement(p) && b.requirement(p) && b.requirement(q) && a.requirement(q));
            assert(p == q);
            crate::binary64::law_magnitude_fixes_the_pattern(
                x->Reject_needed_gb,
                y->Reject_needed_gb,
            );
        } else {
            assert forall|peak: nat| !b.requirement(peak) by {
                assert(!a.requirement(peak));
            }
        }
    }
}

/// Two records that differ at most in their capture provenance.
pub open spec fn same_but_for_provenance(a: MemoryEvidence, b: MemoryEvidence) -> bool {
    &&& a.key == b.key
    &&& a.conformance == b.conformance
    &&& a.dimensions == b.dimensions
    &&& a.predicted_peak_bytes == b.predicted_peak_bytes
}

/// Revisions under which evidence was captured are provenance: they neither admit nor exclude.
pub proof fn law_provenance_is_not_compared(
    request: RequestScope,
    contract: MemoryProviderContract,
    a: Candidate,
    b: Candidate,
)
    requires
        same_but_for_provenance(*a.evidence, *b.evidence),
        a.selection == b.selection,
        a.closure_digest == b.closure_digest,
        a.basis == b.basis,
        a.finding == b.finding,
    ensures
        crate::evidence::admission(request, contract, a) == crate::evidence::admission(
            request,
            contract,
            b,
        ),
{
}

/// Closure currency is a signal, not a gate: the digest decides whether a measurement counts as
/// current or stale, and never whether a candidate is excluded or why.
pub proof fn law_closure_digest_never_excludes<'a>(
    request: RequestScope<'a>,
    contract: MemoryProviderContract,
    candidate: Candidate<'a>,
    digest: &'a str,
)
    ensures
        ({
            let moved = Candidate { closure_digest: digest, ..candidate };
            let before = crate::evidence::admission(request, contract, candidate);
            let after = crate::evidence::admission(request, contract, moved);
            &&& before is Ok <==> after is Ok
            &&& before is Err ==> before == after
            &&& candidate.basis.estimated() ==> before == after
        }),
{
}

/// An admitted measurement is eligible under the provider's contract, and the contract accepts its
/// selection; an admitted estimate at most lacks verification.
pub proof fn law_admitted_candidate_is_eligible(
    request: RequestScope,
    contract: MemoryProviderContract,
    candidate: Candidate,
)
    requires
        crate::evidence::admission(request, contract, candidate) is Ok,
    ensures
        crate::evidence::identity_bound(request, contract, candidate),
        crate::evidence::within_envelope(request, candidate),
        candidate.finding.selection_accepted,
        !candidate.basis.estimated() ==> candidate.finding.eligibility is Ok,
        candidate.basis.estimated() ==> candidate.finding.eligibility is Ok
            || candidate.finding.eligibility == Err::<(), _>(MemoryEvidenceVerdict::Unverified),
{
}

} // verus!
