//! What decides a selection, read off the candidates, the provider's contract, the margins and the
//! budget.

use crate::binary64::Binary64;
use crate::budget::Budget;
use crate::evidence::{Candidate, CandidateCurrency, MemoryEvidenceKey, MemoryMode, RequestScope};
use crate::ladder::MemoryStrategy;
use crate::margin::MarginPolicy;
use crate::preference::MemoryPreference;
use crate::provider::{
    MemoryBackend, MemoryCleanupSemantics, MemoryProviderContract, MemoryStrategySupport,
};
use crate::selector::{Contest, Selection};
use crate::verdict::MemoryEvidenceVerdict;
use vstd::prelude::*;

verus! {

/// A rung is implemented where the entry of its own strategy declares it so.
pub proof fn law_support_is_read_off_the_declaration(contract: MemoryProviderContract)
    ensures
        contract.implements(MemoryStrategy::Resident) <==> contract.support.resident == Some(
            MemoryStrategySupport::Implemented,
        ),
        contract.implements(MemoryStrategy::StagedResidency)
            <==> contract.support.staged_residency == Some(MemoryStrategySupport::Implemented),
        contract.implements(MemoryStrategy::BoundedDecode) <==> contract.support.bounded_decode
            == Some(MemoryStrategySupport::Implemented),
        contract.implements(MemoryStrategy::BoundedAttention)
            <==> contract.support.bounded_attention == Some(MemoryStrategySupport::Implemented),
        contract.implements(MemoryStrategy::BoundedTransformerResidency)
            <==> contract.support.bounded_transformer_residency == Some(
            MemoryStrategySupport::Implemented,
        ),
{
}

/// A candidate stands at a rung exactly where it was submitted for it, is admitted and is not
/// superseded. A current measurement is never superseded. A stale one is superseded by a current one at
/// the rung whose evidence key is equal to its own, and by nothing else. An estimate is superseded by
/// any measurement at the rung, and by nothing else.
pub proof fn law_who_stands<'a>(contest: Contest<'a>, i: int, strategy: MemoryStrategy)
    ensures
        contest.standing(i, strategy) <==> {
            &&& 0 <= i < contest.candidates.len()
            &&& contest.candidates[i].selection.strategy == strategy
            &&& match crate::evidence::admission(
                contest.request,
                contest.contract,
                contest.candidates[i],
            ) {
                Ok(CandidateCurrency::Current) => true,
                Ok(CandidateCurrency::StaleClosure) => forall|j: int|
                    {
                        &&& 0 <= j < contest.candidates.len()
                        &&& (#[trigger] contest.candidates[j]).selection.strategy == strategy
                        &&& contest.candidates[j].evidence.key@
                            == contest.candidates[i].evidence.key@
                    } ==> crate::evidence::admission(
                        contest.request,
                        contest.contract,
                        contest.candidates[j],
                    ) != Ok::<_, MemoryEvidenceVerdict>(CandidateCurrency::Current),
                Ok(CandidateCurrency::Estimate) => forall|j: int|
                    {
                        &&& 0 <= j < contest.candidates.len()
                        &&& (#[trigger] contest.candidates[j]).selection.strategy == strategy
                    } ==> match crate::evidence::admission(
                        contest.request,
                        contest.contract,
                        contest.candidates[j],
                    ) {
                        Ok(currency) => currency == CandidateCurrency::Estimate,
                        Err(_) => true,
                    },
                Err(_) => false,
            }
        },
{
    assert forall|j: int|
        0 <= j < contest.candidates.len() && (#[trigger] contest.candidates[j]).selection.strategy
            == strategy && crate::evidence::admission(
            contest.request,
            contest.contract,
            contest.candidates[j],
        ) is Ok implies contest.admitted(j, strategy) by {}
}

/// A stale measurement that is admitted at a rung stands there whenever no current measurement that is
/// admitted at the rung has an evidence key equal to its own.
pub proof fn law_other_cells_do_not_supersede<'a>(
    contest: Contest<'a>,
    strategy: MemoryStrategy,
    stale: int,
)
    requires
        0 <= stale < contest.candidates.len(),
        contest.candidates[stale].selection.strategy == strategy,
        contest.admission(stale) == Ok::<_, MemoryEvidenceVerdict>(CandidateCurrency::StaleClosure),
        forall|j: int|
            {
                &&& 0 <= j < contest.candidates.len()
                &&& (#[trigger] contest.candidates[j]).selection.strategy == strategy
                &&& contest.admission(j) == Ok::<_, MemoryEvidenceVerdict>(
                    CandidateCurrency::Current,
                )
            } ==> contest.candidates[j].evidence.key@ != contest.candidates[stale].evidence.key@,
    ensures
        contest.standing(stale, strategy),
{
    law_who_stands(contest, stale, strategy);
}

/// Two evidence keys that differ in some field.
pub open spec fn differ(a: MemoryEvidenceKey, b: MemoryEvidenceKey) -> bool {
    ||| a.model_family@ != b.model_family@
    ||| a.resolved_route@ != b.resolved_route@
    ||| a.backend != b.backend
    ||| a.tier@ != b.tier@
    ||| a.load_shape != b.load_shape
    ||| a.mode is TextToImage != b.mode is TextToImage
    ||| a.mode is ImageToImage != b.mode is ImageToImage
    ||| a.mode is Edit != b.mode is Edit
    ||| match (a.mode, b.mode) {
        (MemoryMode::Other(x), MemoryMode::Other(y)) => x@ != y@,
        _ => false,
    }
    ||| a.reference_shape is Some != b.reference_shape is Some
    ||| a.reference_shape is Some && a.reference_shape->Some_0@ != b.reference_shape->Some_0@
    ||| a.overlay is Some != b.overlay is Some
    ||| a.overlay is Some && a.overlay->Some_0@ != b.overlay->Some_0@
    ||| a.geometry.width != b.geometry.width
    ||| a.geometry.height != b.geometry.height
    ||| a.geometry.batch != b.geometry.batch
    ||| a.geometry.frames != b.geometry.frames
    ||| a.geometry.reference_count != b.geometry.reference_count
    ||| a.frames_per_second != b.frames_per_second
    ||| a.strategy != b.strategy
    ||| a.engaged_composition@ != b.engaged_composition@
    ||| a.parameters.decode_tile_edge != b.parameters.decode_tile_edge
    ||| a.parameters.decode_overlap != b.parameters.decode_overlap
    ||| a.parameters.attention_chunk_size != b.parameters.attention_chunk_size
    ||| a.parameters.transformer_window_size != b.parameters.transformer_window_size
    ||| a.parameters@ != b.parameters@
}

/// Submitting one more candidate leaves a standing stale measurement standing where the keys of their
/// evidence differ in any field, for instance in a single parameter, even if the new one is a current
/// measurement at the same rung.
pub proof fn law_new_cell_keeps_stale_measurements_standing<'a>(
    contest: Contest<'a>,
    added: Candidate<'a>,
    strategy: MemoryStrategy,
    stale: int,
)
    requires
        contest.standing(stale, strategy),
        contest.admission(stale) == Ok::<_, MemoryEvidenceVerdict>(CandidateCurrency::StaleClosure),
        differ(added.evidence.key, contest.candidates[stale].evidence.key),
    ensures
        (Contest { candidates: contest.candidates.push(added), ..contest }).standing(stale, strategy),
{
    let extended = Contest { candidates: contest.candidates.push(added), ..contest };
    law_who_stands(contest, stale, strategy);
    law_who_stands(extended, stale, strategy);
    if added.evidence.key@ == contest.candidates[stale].evidence.key@ {
        crate::admission_laws::law_equal_keys_agree_in_every_field(
            added.evidence.key,
            contest.candidates[stale].evidence.key,
        );
        crate::admission_laws::law_equal_parameters_agree_in_every_field(
            added.evidence.key.parameters,
            contest.candidates[stale].evidence.key.parameters,
        );
    }
    assert forall|j: int|
        0 <= j < extended.candidates.len() && (#[trigger] extended.candidates[j]).selection.strategy
            == strategy && extended.candidates[j].evidence.key@
            == extended.candidates[stale].evidence.key@ implies crate::evidence::admission(
        extended.request,
        extended.contract,
        extended.candidates[j],
    ) != Ok::<_, MemoryEvidenceVerdict>(CandidateCurrency::Current) by {
        if j < contest.candidates.len() {
            assert(extended.candidates[j] == contest.candidates[j]);
        }
    }
}

/// A current measurement of the same key takes a stale measurement's place when it is submitted.
pub proof fn law_remeasurement_supersedes<'a>(
    contest: Contest<'a>,
    added: Candidate<'a>,
    strategy: MemoryStrategy,
    stale: int,
)
    requires
        0 <= stale < contest.candidates.len(),
        contest.admission(stale) == Ok::<_, MemoryEvidenceVerdict>(CandidateCurrency::StaleClosure),
        added.selection.strategy == strategy,
        crate::evidence::admission(contest.request, contest.contract, added) == Ok::<
            _,
            MemoryEvidenceVerdict,
        >(CandidateCurrency::Current),
        added.evidence.key@ == contest.candidates[stale].evidence.key@,
    ensures
        ({
            let extended = Contest { candidates: contest.candidates.push(added), ..contest };
            &&& !extended.standing(stale, strategy)
            &&& extended.standing(contest.candidates.len() as int, strategy)
        }),
{
    let extended = Contest { candidates: contest.candidates.push(added), ..contest };
    let last = contest.candidates.len() as int;
    law_who_stands(extended, stale, strategy);
    law_who_stands(extended, last, strategy);
    assert(extended.candidates[last] == added);
    assert(extended.candidates[stale] == contest.candidates[stale]);
}

/// A candidate that is excluded, or submitted for another rung, supersedes nothing at a rung and
/// rescues nothing there: the candidates before it stand as they did.
pub proof fn law_only_admitted_candidates_of_the_rung_supersede<'a>(
    contest: Contest<'a>,
    added: Candidate<'a>,
    strategy: MemoryStrategy,
    i: int,
)
    requires
        0 <= i < contest.candidates.len(),
        added.selection.strategy != strategy || crate::evidence::admission(
            contest.request,
            contest.contract,
            added,
        ) is Err,
    ensures
        (Contest { candidates: contest.candidates.push(added), ..contest }).standing(i, strategy)
            <==> contest.standing(i, strategy),
{
    let extended = Contest { candidates: contest.candidates.push(added), ..contest };
    law_who_stands(contest, i, strategy);
    law_who_stands(extended, i, strategy);
    assert forall|j: int| 0 <= j < contest.candidates.len() implies #[trigger] extended.candidates[j]
        == contest.candidates[j] by {}
    assert forall|j: int| 0 <= j < contest.candidates.len() implies #[trigger] contest.candidates[j]
        == extended.candidates[j] by {}
    assert(extended.candidates[contest.candidates.len() as int] == added);
}

/// A current measurement is graded at its own peak. Any other candidate is graded at its peak widened
/// by the margin of the backend that the provider runs on, a stale measurement by that for stale
/// measurements and an estimate by that for estimates.
pub proof fn law_graded_peak<'a>(contest: Contest<'a>, i: int)
    ensures
        ({
            let predicted = contest.candidates[i].evidence.predicted_peak_bytes;
            let candle = contest.contract.backend_kind == MemoryBackend::Candle;
            match crate::evidence::admission(
                contest.request,
                contest.contract,
                contest.candidates[i],
            ) {
                Ok(CandidateCurrency::Current) => contest.peak(i) == predicted,
                Ok(CandidateCurrency::StaleClosure) => contest.peak(i) == crate::margin::widened(
                    predicted,
                    if candle {
                        contest.policy.candle_stale_measured
                    } else {
                        contest.policy.mlx_stale_measured
                    },
                ),
                Ok(CandidateCurrency::Estimate) => contest.peak(i) == crate::margin::widened(
                    predicted,
                    if candle {
                        contest.policy.candle_estimate
                    } else {
                        contest.policy.mlx_estimate
                    },
                ),
                Err(_) => true,
            }
        }),
{
}

/// A standing candidate fits exactly where its graded peak is at most what is available, equality
/// included, and contends for the verified choice exactly where its evidence is eligible besides.
pub proof fn law_what_fits<'a>(contest: Contest<'a>, i: int, strategy: MemoryStrategy)
    ensures
        contest.contends(i, strategy, false) <==> contest.standing(i, strategy) && contest.peak(i)
            <= contest.available_bytes,
        contest.contends(i, strategy, true) <==> contest.standing(i, strategy) && contest.peak(i)
            <= contest.available_bytes && contest.candidates[i].finding.eligibility is Ok,
        contest.fits(i, strategy) <==> contest.contends(i, strategy, false),
{
}

/// The choice of a rung has the largest peak of those that contend. Of equal peaks it has the best
/// currency; then the largest decode tile, attention chunk, transformer window and decode overlap, in
/// this order, where a parameter that is not named counts as zero; and of equal ones it is the last.
pub proof fn law_choice_of_a_rung<'a>(
    contest: Contest<'a>,
    strategy: MemoryStrategy,
    verified_only: bool,
    i: int,
    j: int,
)
    requires
        contest.chosen(i, strategy, verified_only),
        contest.contends(j, strategy, verified_only),
        i != j,
    ensures
        ({
            let figure = |parameter: Option<u32>|
                match parameter {
                    Some(value) => value as int,
                    None => 0int,
                };
            let x = contest.admission(i);
            let y = contest.admission(j);
            let p = contest.candidates[i].selection.parameters;
            let q = contest.candidates[j].selection.parameters;
            let same_currency = contest.peak(j) == contest.peak(i) && x == y;
            let same_edge = same_currency && figure(q.decode_tile_edge) == figure(p.decode_tile_edge);
            let same_chunk = same_edge && figure(q.attention_chunk_size) == figure(
                p.attention_chunk_size,
            );
            let same_window = same_chunk && figure(q.transformer_window_size) == figure(
                p.transformer_window_size,
            );
            let same_overlap = same_window && figure(q.decode_overlap) == figure(p.decode_overlap);
            &&& contest.contends(i, strategy, verified_only)
            &&& contest.peak(j) <= contest.peak(i)
            &&& contest.peak(j) == contest.peak(i) && y == Ok::<_, MemoryEvidenceVerdict>(
                CandidateCurrency::Current,
            ) ==> x == y
            &&& contest.peak(j) == contest.peak(i) && y == Ok::<_, MemoryEvidenceVerdict>(
                CandidateCurrency::StaleClosure,
            ) ==> x != Ok::<_, MemoryEvidenceVerdict>(CandidateCurrency::Estimate)
            &&& same_currency ==> figure(q.decode_tile_edge) <= figure(p.decode_tile_edge)
            &&& same_edge ==> figure(q.attention_chunk_size) <= figure(p.attention_chunk_size)
            &&& same_chunk ==> figure(q.transformer_window_size) <= figure(
                p.transformer_window_size,
            )
            &&& same_window ==> figure(q.decode_overlap) <= figure(p.decode_overlap)
            &&& same_overlap ==> j < i
        }),
{
}

/// A rung is selectable exactly where it is implemented and a candidate of it fits, unknown exactly
/// where it is implemented and none of its candidates is admitted, and verified exactly where an
/// eligible candidate of it fits.
pub proof fn law_states_of_a_rung<'a>(contest: Contest<'a>, strategy: MemoryStrategy)
    ensures
        contest.selectable(strategy) <==> contest.contract.implements(strategy) && exists|i: int|
            contest.contends(i, strategy, false),
        contest.verified(strategy) <==> exists|i: int| contest.contends(i, strategy, true),
        contest.unknown(strategy) <==> contest.contract.implements(strategy) && forall|i: int|
            {
                &&& 0 <= i < contest.candidates.len()
                &&& (#[trigger] contest.candidates[i]).selection.strategy == strategy
            } ==> crate::evidence::admission(
                contest.request,
                contest.contract,
                contest.candidates[i],
            ) is Err,
{
    if contest.selectable(strategy) {
        let i = choose|i: int| contest.fits(i, strategy);
        assert(contest.contends(i, strategy, false));
    }
    if exists|i: int| contest.contends(i, strategy, false) {
        let i = choose|i: int| contest.contends(i, strategy, false);
        assert(contest.fits(i, strategy));
    }
    if contest.verified(strategy) {
        let i = choose|i: int| #[trigger]
            contest.fits(i, strategy) && contest.candidates[i].finding.eligibility is Ok;
        assert(contest.contends(i, strategy, true));
    }
    if exists|i: int| contest.contends(i, strategy, true) {
        let i = choose|i: int| contest.contends(i, strategy, true);
        assert(contest.fits(i, strategy));
    }
    assert forall|i: int| #[trigger] contest.standing(i, strategy) implies {
        &&& 0 <= i < contest.candidates.len()
        &&& contest.candidates[i].selection.strategy == strategy
        &&& crate::evidence::admission(
            contest.request,
            contest.contract,
            contest.candidates[i],
        ) is Ok
    } by {
        law_who_stands(contest, i, strategy);
    }
    if contest.unknown(strategy) {
        assert forall|i: int|
            0 <= i < contest.candidates.len() && (
            #[trigger] contest.candidates[i]).selection.strategy == strategy implies
            crate::evidence::admission(
            contest.request,
            contest.contract,
            contest.candidates[i],
        ) is Err by {
            if contest.admission(i) is Ok {
                assert(contest.admitted(i, strategy));
                crate::laws::law_superseding_leaves_a_candidate(contest, strategy, i);
            }
        }
    }
}

/// A rung is carried by the choice of all its candidates that fit, and by the choice of the verified
/// ones exactly where an offload is preferred to it: the rung is verified and not the resident one,
/// and either the most offload is preferred, or an offload is preferred and the resident rung is
/// selectable.
pub proof fn law_who_carries_a_rung<'a>(
    contest: Contest<'a>,
    preference: MemoryPreference,
    strategy: MemoryStrategy,
    i: int,
)
    ensures
        ({
            let offloads = strategy != MemoryStrategy::Resident && contest.verified(strategy) && (
            preference == MemoryPreference::MaxOffload || (preference
                == MemoryPreference::PreferOffload && contest.selectable(MemoryStrategy::Resident)));
            contest.carried(i, preference, strategy) <==> contest.chosen(i, strategy, offloads)
        }),
{
}

/// A selection is that of the candidate that carries its rung, and reports what that candidate needs,
/// in GiB rounded to the nearest number, and what the budget leaves.
pub proof fn law_selection_reports_its_figures<'a>(
    contest: Contest<'a>,
    preference: MemoryPreference,
    available_gb: Binary64,
    answer: Selection<'a>,
) -> (i: int)
    requires
        contest.answered(preference, available_gb, answer),
        answer is Selected,
    ensures
        contest.selectable(answer->selection.strategy),
        contest.carried(i, preference, answer->selection.strategy),
        answer->selection == contest.candidates[i].selection,
        answer->Selected_available_gb == available_gb,
        answer->Selected_needed_gb.plain(),
        answer->Selected_needed_gb.magnitude() == crate::binary64::nearest_even(
            contest.peak(i) * crate::binary64::two_to(1044),
        ),
{
    let (i, strategy) = choose|i: int, strategy: MemoryStrategy|
        {
            &&& #[trigger] contest.carried(i, preference, strategy)
            &&& contest.preferred(preference, strategy)
            &&& answer matches Selection::Selected {
                selection,
                needed_gb,
                available_gb: reported_gb,
            }
            &&& selection == contest.candidates[i].selection
            &&& needed_gb.plain()
            &&& needed_gb.magnitude() == crate::binary64::magnitude_of_bytes(contest.peak(i) as u64)
            &&& reported_gb == available_gb
        };
    lemma_peak_is_a_count(contest, i);
    i
}

proof fn lemma_peak_is_a_count<'a>(contest: Contest<'a>, i: int)
    ensures
        contest.peak(i) <= u64::MAX,
{
}

/// Where no rung is selectable, an implemented rung without an admitted candidate leaves the answer
/// unverified, and so does a provider that implements nothing. Else the request is rejected.
pub proof fn law_kind_of_the_answer<'a>(
    contest: Contest<'a>,
    preference: MemoryPreference,
    available_gb: Binary64,
    answer: Selection<'a>,
)
    requires
        contest.answered(preference, available_gb, answer),
        forall|strategy: MemoryStrategy| !contest.selectable(strategy),
    ensures
        answer is Unverified <==> {
            ||| exists|strategy: MemoryStrategy| contest.unknown(strategy)
            ||| forall|strategy: MemoryStrategy| !contest.contract.implements(strategy)
        },
        answer is Reject <==> !(answer is Unverified),
{
    if forall|strategy: MemoryStrategy| !contest.contract.implements(strategy) {
        assert forall|peak: nat| !contest.requirement(peak) by {}
    } else {
        let strategy = choose|strategy: MemoryStrategy| contest.contract.implements(strategy);
        if !contest.unknown(strategy) {
            let i = choose|i: int| contest.standing(i, strategy);
            assert(contest.standing(i, strategy));
            assert(contest.requirement(contest.peak(i)));
        }
    }
}

/// A rejected request has at every implemented rung an admitted candidate, and none of these fits. The
/// answer reports the least that a standing one needs, and what the budget leaves.
pub proof fn law_rejection_reports_the_least_requirement<'a>(
    contest: Contest<'a>,
    preference: MemoryPreference,
    available_gb: Binary64,
    answer: Selection<'a>,
) -> (least: (int, MemoryStrategy))
    requires
        contest.answered(preference, available_gb, answer),
        answer is Reject,
    ensures
        contest.contract.implements(least.1),
        contest.standing(least.0, least.1),
        contest.peak(least.0) > contest.available_bytes,
        forall|i: int, strategy: MemoryStrategy|
            contest.contract.implements(strategy) && #[trigger] contest.standing(i, strategy)
                ==> contest.peak(least.0) <= contest.peak(i),
        forall|strategy: MemoryStrategy|
            contest.contract.implements(strategy) ==> !#[trigger] contest.unknown(strategy),
        answer->Reject_available_gb == available_gb,
        answer->Reject_needed_gb.plain(),
        answer->Reject_needed_gb.magnitude() == crate::binary64::nearest_even(
            contest.peak(least.0) * crate::binary64::two_to(1044),
        ),
{
    let peak = choose|peak: nat|
        {
            &&& #[trigger] contest.least_requirement(peak)
            &&& answer matches Selection::Reject { needed_gb, available_gb: reported_gb }
            &&& needed_gb.plain()
            &&& needed_gb.magnitude() == crate::binary64::magnitude_of_bytes(peak as u64)
            &&& reported_gb == available_gb
        };
    let (i, strategy) = choose|i: int, strategy: MemoryStrategy|
        {
            &&& contest.contract.implements(strategy)
            &&& #[trigger] contest.standing(i, strategy)
            &&& contest.peak(i) == peak
        };
    lemma_peak_is_a_count(contest, i);
    assert(!contest.selectable(strategy));
    assert(!contest.fits(i, strategy));
    assert forall|j: int, other: MemoryStrategy|
        contest.contract.implements(other) && #[trigger] contest.standing(j, other) implies peak
        <= contest.peak(j) by {
        assert(contest.requirement(contest.peak(j)));
    }
    (i, strategy)
}

/// The reason of an unverified answer is the most specific that an implemented rung without an admitted
/// candidate gives: the exclusions of its candidates or, where none was submitted for it, that evidence
/// is missing. It is never made up: some such rung gives it, unless no rung is implemented at all.
pub proof fn law_unverified_answer_gives_the_most_specific_reason<'a>(
    contest: Contest<'a>,
    preference: MemoryPreference,
    available_gb: Binary64,
    reason: MemoryEvidenceVerdict,
)
    requires
        contest.answered(preference, available_gb, Selection::Unverified { reason }),
    ensures
        forall|i: int|
            #![trigger contest.candidates[i]]
            {
                &&& 0 <= i < contest.candidates.len()
                &&& contest.unknown(contest.candidates[i].selection.strategy)
            } ==> crate::verdict::priority(contest.admission(i)->Err_0) <= crate::verdict::priority(
                reason,
            ),
        forall|strategy: MemoryStrategy| #[trigger]
            contest.unknown(strategy) && (forall|i: int|
                0 <= i < contest.candidates.len() ==> (
                #[trigger] contest.candidates[i]).selection.strategy != strategy)
                ==> crate::verdict::priority(MemoryEvidenceVerdict::Missing)
                <= crate::verdict::priority(reason),
        ({
            ||| exists|i: int|
                {
                    &&& 0 <= i < contest.candidates.len()
                    &&& contest.unknown((#[trigger] contest.candidates[i]).selection.strategy)
                    &&& contest.admission(i) == Err::<CandidateCurrency, _>(reason)
                }
            ||| reason == MemoryEvidenceVerdict::Missing && exists|strategy: MemoryStrategy|
                #[trigger] contest.unknown(strategy) && forall|i: int|
                    0 <= i < contest.candidates.len() ==> (
                    #[trigger] contest.candidates[i]).selection.strategy != strategy
            ||| reason == MemoryEvidenceVerdict::Missing && forall|strategy: MemoryStrategy|
                !contest.contract.implements(strategy)
        }),
{
    let reasons = contest.unknown_reasons();
    assert forall|i: int|
        #![trigger contest.candidates[i]]
        0 <= i < contest.candidates.len() && contest.unknown(
            contest.candidates[i].selection.strategy,
        ) implies crate::verdict::priority(contest.admission(i)->Err_0) <= crate::verdict::priority(
        reason,
    ) by {
        let strategy = contest.candidates[i].selection.strategy;
        law_states_of_a_rung(contest, strategy);
        lemma_exclusion_is_weighed(contest, strategy, i);
        crate::verdict::law_aggregate_is_most_specific(reasons);
        assert(reasons.contains(contest.unknown_reason(strategy)));
    }
    assert forall|strategy: MemoryStrategy| #[trigger]
        contest.unknown(strategy) && (forall|i: int|
            0 <= i < contest.candidates.len() ==> (
            #[trigger] contest.candidates[i]).selection.strategy != strategy) implies
        crate::verdict::priority(MemoryEvidenceVerdict::Missing) <= crate::verdict::priority(
        reason,
    ) by {
        lemma_no_exclusion(contest, strategy);
        crate::verdict::law_aggregate_is_most_specific(reasons);
        assert(reasons.contains(contest.unknown_reason(strategy)));
    }
    if exists|strategy: MemoryStrategy| contest.unknown(strategy) {
        let some = choose|strategy: MemoryStrategy| contest.unknown(strategy);
        assert(reasons.contains(contest.unknown_reason(some)));
        crate::verdict::law_aggregate_is_most_specific(reasons);
        assert(reasons.contains(reason));
        let strategy = choose|strategy: MemoryStrategy| #[trigger]
            contest.unknown(strategy) && contest.unknown_reason(strategy) == reason;
        lemma_reason_is_an_exclusion(contest, strategy);
    } else {
        if exists|strategy: MemoryStrategy| contest.contract.implements(strategy) {
            let strategy = choose|strategy: MemoryStrategy| contest.contract.implements(strategy);
            let i = choose|i: int| contest.standing(i, strategy);
            assert(!contest.unknown(strategy));
            assert(contest.standing(i, strategy));
            assert(contest.requirement(contest.peak(i)));
        }
    }
}

proof fn lemma_exclusion_is_weighed<'a>(contest: Contest<'a>, strategy: MemoryStrategy, i: int)
    requires
        0 <= i < contest.candidates.len(),
        contest.candidates[i].selection.strategy == strategy,
        contest.admission(i) is Err,
    ensures
        crate::verdict::priority(contest.admission(i)->Err_0) <= crate::verdict::priority(
            contest.unknown_reason(strategy),
        ),
{
    reveal(Contest::exclusions);
    let exclusions = contest.exclusions(strategy);
    assert(contest.submitted(i, strategy));
    assert(exclusions.contains(contest.admission(i)->Err_0));
    crate::verdict::law_aggregate_is_most_specific(exclusions);
}

proof fn lemma_no_exclusion<'a>(contest: Contest<'a>, strategy: MemoryStrategy)
    requires
        forall|i: int|
            0 <= i < contest.candidates.len() ==> (
            #[trigger] contest.candidates[i]).selection.strategy != strategy,
    ensures
        contest.unknown_reason(strategy) == MemoryEvidenceVerdict::Missing,
{
    reveal(Contest::exclusions);
}

proof fn lemma_reason_is_an_exclusion<'a>(contest: Contest<'a>, strategy: MemoryStrategy)
    requires
        contest.unknown(strategy),
    ensures
        ({
            let reason = contest.unknown_reason(strategy);
            ||| exists|i: int|
                {
                    &&& 0 <= i < contest.candidates.len()
                    &&& (#[trigger] contest.candidates[i]).selection.strategy == strategy
                    &&& contest.admission(i) == Err::<CandidateCurrency, _>(reason)
                }
            ||| reason == MemoryEvidenceVerdict::Missing && forall|i: int|
                0 <= i < contest.candidates.len() ==> (
                #[trigger] contest.candidates[i]).selection.strategy != strategy
        }),
{
    law_states_of_a_rung(contest, strategy);
    let reason = contest.unknown_reason(strategy);
    let exclusions = contest.exclusions(strategy);
    if exists|i: int|
        0 <= i < contest.candidates.len() && (
        #[trigger] contest.candidates[i]).selection.strategy == strategy {
        let some = choose|i: int|
            0 <= i < contest.candidates.len() && (
            #[trigger] contest.candidates[i]).selection.strategy == strategy;
        reveal(Contest::exclusions);
        assert(contest.submitted(some, strategy));
        assert(exclusions.contains(contest.admission(some)->Err_0));
        crate::verdict::law_aggregate_is_most_specific(exclusions);
        assert(exclusions.contains(reason));
        let i = choose|i: int| #[trigger]
            contest.submitted(i, strategy) && contest.admission(i) == Err::<CandidateCurrency, _>(
                reason,
            );
        assert(contest.candidates[i].selection.strategy == strategy);
    } else {
        lemma_no_exclusion(contest, strategy);
    }
}

/// A contract with a conformance error, or whose cancellation or error cleanup does not synchronize and
/// release everything that was active, makes any request invalid. Under any other contract a request
/// without a coherent budget lacks its evidence. All other requests are answered by the contest that the
/// inputs themselves make, in the bytes that the budget leaves.
pub proof fn law_what_is_decided<'a>(
    preference: MemoryPreference,
    request: RequestScope<'a>,
    contract: MemoryProviderContract,
    policy: MarginPolicy,
    budget: Option<Budget>,
    candidates: Seq<Candidate<'a>>,
    answer: Selection<'a>,
)
    requires
        crate::selector::decided(
            preference,
            request,
            contract,
            policy,
            budget,
            candidates,
            answer,
        ),
    ensures
        ({
            let cleanup = MemoryCleanupSemantics::SynchronizeAndReleaseActivePhasesAndWindows;
            let sound = contract.conformance_errors@.len() == 0 && contract.cancellation == cleanup
                && contract.error == cleanup;
            &&& !sound ==> answer == (Selection::Unverified {
                reason: MemoryEvidenceVerdict::Invalid,
            })
            &&& sound && (budget is None || !budget->Some_0.coherent()) ==> answer == (
            Selection::Unverified { reason: MemoryEvidenceVerdict::Missing })
            &&& sound && budget is Some && budget->Some_0.coherent() ==> exists|gb: Binary64|
                {
                    &&& gb.plain()
                    &&& gb.magnitude() == budget->Some_0.effective_magnitude()
                    &&& #[trigger] (Contest {
                        request,
                        contract,
                        policy,
                        candidates,
                        available_bytes: budget->Some_0.effective_bytes(),
                    }).answered(preference, gb, answer)
                }
        }),
{
}

} // verus!
