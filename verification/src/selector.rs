//! Selection of a memory strategy: which rung of the ladder a request runs on.

use crate::binary64::{peak_bytes_to_gb, Binary64};
use crate::budget::Budget;
use crate::evidence::{
    candidate_exclusion, Candidate, CandidateCurrency, MemorySelection, RequestScope,
};
use crate::ladder::MemoryStrategy;
use crate::margin::{estimate_margin, stale_measured_margin, widened_peak_bytes, MarginPolicy};
use crate::preference::MemoryPreference;
use crate::provider::MemoryProviderContract;
use crate::verdict::{accumulate_reason, MemoryEvidenceVerdict};
use vstd::prelude::*;

verus! {

/// What the selector decides.
#[derive(Clone, Copy, Debug, PartialEq, Eq)]
pub enum Selection<'a> {
    /// Run with `selection`, which needs `needed_gb`.
    Selected { selection: MemorySelection<'a>, needed_gb: Binary64, available_gb: Binary64 },
    /// Nothing admitted fits; the least of it needs `needed_gb`.
    Reject { needed_gb: Binary64, available_gb: Binary64 },
    /// The evidence does not support an answer.
    Unverified { reason: MemoryEvidenceVerdict },
}

/// By what a fitting candidate of a rung is compared with another: first the peak, then the currency,
/// then the parameters.
pub struct Merit {
    pub peak: nat,
    pub rank: int,
    pub decode_tile_edge: nat,
    pub attention_chunk_size: nat,
    pub transformer_window_size: nat,
    pub decode_overlap: nat,
}

impl Merit {
    /// `self` is beaten by `other` on the first figure in which they differ.
    pub open spec fn beaten_by(self, other: Merit) -> bool {
        if self.peak != other.peak {
            self.peak < other.peak
        } else if self.rank != other.rank {
            self.rank < other.rank
        } else if self.decode_tile_edge != other.decode_tile_edge {
            self.decode_tile_edge < other.decode_tile_edge
        } else if self.attention_chunk_size != other.attention_chunk_size {
            self.attention_chunk_size < other.attention_chunk_size
        } else if self.transformer_window_size != other.transformer_window_size {
            self.transformer_window_size < other.transformer_window_size
        } else {
            self.decode_overlap < other.decode_overlap
        }
    }
}

/// A parameter, or zero where it is not named.
pub open spec fn parameter_or_zero(parameter: Option<u32>) -> nat {
    match parameter {
        Some(value) => value as nat,
        None => 0,
    }
}

/// The byte ceiling at which an admitted candidate is graded: the evidence's own for a current
/// measurement, widened by the backend's margin otherwise.
pub open spec fn admitted_peak(
    predicted_peak_bytes: u64,
    currency: CandidateCurrency,
    policy: MarginPolicy,
    backend: crate::provider::MemoryBackend,
) -> nat {
    match currency {
        CandidateCurrency::Current => predicted_peak_bytes as nat,
        CandidateCurrency::StaleClosure => crate::margin::widened(
            predicted_peak_bytes,
            policy.stale_measured(backend),
        ),
        CandidateCurrency::Estimate => crate::margin::widened(
            predicted_peak_bytes,
            policy.estimate(backend),
        ),
    }
}

/// Everything that decides a selection but the preference.
pub struct Contest<'a> {
    pub request: RequestScope<'a>,
    pub contract: MemoryProviderContract,
    pub policy: MarginPolicy,
    pub candidates: Seq<Candidate<'a>>,
    pub available_bytes: nat,
}

impl<'a> Contest<'a> {
    /// How the candidate at `i` is admitted, or why it is excluded.
    pub open spec fn admission(self, i: int) -> Result<CandidateCurrency, MemoryEvidenceVerdict> {
        crate::evidence::admission(self.request, self.contract, self.candidates[i])
    }

    /// The candidate at `i` was submitted for `strategy`.
    pub open spec fn submitted(self, i: int, strategy: MemoryStrategy) -> bool {
        &&& 0 <= i < self.candidates.len()
        &&& self.candidates[i].selection.strategy == strategy
    }

    /// The candidate at `i` was submitted for `strategy` and admitted.
    pub open spec fn admitted(self, i: int, strategy: MemoryStrategy) -> bool {
        self.submitted(i, strategy) && self.admission(i) is Ok
    }

    /// Some current measurement at the rung has the evidence key of the candidate at `i`.
    pub open spec fn remeasured(self, i: int, strategy: MemoryStrategy) -> bool {
        exists|j: int|
            {
                &&& #[trigger] self.admitted(j, strategy)
                &&& self.admission(j) == Ok::<_, MemoryEvidenceVerdict>(CandidateCurrency::Current)
                &&& self.candidates[j].evidence.key@ == self.candidates[i].evidence.key@
            }
    }

    /// Some measurement, current or stale, is admitted at the rung.
    pub open spec fn measured(self, strategy: MemoryStrategy) -> bool {
        exists|j: int|
            {
                &&& #[trigger] self.admitted(j, strategy)
                &&& self.admission(j) != Ok::<_, MemoryEvidenceVerdict>(CandidateCurrency::Estimate)
            }
    }

    /// The candidate at `i` is admitted and not superseded: a stale measurement gives way to a
    /// current one with the same key, and an estimate gives way to any measurement at its rung.
    pub open spec fn standing(self, i: int, strategy: MemoryStrategy) -> bool {
        &&& self.admitted(i, strategy)
        &&& match self.admission(i)->Ok_0 {
            CandidateCurrency::Current => true,
            CandidateCurrency::StaleClosure => !self.remeasured(i, strategy),
            CandidateCurrency::Estimate => !self.measured(strategy),
        }
    }

    /// The byte ceiling at which the candidate at `i` is graded.
    pub open spec fn peak(self, i: int) -> nat {
        admitted_peak(
            self.candidates[i].evidence.predicted_peak_bytes,
            self.admission(i)->Ok_0,
            self.policy,
            self.contract.backend_kind,
        )
    }

    /// The candidate at `i` stands at the rung and does not need more than is available.
    pub open spec fn fits(self, i: int, strategy: MemoryStrategy) -> bool {
        self.standing(i, strategy) && self.peak(i) <= self.available_bytes
    }

    pub open spec fn merit(self, i: int) -> Merit {
        let parameters = self.candidates[i].selection.parameters;
        Merit {
            peak: self.peak(i),
            rank: self.admission(i)->Ok_0.rank(),
            decode_tile_edge: parameter_or_zero(parameters.decode_tile_edge),
            attention_chunk_size: parameter_or_zero(parameters.attention_chunk_size),
            transformer_window_size: parameter_or_zero(parameters.transformer_window_size),
            decode_overlap: parameter_or_zero(parameters.decode_overlap),
        }
    }

    /// The candidate at `i` fits and, where only verified candidates count, its evidence is eligible
    /// under the provider's contract.
    pub open spec fn contends(self, i: int, strategy: MemoryStrategy, verified_only: bool) -> bool {
        &&& self.fits(i, strategy)
        &&& verified_only ==> self.candidates[i].finding.eligibility is Ok
    }

    /// The candidate at `i` is the rung's choice among those that contend: none of them beats it, and
    /// of several equally good ones it is the last.
    pub open spec fn chosen(self, i: int, strategy: MemoryStrategy, verified_only: bool) -> bool {
        &&& self.contends(i, strategy, verified_only)
        &&& forall|j: int| #[trigger]
            self.contends(j, strategy, verified_only) ==> {
                &&& !self.merit(i).beaten_by(self.merit(j))
                &&& j > i ==> self.merit(j).beaten_by(self.merit(i))
            }
    }

    /// The rung is implemented and some candidate of it fits.
    pub open spec fn selectable(self, strategy: MemoryStrategy) -> bool {
        &&& self.contract.implements(strategy)
        &&& exists|i: int| self.fits(i, strategy)
    }

    /// The rung is implemented, but no admitted candidate stands at it.
    pub open spec fn unknown(self, strategy: MemoryStrategy) -> bool {
        &&& self.contract.implements(strategy)
        &&& forall|i: int| !self.standing(i, strategy)
    }

    /// The reasons for which candidates of the rung are excluded.
    #[verifier::opaque]
    pub open spec fn exclusions(self, strategy: MemoryStrategy) -> Set<MemoryEvidenceVerdict> {
        Set::new(
            |reason: MemoryEvidenceVerdict|
                exists|i: int| #[trigger]
                    self.submitted(i, strategy) && self.admission(i) == Err::<CandidateCurrency, _>(
                        reason,
                    ),
        )
    }

    /// Why nothing is known of an unknown rung: the most specific exclusion, or that there is no
    /// candidate.
    pub open spec fn unknown_reason(self, strategy: MemoryStrategy) -> MemoryEvidenceVerdict {
        match crate::verdict::aggregate(self.exclusions(strategy)) {
            Some(reason) => reason,
            None => MemoryEvidenceVerdict::Missing,
        }
    }

    /// The reasons of all unknown rungs.
    pub open spec fn unknown_reasons(self) -> Set<MemoryEvidenceVerdict> {
        Set::new(
            |reason: MemoryEvidenceVerdict|
                exists|strategy: MemoryStrategy| #[trigger]
                    self.unknown(strategy) && self.unknown_reason(strategy) == reason,
        )
    }

    /// A candidate that stands at an implemented rung needs `peak` bytes.
    pub open spec fn requirement(self, peak: nat) -> bool {
        exists|i: int, strategy: MemoryStrategy|
            {
                &&& self.contract.implements(strategy)
                &&& #[trigger] self.standing(i, strategy)
                &&& self.peak(i) == peak
            }
    }

    /// The least that any standing candidate of an implemented rung needs.
    pub open spec fn least_requirement(self, peak: nat) -> bool {
        &&& self.requirement(peak)
        &&& forall|other: nat| #[trigger] self.requirement(other) ==> peak <= other
    }

    /// The rung is verified: a candidate of it fits whose evidence is eligible under the provider's
    /// contract.
    pub open spec fn verified(self, strategy: MemoryStrategy) -> bool {
        exists|i: int| #[trigger]
            self.fits(i, strategy) && self.candidates[i].finding.eligibility is Ok
    }

    /// The preference promotes the rung: the rung is verified and lighter than the resident one, and
    /// either the most offload is preferred, or an offload over a resident rung that fits.
    pub open spec fn promoted(self, preference: MemoryPreference, strategy: MemoryStrategy) -> bool {
        &&& strategy != MemoryStrategy::Resident
        &&& self.verified(strategy)
        &&& match preference {
            MemoryPreference::Default => false,
            MemoryPreference::PreferOffload => self.selectable(MemoryStrategy::Resident),
            MemoryPreference::MaxOffload => true,
        }
    }

    /// Where both rungs are selectable, `a` is taken before `b`.
    pub open spec fn ahead(
        self,
        preference: MemoryPreference,
        a: MemoryStrategy,
        b: MemoryStrategy,
    ) -> bool {
        preference.puts_ahead(a, self.promoted(preference, a), b, self.promoted(preference, b))
    }

    /// The candidate at `i` carries the rung: it is the choice of all that fit or, where the rung is
    /// promoted, of the verified ones.
    pub open spec fn carried(
        self,
        i: int,
        preference: MemoryPreference,
        strategy: MemoryStrategy,
    ) -> bool {
        self.chosen(i, strategy, self.promoted(preference, strategy))
    }

    /// `strategy` is selectable and put ahead of every other selectable rung.
    pub open spec fn preferred(self, preference: MemoryPreference, strategy: MemoryStrategy) -> bool {
        &&& self.selectable(strategy)
        &&& forall|other: MemoryStrategy| #[trigger]
            self.selectable(other) && other != strategy ==> self.ahead(preference, strategy, other)
    }

    /// The answer to the contest under a preference, where `available_gb` is what the budget leaves.
    pub open spec fn answered(
        self,
        preference: MemoryPreference,
        available_gb: Binary64,
        answer: Selection<'a>,
    ) -> bool {
        if exists|strategy: MemoryStrategy| self.selectable(strategy) {
            exists|i: int, strategy: MemoryStrategy|
                {
                    &&& #[trigger] self.carried(i, preference, strategy)
                    &&& self.preferred(preference, strategy)
                    &&& answer matches Selection::Selected {
                        selection,
                        needed_gb,
                        available_gb: reported_gb,
                    }
                    &&& selection == self.candidates[i].selection
                    &&& needed_gb.plain()
                    &&& needed_gb.magnitude() == crate::binary64::magnitude_of_bytes(self.peak(i) as u64)
                    &&& reported_gb == available_gb
                }
        } else if exists|strategy: MemoryStrategy| self.unknown(strategy) {
            answer == Selection::Unverified {
                reason: crate::verdict::aggregate(self.unknown_reasons())->Some_0,
            }
        } else if exists|peak: nat| self.requirement(peak) {
            exists|peak: nat|
                {
                    &&& #[trigger] self.least_requirement(peak)
                    &&& answer matches Selection::Reject { needed_gb, available_gb: reported_gb }
                    &&& needed_gb.plain()
                    &&& needed_gb.magnitude() == crate::binary64::magnitude_of_bytes(peak as u64)
                    &&& reported_gb == available_gb
                }
        } else {
            answer == Selection::Unverified { reason: MemoryEvidenceVerdict::Missing }
        }
    }
}

/// What grading one rung found.
enum RungGrade {
    /// The rung is not implemented.
    Unsupported,
    /// No admitted candidate stands.
    Unknown { reason: MemoryEvidenceVerdict },
    /// Candidates fit: the choice of all, and that of the verified ones where there are any.
    Fits { choice: Graded, verified: Option<Graded> },
    /// Candidates stand, and the least of them needs `peak`, which is more than is available.
    TooLarge { peak: u64 },
}

impl RungGrade {
    #[verifier::opaque]
    spec fn describes(self, contest: Contest, strategy: MemoryStrategy) -> bool {
        match self {
            RungGrade::Unsupported => !contest.contract.implements(strategy),
            RungGrade::Unknown { reason } => {
                &&& contest.unknown(strategy)
                &&& reason == contest.unknown_reason(strategy)
            },
            RungGrade::Fits { choice, verified } => {
                &&& contest.contract.implements(strategy)
                &&& choice.describes(contest)
                &&& contest.chosen(choice.index as int, strategy, false)
                &&& match verified {
                    Some(best) => {
                        &&& best.describes(contest)
                        &&& contest.chosen(best.index as int, strategy, true)
                    },
                    None => forall|i: int| !contest.contends(i, strategy, true),
                }
            },
            RungGrade::TooLarge { peak } => {
                &&& contest.contract.implements(strategy)
                &&& forall|i: int| !contest.fits(i, strategy)
                &&& exists|i: int| contest.standing(i, strategy) && contest.peak(i) == peak
                &&& forall|i: int| #[trigger]
                    contest.standing(i, strategy) ==> peak <= contest.peak(i)
            },
        }
    }
}

/// An admitted candidate of the rung being graded.
#[derive(Clone, Copy)]
struct Graded {
    index: usize,
    currency: CandidateCurrency,
    peak: u64,
}

impl Graded {
    spec fn describes(self, contest: Contest) -> bool {
        &&& self.index < contest.candidates.len()
        &&& contest.admission(self.index as int) == Ok::<_, MemoryEvidenceVerdict>(self.currency)
        &&& contest.peak(self.index as int) == self.peak
    }
}

impl<'a> Contest<'a> {
    /// The candidates below `n` whose exclusion gives `reason`.
    spec fn exclusions_below(self, strategy: MemoryStrategy, n: int) -> Set<MemoryEvidenceVerdict> {
        Set::new(
            |reason: MemoryEvidenceVerdict|
                exists|i: int|
                    i < n && #[trigger] self.submitted(i, strategy) && self.admission(i)
                        == Err::<CandidateCurrency, _>(reason),
        )
    }

    /// `graded` lists the admitted candidates of the rung below `n`, in the order of submission.
    spec fn lists_admitted(self, graded: Seq<Graded>, strategy: MemoryStrategy, n: int) -> bool {
        &&& forall|k: int| #![trigger graded[k]]
            0 <= k < graded.len() ==> {
                &&& graded[k].index < n
                &&& self.admitted(graded[k].index as int, strategy)
                &&& self.admission(graded[k].index as int) == Ok::<_, MemoryEvidenceVerdict>(
                    graded[k].currency,
                )
                &&& self.peak(graded[k].index as int) == graded[k].peak
            }
        &&& forall|k: int, l: int|
            #![trigger graded[k], graded[l]]
            0 <= k < l < graded.len() ==> graded[k].index < graded[l].index
        &&& forall|i: int| #[trigger]
            self.admitted(i, strategy) && i < n ==> exists|k: int|
                0 <= k < graded.len() && (#[trigger] graded[k]).index == i
    }
}

impl<'a> Contest<'a> {
    /// `best` is the choice among those of the first `k` in `graded` that contend, where any does.
    spec fn leads(
        self,
        best: Option<Graded>,
        graded: Seq<Graded>,
        k: int,
        strategy: MemoryStrategy,
        verified_only: bool,
    ) -> bool {
        &&& best matches Some(b) ==> {
            &&& exists|l: int| 0 <= l < k && #[trigger] graded[l] == b
            &&& self.contends(b.index as int, strategy, verified_only)
        }
        &&& forall|l: int| #![trigger graded[l]]
            0 <= l < k && self.contends(graded[l].index as int, strategy, verified_only) ==> {
                &&& best is Some
                &&& !self.merit(best->Some_0.index as int).beaten_by(
                    self.merit(graded[l].index as int),
                )
                &&& graded[l].index > best->Some_0.index ==> self.merit(
                    graded[l].index as int,
                ).beaten_by(self.merit(best->Some_0.index as int))
            }
    }

    /// Once all are listed, the one that leads is the rung's choice.
    proof fn lemma_leader_is_chosen(
        self,
        best: Option<Graded>,
        graded: Seq<Graded>,
        strategy: MemoryStrategy,
        verified_only: bool,
    )
        requires
            self.lists_admitted(graded, strategy, self.candidates.len() as int),
            self.leads(best, graded, graded.len() as int, strategy, verified_only),
        ensures
            match best {
                Some(leader) => {
                    &&& leader.describes(self)
                    &&& self.chosen(leader.index as int, strategy, verified_only)
                },
                None => forall|i: int| !self.contends(i, strategy, verified_only),
            },
    {
        assert forall|j: int| #[trigger] self.contends(j, strategy, verified_only) implies {
            &&& best is Some
            &&& !self.merit(best->Some_0.index as int).beaten_by(self.merit(j))
            &&& j > best->Some_0.index ==> self.merit(j).beaten_by(
                self.merit(best->Some_0.index as int),
            )
        } by {
            assert(self.admitted(j, strategy));
            let l = choose|l: int| 0 <= l < graded.len() && (#[trigger] graded[l]).index == j;
            assert(graded[l].index == j);
        }
    }
}

/// The byte ceiling at which an admitted candidate is graded.
pub fn admitted_peak_bytes(
    predicted_peak_bytes: u64,
    currency: CandidateCurrency,
    stale_margin: Binary64,
    estimate_margin: Binary64,
) -> (result: u64)
    ensures
        result == match currency {
            CandidateCurrency::Current => predicted_peak_bytes as nat,
            CandidateCurrency::StaleClosure => crate::margin::widened(
                predicted_peak_bytes,
                stale_margin,
            ),
            CandidateCurrency::Estimate => crate::margin::widened(
                predicted_peak_bytes,
                estimate_margin,
            ),
        },
{
    match currency {
        CandidateCurrency::Current => predicted_peak_bytes,
        CandidateCurrency::StaleClosure => widened_peak_bytes(predicted_peak_bytes, stale_margin),
        CandidateCurrency::Estimate => widened_peak_bytes(predicted_peak_bytes, estimate_margin),
    }
}

/// The parts that a contest is made of.
pub open spec fn contest_of<'a>(
    request: RequestScope<'a>,
    contract: MemoryProviderContract,
    policy: MarginPolicy,
    available_bytes: nat,
    candidates: Seq<Candidate<'a>>,
) -> Contest<'a> {
    Contest { request, contract, policy, candidates, available_bytes }
}

/// Admits or excludes every candidate of a rung: the admitted ones in order, and the most specific
/// reason of the excluded ones.
fn admit_rung<'a>(
    request: RequestScope<'a>,
    contract: &MemoryProviderContract,
    policy: &MarginPolicy,
    candidates: &[Candidate<'a>],
    strategy: MemoryStrategy,
    Ghost(contest): Ghost<Contest<'a>>,
) -> (result: (Vec<Graded>, Option<MemoryEvidenceVerdict>))
    requires
        contest.request == request,
        contest.contract == *contract,
        contest.policy == *policy,
        contest.candidates == candidates@,
    ensures
        contest.lists_admitted(result.0@, strategy, candidates@.len() as int),
        result.1 == crate::verdict::aggregate(contest.exclusions(strategy)),
{
    let stale_margin = stale_measured_margin(policy, contract.backend_kind);
    let estimate_margin = estimate_margin(policy, contract.backend_kind);
    let mut graded: Vec<Graded> = Vec::new();
    let mut exclusion: Option<MemoryEvidenceVerdict> = None;
    let mut i: usize = 0;
    proof {
        assert(contest.exclusions_below(strategy, 0) =~= Set::empty());
    }
    while i < candidates.len()
        invariant
            i <= candidates@.len(),
            stale_margin == policy.stale_measured(contract.backend_kind),
            estimate_margin == policy.estimate(contract.backend_kind),
            contest.request == request,
            contest.contract == *contract,
            contest.policy == *policy,
            contest.candidates == candidates@,
            contest.lists_admitted(graded@, strategy, i as int),
            exclusion == crate::verdict::aggregate(contest.exclusions_below(strategy, i as int)),
        decreases candidates@.len() - i,
    {
        let ghost before = contest.exclusions_below(strategy, i as int);
        let ghost after = contest.exclusions_below(strategy, i + 1);
        let ghost listed = graded@;
        if candidates[i].selection.strategy == strategy {
            assert(contest.submitted(i as int, strategy));
            match candidate_exclusion(request, contract, &candidates[i]) {
                Ok(currency) => {
                    let peak = admitted_peak_bytes(
                        candidates[i].evidence.predicted_peak_bytes,
                        currency,
                        stale_margin,
                        estimate_margin,
                    );
                    graded.push(Graded { index: i, currency, peak });
                    proof {
                        assert(after =~= before);
                        assert(graded@[listed.len() as int].index == i);
                        assert forall|j: int| #[trigger]
                            contest.admitted(j, strategy) && j < i + 1 implies exists|k: int|
                            0 <= k < graded@.len() && (#[trigger] graded@[k]).index == j by {
                            if j < i {
                                let k = choose|k: int|
                                    0 <= k < listed.len() && (#[trigger] listed[k]).index == j;
                                assert(graded@[k].index == j);
                            }
                        }
                    }
                },
                Err(reason) => {
                    accumulate_reason(&mut exclusion, reason);
                    proof {
                        assert(after =~= before.insert(reason));
                        crate::verdict::lemma_aggregate_insert(before, reason);
                    }
                },
            }
        } else {
            assert(after =~= before);
        }
        i = i + 1;
    }
    assert(contest.exclusions_below(strategy, i as int) =~= contest.exclusions(strategy)) by {
        reveal(Contest::exclusions);
    }
    (graded, exclusion)
}

/// Some current measurement among `graded` has the evidence key of the candidate at `index`.
fn is_remeasured<'a>(
    candidates: &[Candidate<'a>],
    graded: &Vec<Graded>,
    index: usize,
    strategy: MemoryStrategy,
    Ghost(contest): Ghost<Contest<'a>>,
) -> (result: bool)
    requires
        contest.candidates == candidates@,
        index < candidates@.len(),
        contest.lists_admitted(graded@, strategy, candidates@.len() as int),
    ensures
        result == contest.remeasured(index as int, strategy),
{
    let mut k: usize = 0;
    while k < graded.len()
        invariant
            k <= graded@.len(),
            contest.candidates == candidates@,
            index < candidates@.len(),
            contest.lists_admitted(graded@, strategy, candidates@.len() as int),
            forall|l: int| #![trigger graded@[l]]
                0 <= l < k ==> !(graded@[l].currency == CandidateCurrency::Current
                    && candidates@[graded@[l].index as int].evidence.key@
                    == candidates@[index as int].evidence.key@),
        decreases graded@.len() - k,
    {
        let other = graded[k];
        if other.currency == CandidateCurrency::Current && candidates[other.index].evidence.key.same(
            &candidates[index].evidence.key,
        ) {
            assert(contest.admitted(graded@[k as int].index as int, strategy));
            return true;
        }
        k = k + 1;
    }
    false
}

/// Some measurement, current or stale, is among `graded`.
fn is_measured<'a>(
    graded: &Vec<Graded>,
    strategy: MemoryStrategy,
    Ghost(contest): Ghost<Contest<'a>>,
) -> (result: bool)
    requires
        contest.lists_admitted(graded@, strategy, contest.candidates.len() as int),
    ensures
        result == contest.measured(strategy),
{
    let mut k: usize = 0;
    while k < graded.len()
        invariant
            k <= graded@.len(),
            contest.lists_admitted(graded@, strategy, contest.candidates.len() as int),
            forall|l: int| #![trigger graded@[l]]
                0 <= l < k ==> graded@[l].currency == CandidateCurrency::Estimate,
        decreases graded@.len() - k,
    {
        if graded[k].currency != CandidateCurrency::Estimate {
            assert(contest.admitted(graded@[k as int].index as int, strategy));
            return true;
        }
        k = k + 1;
    }
    false
}

/// A parameter, or zero where it is not named.
fn value_or_zero(parameter: Option<u32>) -> (result: u32)
    ensures
        result == parameter_or_zero(parameter),
{
    match parameter {
        Some(value) => value,
        None => 0,
    }
}

/// The first of two graded candidates is beaten by the second.
fn is_beaten<'a>(
    candidates: &[Candidate<'a>],
    left: Graded,
    right: Graded,
    Ghost(contest): Ghost<Contest<'a>>,
) -> (result: bool)
    requires
        contest.candidates == candidates@,
        left.index < candidates@.len(),
        right.index < candidates@.len(),
        contest.admission(left.index as int) == Ok::<_, MemoryEvidenceVerdict>(left.currency),
        contest.admission(right.index as int) == Ok::<_, MemoryEvidenceVerdict>(right.currency),
        contest.peak(left.index as int) == left.peak,
        contest.peak(right.index as int) == right.peak,
    ensures
        result == contest.merit(left.index as int).beaten_by(contest.merit(right.index as int)),
{
    if left.peak != right.peak {
        return left.peak < right.peak;
    }
    let left_rank: u8 = left.currency.precedence();
    let right_rank: u8 = right.currency.precedence();
    if left_rank != right_rank {
        return left_rank < right_rank;
    }
    let a = candidates[left.index].selection.parameters;
    let b = candidates[right.index].selection.parameters;
    let a_edge: u32 = value_or_zero(a.decode_tile_edge);
    let b_edge: u32 = value_or_zero(b.decode_tile_edge);
    if a_edge != b_edge {
        return a_edge < b_edge;
    }
    let a_chunk: u32 = value_or_zero(a.attention_chunk_size);
    let b_chunk: u32 = value_or_zero(b.attention_chunk_size);
    if a_chunk != b_chunk {
        return a_chunk < b_chunk;
    }
    let a_window: u32 = value_or_zero(a.transformer_window_size);
    let b_window: u32 = value_or_zero(b.transformer_window_size);
    if a_window != b_window {
        return a_window < b_window;
    }
    value_or_zero(a.decode_overlap) < value_or_zero(b.decode_overlap)
}

/// The candidate that leads once the one at `k` has had its turn, given whether that one contends.
fn challenged<'a>(
    candidates: &[Candidate<'a>],
    graded: &Vec<Graded>,
    best: Option<Graded>,
    k: usize,
    contends: bool,
    strategy: MemoryStrategy,
    Ghost(verified_only): Ghost<bool>,
    Ghost(contest): Ghost<Contest<'a>>,
) -> (result: Option<Graded>)
    requires
        contest.candidates == candidates@,
        k < graded@.len(),
        contest.lists_admitted(graded@, strategy, candidates@.len() as int),
        contest.leads(best, graded@, k as int, strategy, verified_only),
        contends == contest.contends(graded@[k as int].index as int, strategy, verified_only),
    ensures
        contest.leads(result, graded@, k + 1, strategy, verified_only),
{
    let candidate = graded[k];
    assert(candidate == graded@[k as int]);
    if !contends {
        return best;
    }
    match best {
        Some(leader) => {
            if is_beaten(candidates, candidate, leader, Ghost(contest)) {
                best
            } else {
                Some(candidate)
            }
        },
        None => Some(candidate),
    }
}

/// Grades one rung of the ladder.
fn grade_rung<'a>(
    request: RequestScope<'a>,
    contract: &MemoryProviderContract,
    policy: &MarginPolicy,
    available_bytes: u64,
    candidates: &[Candidate<'a>],
    strategy: MemoryStrategy,
) -> (result: RungGrade)
    ensures
        result.describes(
            contest_of(request, *contract, *policy, available_bytes as nat, candidates@),
            strategy,
        ),
{
    reveal(RungGrade::describes);
    if !contract.is_implemented(strategy) {
        return RungGrade::Unsupported;
    }
    let ghost contest = contest_of(
        request,
        *contract,
        *policy,
        available_bytes as nat,
        candidates@,
    );
    let (graded, exclusion) = admit_rung(
        request,
        contract,
        policy,
        candidates,
        strategy,
        Ghost(contest),
    );
    let measured = is_measured(&graded, strategy, Ghost(contest));
    let mut best: Option<Graded> = None;
    let mut best_verified: Option<Graded> = None;
    let mut least: Option<u64> = None;
    let mut k: usize = 0;
    while k < graded.len()
        invariant
            k <= graded@.len(),
            contest == contest_of(
                request,
                *contract,
                *policy,
                available_bytes as nat,
                candidates@,
            ),
            contest.lists_admitted(graded@, strategy, candidates@.len() as int),
            measured == contest.measured(strategy),
            contest.leads(best, graded@, k as int, strategy, false),
            contest.leads(best_verified, graded@, k as int, strategy, true),
            least matches Some(p) ==> exists|l: int|
                0 <= l < k && (#[trigger] graded@[l]).peak == p && contest.standing(
                    graded@[l].index as int,
                    strategy,
                ),
            forall|l: int| #![trigger graded@[l]]
                0 <= l < k && contest.standing(graded@[l].index as int, strategy) ==> {
                    &&& least is Some
                    &&& least->Some_0 <= graded@[l].peak
                },
        decreases graded@.len() - k,
    {
        let candidate = graded[k];
        assert(candidate == graded@[k as int]);
        let stands = match candidate.currency {
            CandidateCurrency::Current => true,
            CandidateCurrency::StaleClosure => !is_remeasured(
                candidates,
                &graded,
                candidate.index,
                strategy,
                Ghost(contest),
            ),
            CandidateCurrency::Estimate => !measured,
        };
        assert(stands == contest.standing(candidate.index as int, strategy));
        if stands {
            least = match least {
                Some(peak) if peak <= candidate.peak => Some(peak),
                _ => Some(candidate.peak),
            };
        }
        let fits = stands && candidate.peak <= available_bytes;
        best = challenged(
            candidates,
            &graded,
            best,
            k,
            fits,
            strategy,
            Ghost(false),
            Ghost(contest),
        );
        best_verified = challenged(
            candidates,
            &graded,
            best_verified,
            k,
            fits && candidates[candidate.index].finding.eligibility.is_ok(),
            strategy,
            Ghost(true),
            Ghost(contest),
        );
        k = k + 1;
    }
    proof {
        contest.lemma_leader_is_chosen(best, graded@, strategy, false);
        contest.lemma_leader_is_chosen(best_verified, graded@, strategy, true);
        assert forall|i: int| #[trigger] contest.admitted(i, strategy) implies exists|l: int|
            0 <= l < graded@.len() && (#[trigger] graded@[l]).index == i by {}
    }
    match (best, least) {
        (Some(choice), _) => RungGrade::Fits { choice, verified: best_verified },
        (None, Some(peak)) => {
            assert forall|i: int| !contest.fits(i, strategy) by {
                assert(!contest.contends(i, strategy, false));
            }
            assert forall|i: int| #[trigger] contest.standing(i, strategy) implies peak
                <= contest.peak(i) by {
                assert(contest.admitted(i, strategy));
            }
            RungGrade::TooLarge { peak }
        },
        (None, None) => {
            assert forall|i: int| !contest.standing(i, strategy) by {
                if contest.standing(i, strategy) {
                    assert(contest.admitted(i, strategy));
                }
            }
            let reason = match exclusion {
                Some(reason) => reason,
                None => MemoryEvidenceVerdict::Missing,
            };
            RungGrade::Unknown { reason }
        },
    }
}

impl<'a> Contest<'a> {
    /// The reasons of the unknown rungs above depth `n`.
    #[verifier::opaque]
    spec fn unknown_reasons_above(self, n: int) -> Set<MemoryEvidenceVerdict> {
        Set::new(
            |reason: MemoryEvidenceVerdict|
                exists|strategy: MemoryStrategy|
                    strategy.depth() < n && #[trigger] self.unknown(strategy)
                        && self.unknown_reason(strategy) == reason,
        )
    }

    /// Every standing candidate of the rung needs at least `peak`.
    #[verifier::opaque]
    spec fn needs_at_least(self, strategy: MemoryStrategy, peak: u64) -> bool {
        forall|i: int| #[trigger] self.standing(i, strategy) ==> peak <= self.peak(i)
    }

    /// Candidates stand at the implemented rung and none of them fits.
    #[verifier::opaque]
    spec fn too_large(self, strategy: MemoryStrategy) -> bool {
        &&& self.contract.implements(strategy)
        &&& exists|i: int| self.standing(i, strategy)
        &&& forall|i: int| !self.fits(i, strategy)
    }

    proof fn lemma_lower_need(self, strategy: MemoryStrategy, peak: u64, lower: u64)
        requires
            self.needs_at_least(strategy, peak),
            lower <= peak,
        ensures
            self.needs_at_least(strategy, lower),
    {
        reveal(Contest::needs_at_least);
    }

    /// What a grade says of its rung.
    proof fn lemma_grade(self, grade: RungGrade, strategy: MemoryStrategy, n: int)
        requires
            grade.describes(self, strategy),
            strategy.depth() == n,
        ensures
            self.selectable(strategy) <==> grade is Fits,
            self.too_large(strategy) <==> grade is TooLarge,
            grade matches RungGrade::Fits { verified, .. } ==> (self.verified(strategy)
                <==> verified is Some),
            grade matches RungGrade::TooLarge { peak } ==> {
                &&& self.needs_at_least(strategy, peak)
                &&& self.requirement(peak as nat)
            },
            self.unknown_reasons_above(n + 1) == match grade {
                RungGrade::Unknown { reason } => self.unknown_reasons_above(n).insert(reason),
                _ => self.unknown_reasons_above(n),
            },
    {
        reveal(RungGrade::describes);
        reveal(Contest::unknown_reasons_above);
        reveal(Contest::needs_at_least);
        reveal(Contest::too_large);
        let before = self.unknown_reasons_above(n);
        let after = self.unknown_reasons_above(n + 1);
        assert forall|s: MemoryStrategy| s.depth() < n + 1 implies s == strategy || s.depth() < n by {
        }
        match grade {
            RungGrade::Unsupported => {
                assert(after =~= before);
            },
            RungGrade::Unknown { reason } => {
                assert(self.unknown(strategy));
                assert(after =~= before.insert(reason));
            },
            RungGrade::Fits { choice, verified } => {
                assert(self.fits(choice.index as int, strategy));
                assert(self.standing(choice.index as int, strategy));
                if self.verified(strategy) {
                    let i = choose|i: int| #[trigger]
                        self.fits(i, strategy) && self.candidates[i].finding.eligibility is Ok;
                    assert(self.contends(i, strategy, true));
                }
                if let Some(best) = verified {
                    assert(self.fits(best.index as int, strategy));
                }
                assert(after =~= before);
            },
            RungGrade::TooLarge { peak } => {
                let i = choose|i: int| self.standing(i, strategy) && self.peak(i) == peak;
                assert(self.standing(i, strategy));
                assert(after =~= before);
            },
        }
    }

    /// What is left to say once every rung is walked and none is selectable.
    proof fn lemma_ladder_exhausted(
        self,
        preference: MemoryPreference,
        available_gb: Binary64,
        unknown: Option<MemoryEvidenceVerdict>,
        least: Option<u64>,
        answer: Selection<'a>,
    )
        requires
            forall|s: MemoryStrategy| !#[trigger] self.selectable(s),
            forall|s: MemoryStrategy| #[trigger]
                self.too_large(s) ==> least is Some && self.needs_at_least(s, least->Some_0),
            least matches Some(peak) ==> self.requirement(peak as nat),
            unknown == crate::verdict::aggregate(self.unknown_reasons_above(5)),
            match (unknown, least) {
                (Some(reason), _) => answer == Selection::Unverified { reason },
                (None, Some(peak)) => {
                    &&& answer matches Selection::Reject { needed_gb, available_gb: reported_gb }
                    &&& needed_gb.plain()
                    &&& needed_gb.magnitude() == crate::binary64::magnitude_of_bytes(peak)
                    &&& reported_gb == available_gb
                },
                (None, None) => answer == Selection::Unverified {
                    reason: MemoryEvidenceVerdict::Missing,
                },
            },
        ensures
            self.answered(preference, available_gb, answer),
    {
        reveal(Contest::unknown_reasons_above);
        reveal(Contest::needs_at_least);
        reveal(Contest::too_large);
        assert forall|s: MemoryStrategy| s.depth() < 5 by {}
        assert(self.unknown_reasons_above(5) =~= self.unknown_reasons());
        crate::verdict::law_aggregate_is_most_specific(self.unknown_reasons());
        if exists|s: MemoryStrategy| self.unknown(s) {
            let s = choose|s: MemoryStrategy| self.unknown(s);
            assert(self.unknown_reasons().contains(self.unknown_reason(s)));
        }
        assert forall|other: nat| #[trigger] self.requirement(other) implies least is Some
            && least->Some_0 <= other by {
            let (i, s) = choose|i: int, s: MemoryStrategy|
                {
                    &&& self.contract.implements(s)
                    &&& #[trigger] self.standing(i, s)
                    &&& self.peak(i) == other
                };
            assert(!self.selectable(s));
            assert(self.too_large(s));
        }
        if let Some(peak) = least {
            assert(self.least_requirement(peak as nat));
        }
    }

    /// `answer` selects the choice of the rung `strategy` among those that contend.
    #[verifier::opaque]
    spec fn selects(
        self,
        answer: Selection<'a>,
        available_gb: Binary64,
        strategy: MemoryStrategy,
        verified_only: bool,
    ) -> bool {
        &&& self.selectable(strategy)
        &&& exists|i: int|
            {
                &&& #[trigger] self.chosen(i, strategy, verified_only)
                &&& answer matches Selection::Selected {
                    selection,
                    needed_gb,
                    available_gb: reported_gb,
                }
                &&& selection == self.candidates[i].selection
                &&& needed_gb.plain()
                &&& needed_gb.magnitude() == crate::binary64::magnitude_of_bytes(self.peak(i) as u64)
                &&& reported_gb == available_gb
            }
    }

    proof fn lemma_choice_selects(
        self,
        carrier: Graded,
        strategy: MemoryStrategy,
        verified_only: bool,
        answer: Selection<'a>,
        available_gb: Binary64,
    )
        requires
            self.contract.implements(strategy),
            carrier.describes(self),
            self.chosen(carrier.index as int, strategy, verified_only),
            answer matches Selection::Selected { selection, needed_gb, available_gb: reported_gb } && {
                &&& selection == self.candidates[carrier.index as int].selection
                &&& needed_gb.plain()
                &&& needed_gb.magnitude() == crate::binary64::magnitude_of_bytes(carrier.peak)
                &&& reported_gb == available_gb
            },
        ensures
            self.selects(answer, available_gb, strategy, verified_only),
    {
        reveal(Contest::selects);
        assert(self.fits(carrier.index as int, strategy));
    }

    proof fn lemma_selects_answers(
        self,
        preference: MemoryPreference,
        answer: Selection<'a>,
        available_gb: Binary64,
        strategy: MemoryStrategy,
    )
        requires
            self.selects(answer, available_gb, strategy, self.promoted(preference, strategy)),
            forall|other: MemoryStrategy| #[trigger]
                self.selectable(other) && other != strategy ==> self.ahead(preference, strategy, other),
        ensures
            self.answered(preference, available_gb, answer),
    {
        reveal(Contest::selects);
        assert(self.preferred(preference, strategy));
        let i = choose|i: int|
            {
                &&& #[trigger] self.chosen(i, strategy, self.promoted(preference, strategy))
                &&& answer matches Selection::Selected {
                    selection,
                    needed_gb,
                    available_gb: reported_gb,
                }
                &&& selection == self.candidates[i].selection
                &&& needed_gb.plain()
                &&& needed_gb.magnitude() == crate::binary64::magnitude_of_bytes(self.peak(i) as u64)
                &&& reported_gb == available_gb
            };
        assert(self.carried(i, preference, strategy));
    }
}

proof fn lemma_selects_selectable<'a>(
    contest: Contest<'a>,
    answer: Selection<'a>,
    available_gb: Binary64,
    strategy: MemoryStrategy,
    verified_only: bool,
)
    requires
        contest.selects(answer, available_gb, strategy, verified_only),
    ensures
        contest.selectable(strategy),
{
    reveal(Contest::selects);
}

/// Which of a rung's two choices carries it, and whether the rung is promoted.
fn carrier_of(
    preference: MemoryPreference,
    strategy: MemoryStrategy,
    choice: Graded,
    verified: Option<Graded>,
    resident_fits: bool,
) -> (result: (Graded, bool))
    ensures
        result.1 == ({
            &&& strategy != MemoryStrategy::Resident
            &&& verified is Some
            &&& match preference {
                MemoryPreference::Default => false,
                MemoryPreference::PreferOffload => resident_fits,
                MemoryPreference::MaxOffload => true,
            }
        }),
        result.0 == if result.1 {
            verified->Some_0
        } else {
            choice
        },
{
    let allowed = preference.prefers_deepest() || (preference.defers_resident() && resident_fits);
    match verified {
        Some(best) if allowed && strategy != MemoryStrategy::Resident => (best, true),
        _ => (choice, false),
    }
}

/// Walks the ladder in the normative order.
///
/// Under an offload preference the first fitting rung is set aside where a verified lighter one may
/// come, and restored where none fits, so that a request which runs without the preference also runs
/// with it.
#[verifier::spinoff_prover]
fn walk<'a>(
    preference: MemoryPreference,
    request: RequestScope<'a>,
    contract: &MemoryProviderContract,
    policy: &MarginPolicy,
    available_gb: Binary64,
    available_bytes: u64,
    candidates: &[Candidate<'a>],
) -> (result: Selection<'a>)
    ensures
        contest_of(
            request,
            *contract,
            *policy,
            available_bytes as nat,
            candidates@,
        ).answered(preference, available_gb, result),
{
    let ghost contest = contest_of(
        request,
        *contract,
        *policy,
        available_bytes as nat,
        candidates@,
    );
    let strategies = MemoryStrategy::all();
    let mut least: Option<u64> = None;
    let mut unknown: Option<MemoryEvidenceVerdict> = None;
    let mut fallback: Option<Selection<'a>> = None;
    let mut deepest_offload: Option<Selection<'a>> = None;
    let ghost mut first: MemoryStrategy = MemoryStrategy::Resident;
    let ghost mut deepest: MemoryStrategy = MemoryStrategy::Resident;
    let mut n: usize = 0;
    proof {
        reveal(Contest::unknown_reasons_above);
        assert(contest.unknown_reasons_above(0) =~= Set::empty());
    }
    while n < 5
        invariant
            n <= 5,
            contest == contest_of(
                request,
                *contract,
                *policy,
                available_bytes as nat,
                candidates@,
            ),
            strategies@ == crate::ladder::strategy_order(),
            unknown == crate::verdict::aggregate(contest.unknown_reasons_above(n as int)),
            fallback matches Some(answer) ==> {
                &&& preference != MemoryPreference::Default
                &&& preference == MemoryPreference::PreferOffload ==> first
                    == MemoryStrategy::Resident
                &&& first.depth() < n
                &&& contest.selects(
                    answer,
                    available_gb,
                    first,
                    contest.promoted(preference, first),
                )
            },
            deepest_offload matches Some(answer) ==> {
                &&& preference == MemoryPreference::MaxOffload
                &&& deepest != MemoryStrategy::Resident
                &&& deepest.depth() < n
                &&& contest.verified(deepest)
                &&& contest.selects(answer, available_gb, deepest, true)
            },
            forall|s: MemoryStrategy| #[trigger]
                contest.selectable(s) && s.depth() < n ==> {
                    &&& fallback is Some
                    &&& first.depth() <= s.depth()
                    &&& s != MemoryStrategy::Resident && contest.verified(s) ==> {
                        &&& deepest_offload is Some
                        &&& s.depth() <= deepest.depth()
                    }
                },
            least matches Some(peak) ==> contest.requirement(peak as nat),
            forall|s: MemoryStrategy| #[trigger]
                contest.too_large(s) && s.depth() < n ==> least is Some && contest.needs_at_least(
                    s,
                    least->Some_0,
                ),
        decreases 5 - n,
    {
        let strategy = strategies[n];
        assert(strategy.depth() == n);
        let grade = grade_rung(request, contract, policy, available_bytes, candidates, strategy);
        proof {
            contest.lemma_grade(grade, strategy, n as int);
            reveal(RungGrade::describes);
            assert forall|s: MemoryStrategy| s.depth() < n + 1 implies s == strategy || s.depth()
                < n by {}
        }
        match grade {
            RungGrade::Unsupported => {},
            RungGrade::Unknown { reason } => {
                proof {
                    crate::verdict::lemma_aggregate_insert(
                        contest.unknown_reasons_above(n as int),
                        reason,
                    );
                }
                accumulate_reason(&mut unknown, reason);
            },
            RungGrade::Fits { choice, verified } => {
                let (carrier, promoted) = carrier_of(
                    preference,
                    strategy,
                    choice,
                    verified,
                    fallback.is_some(),
                );
                let selected = Selection::Selected {
                    selection: candidates[carrier.index].selection,
                    needed_gb: peak_bytes_to_gb(carrier.peak),
                    available_gb,
                };
                proof {
                    if let Some(answer) = fallback {
                        lemma_selects_selectable(
                            contest,
                            answer,
                            available_gb,
                            first,
                            contest.promoted(preference, first),
                        );
                    }
                    assert(promoted == contest.promoted(preference, strategy));
                    contest.lemma_choice_selects(
                        carrier,
                        strategy,
                        promoted,
                        selected,
                        available_gb,
                    );
                }
                if preference.prefers_deepest() {
                    if fallback.is_none() {
                        fallback = Some(selected);
                        proof {
                            first = strategy;
                        }
                    }
                    if promoted {
                        deepest_offload = Some(selected);
                        proof {
                            deepest = strategy;
                        }
                    }
                } else if preference.defers_resident() && strategy == MemoryStrategy::Resident {
                    fallback = Some(selected);
                    proof {
                        first = strategy;
                    }
                } else if fallback.is_none() || promoted {
                    proof {
                        contest.lemma_selects_answers(preference, selected, available_gb, strategy);
                    }
                    return selected;
                }
            },
            RungGrade::TooLarge { peak } => {
                let lower: u64 = match least {
                    Some(current) if current <= peak => current,
                    _ => peak,
                };
                proof {
                    contest.lemma_lower_need(strategy, peak, lower);
                    assert forall|s: MemoryStrategy| #[trigger]
                        contest.too_large(s) && s.depth() < n implies contest.needs_at_least(
                        s,
                        lower,
                    ) by {
                        contest.lemma_lower_need(s, least->Some_0, lower);
                    }
                }
                least = Some(lower);
            },
        }
        n = n + 1;
    }
    assert forall|s: MemoryStrategy| s.depth() < 5 by {}
    if let Some(selected) = deepest_offload {
        proof {
            contest.lemma_selects_answers(preference, selected, available_gb, deepest);
        }
        return selected;
    }
    if let Some(selected) = fallback {
        proof {
            contest.lemma_selects_answers(preference, selected, available_gb, first);
        }
        return selected;
    }
    let answer = match (unknown, least) {
        (Some(reason), _) => Selection::Unverified { reason },
        (None, Some(peak)) => Selection::Reject { needed_gb: peak_bytes_to_gb(peak), available_gb },
        (None, None) => Selection::Unverified { reason: MemoryEvidenceVerdict::Missing },
    };
    proof {
        contest.lemma_ladder_exhausted(preference, available_gb, unknown, least, answer);
    }
    answer
}

/// The answer to a request: unverified as invalid where the provider's declaration cannot be relied
/// on, unverified as missing where there is no coherent budget, and the answer of the contest
/// otherwise.
pub open spec fn decided<'a>(
    preference: MemoryPreference,
    request: RequestScope<'a>,
    contract: MemoryProviderContract,
    policy: MarginPolicy,
    budget: Option<Budget>,
    candidates: Seq<Candidate<'a>>,
    answer: Selection<'a>,
) -> bool {
    if !contract.trustworthy() {
        answer == Selection::Unverified { reason: MemoryEvidenceVerdict::Invalid }
    } else if budget is None || !budget->Some_0.coherent() {
        answer == Selection::Unverified { reason: MemoryEvidenceVerdict::Missing }
    } else {
        exists|available_gb: Binary64|
            {
                &&& available_gb.plain()
                &&& available_gb.magnitude() == budget->Some_0.effective_magnitude()
                &&& #[trigger] contest_of(
                    request,
                    contract,
                    policy,
                    budget->Some_0.effective_bytes(),
                    candidates,
                ).answered(preference, available_gb, answer)
            }
    }
}

/// Selects a memory strategy for a request under a preference.
///
/// The first fitting rung in the normative order wins by default; `preference` may put a verified lighter
/// one first. Within a rung the admitted candidate with the largest fitting peak wins.
pub fn select_strategy_with<'a>(
    preference: MemoryPreference,
    request: RequestScope<'a>,
    contract: &MemoryProviderContract,
    policy: &MarginPolicy,
    budget: Option<Budget>,
    candidates: &[Candidate<'a>],
) -> (result: Selection<'a>)
    ensures
        decided(preference, request, *contract, *policy, budget, candidates@, result),
{
    if !contract.is_trustworthy() {
        return Selection::Unverified { reason: MemoryEvidenceVerdict::Invalid };
    }
    let effective = match budget {
        Some(budget) => budget.effective_gb(),
        None => None,
    };
    match effective {
        Some(available_gb) => walk(
            preference,
            request,
            contract,
            policy,
            available_gb,
            available_gb.byte_ceiling(),
            candidates,
        ),
        None => Selection::Unverified { reason: MemoryEvidenceVerdict::Missing },
    }
}

/// The candidate that carries a selection of `strategy` under a preference: its place among the
/// candidates, how it was admitted, and the byte ceiling at which it was graded. `None` where
/// `strategy` cannot be selected.
pub fn carrying_candidate<'a>(
    preference: MemoryPreference,
    request: RequestScope<'a>,
    contract: &MemoryProviderContract,
    policy: &MarginPolicy,
    budget: Option<Budget>,
    candidates: &[Candidate<'a>],
    strategy: MemoryStrategy,
) -> (result: Option<(usize, CandidateCurrency, u64)>)
    ensures
        result is Some <==> {
            &&& contract.trustworthy()
            &&& budget is Some
            &&& budget->Some_0.coherent()
            &&& contest_of(
                request,
                *contract,
                *policy,
                budget->Some_0.effective_bytes(),
                candidates@,
            ).selectable(strategy)
        },
        result matches Some((index, currency, peak)) ==> {
            let contest = contest_of(
                request,
                *contract,
                *policy,
                budget->Some_0.effective_bytes(),
                candidates@,
            );
            &&& contest.carried(index as int, preference, strategy)
            &&& contest.admission(index as int) == Ok::<_, MemoryEvidenceVerdict>(currency)
            &&& peak == contest.peak(index as int)
        },
{
    if !contract.is_trustworthy() {
        return None;
    }
    let effective = match budget {
        Some(budget) => budget.effective_gb(),
        None => None,
    };
    let available_bytes: u64 = match effective {
        Some(available_gb) => available_gb.byte_ceiling(),
        None => {
            return None;
        },
    };
    let ghost contest = contest_of(
        request,
        *contract,
        *policy,
        available_bytes as nat,
        candidates@,
    );
    let grade = grade_rung(request, contract, policy, available_bytes, candidates, strategy);
    let resident = grade_rung(
        request,
        contract,
        policy,
        available_bytes,
        candidates,
        MemoryStrategy::Resident,
    );
    proof {
        contest.lemma_grade(grade, strategy, strategy.depth());
        contest.lemma_grade(resident, MemoryStrategy::Resident, 0);
        reveal(RungGrade::describes);
    }
    let resident_fits = match resident {
        RungGrade::Fits { .. } => true,
        _ => false,
    };
    match grade {
        RungGrade::Fits { choice, verified } => {
            let (carrier, _) = carrier_of(preference, strategy, choice, verified, resident_fits);
            Some((carrier.index, carrier.currency, carrier.peak))
        },
        _ => None,
    }
}

/// Selects a memory strategy under the process-wide preference, given the value of
/// `SCENEWORKS_MEMORY_PREFER_OFFLOAD` where it is set. To drive the preference per request instead,
/// call [`select_strategy_with`] with [`MemoryPreference::from_request`].
pub fn select_strategy<'a>(
    setting: Option<&str>,
    request: RequestScope<'a>,
    contract: &MemoryProviderContract,
    policy: &MarginPolicy,
    budget: Option<Budget>,
    candidates: &[Candidate<'a>],
) -> (result: Selection<'a>)
    ensures
        decided(
            match setting {
                Some(raw) => crate::preference::configured_preference(raw@),
                None => MemoryPreference::Default,
            },
            request,
            *contract,
            *policy,
            budget,
            candidates@,
            result,
        ),
{
    select_strategy_with(
        MemoryPreference::from_env(setting),
        request,
        contract,
        policy,
        budget,
        candidates,
    )
}

} // verus!
