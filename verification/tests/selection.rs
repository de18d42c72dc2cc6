use memory_strategy::binary64::{peak_bytes_to_gb, Binary64};
use memory_strategy::budget::Budget;
use memory_strategy::evidence::{
    candidate_exclusion, Candidate, CandidateBasis, CandidateCurrency, ContractFinding,
    MemoryConformanceState, MemoryEvidence, MemoryEvidenceKey, MemoryGeometry, MemoryMode,
    MemoryNumericTier, MemorySelection, MemoryStrategyParameters, RequestScope,
};
use memory_strategy::ladder::{LoadShape, MemoryStrategy};
use memory_strategy::margin::MarginPolicy;
use memory_strategy::preference::MemoryPreference;
use memory_strategy::provider::{
    LadderSupport, MemoryBackend, MemoryCleanupSemantics, MemoryProviderContract,
    MemoryStrategySupport,
};
use memory_strategy::selector::{
    carrying_candidate, select_strategy, select_strategy_with, Selection,
};
use memory_strategy::verdict::{accumulate_reason, MemoryEvidenceVerdict};

const SW: &str = "sc-15449-contract-v1";
const INF: &str = "0c85bc9ff9fe161227efebf396a83db5e967d9ad";
/// A closure digest that is not the request's, for candidates that a test needs stale.
const STALE_CLOSURE: &str = "stale-closure-digest";
const BYTES_PER_GIB: f64 = 1024.0 * 1024.0 * 1024.0;
const GIB: u64 = 1024 * 1024 * 1024;

const CANDLE_STALE_MEASURED_MARGIN: f64 = 0.02;
const MLX_STALE_MEASURED_MARGIN: f64 = 0.252;
const CANDLE_ESTIMATE_MARGIN: f64 = 0.06;
const MLX_ESTIMATE_MARGIN: f64 = 0.3;

fn policy() -> MarginPolicy {
    MarginPolicy {
        candle_stale_measured: binary64(CANDLE_STALE_MEASURED_MARGIN),
        mlx_stale_measured: binary64(MLX_STALE_MEASURED_MARGIN),
        candle_estimate: binary64(CANDLE_ESTIMATE_MARGIN),
        mlx_estimate: binary64(MLX_ESTIMATE_MARGIN),
    }
}

fn binary64(value: f64) -> Binary64 {
    Binary64::from_bits(value.to_bits())
}

fn number(value: Binary64) -> f64 {
    f64::from_bits(value.to_bits())
}

fn budget_of(available: f64, reclaimable: f64, total: f64, headroom: f64) -> Option<Budget> {
    Some(Budget {
        available_gb: binary64(available),
        reclaimable_gb: binary64(reclaimable),
        total_gb: binary64(total),
        reserved_headroom_gb: binary64(headroom),
    })
}

fn budget(available: f64) -> Option<Budget> {
    budget_of(available, 0.0, available, 0.0)
}

fn tier() -> MemoryNumericTier<'static> {
    MemoryNumericTier { precision: "bf16", quant: Some("q4"), component_precision_floors: &[] }
}

fn contract() -> MemoryProviderContract {
    let implemented = Some(MemoryStrategySupport::Implemented);
    MemoryProviderContract {
        provider_id: "test".to_owned(),
        backend_id: "candle".to_owned(),
        backend_kind: MemoryBackend::Candle,
        conformance_errors: vec![],
        cancellation: MemoryCleanupSemantics::SynchronizeAndReleaseActivePhasesAndWindows,
        error: MemoryCleanupSemantics::SynchronizeAndReleaseActivePhasesAndWindows,
        support: LadderSupport {
            resident: implemented,
            staged_residency: implemented,
            bounded_decode: implemented,
            bounded_attention: implemented,
            bounded_transformer_residency: implemented,
        },
    }
}

fn without(mut provider: MemoryProviderContract, strategies: &[MemoryStrategy]) -> MemoryProviderContract {
    for strategy in strategies {
        let missing = Some(MemoryStrategySupport::Missing);
        match strategy {
            MemoryStrategy::Resident => provider.support.resident = missing,
            MemoryStrategy::StagedResidency => provider.support.staged_residency = missing,
            MemoryStrategy::BoundedDecode => provider.support.bounded_decode = missing,
            MemoryStrategy::BoundedAttention => provider.support.bounded_attention = missing,
            MemoryStrategy::BoundedTransformerResidency => {
                provider.support.bounded_transformer_residency = missing
            }
        }
    }
    provider
}

fn staged_only_provider() -> MemoryProviderContract {
    without(
        contract(),
        &[
            MemoryStrategy::Resident,
            MemoryStrategy::BoundedDecode,
            MemoryStrategy::BoundedAttention,
            MemoryStrategy::BoundedTransformerResidency,
        ],
    )
}

fn no_params() -> MemoryStrategyParameters<'static> {
    MemoryStrategyParameters {
        decode_tile_edge: None,
        decode_overlap: None,
        attention_chunk_size: None,
        transformer_window_size: None,
        transformer_window_component: None,
    }
}

fn params(strategy: MemoryStrategy) -> MemoryStrategyParameters<'static> {
    let mut parameters = no_params();
    match strategy {
        MemoryStrategy::BoundedDecode => {
            parameters.decode_tile_edge = Some(512);
            parameters.decode_overlap = Some(128);
        }
        MemoryStrategy::BoundedAttention => parameters.attention_chunk_size = Some(1024),
        MemoryStrategy::BoundedTransformerResidency => {
            parameters.transformer_window_size = Some(1)
        }
        _ => {}
    }
    parameters
}

fn depth(strategy: MemoryStrategy) -> usize {
    MemoryStrategy::all().iter().position(|other| *other == strategy).unwrap()
}

fn cumulative_params(strategy: MemoryStrategy) -> MemoryStrategyParameters<'static> {
    let mut parameters = no_params();
    if depth(strategy) >= 2 {
        parameters.decode_tile_edge = Some(512);
        parameters.decode_overlap = Some(128);
    }
    if depth(strategy) >= 3 {
        parameters.attention_chunk_size = Some(1024);
    }
    if depth(strategy) >= 4 {
        parameters.transformer_window_size = Some(1);
    }
    parameters
}

fn geometry() -> MemoryGeometry {
    MemoryGeometry { width: 1024, height: 1024, batch: 1, frames: 1, reference_count: 0 }
}

fn evidence(strategy: MemoryStrategy) -> MemoryEvidence<'static> {
    MemoryEvidence {
        key: MemoryEvidenceKey {
            model_family: "test".to_owned(),
            resolved_route: "test".to_owned(),
            backend: MemoryBackend::Candle,
            tier: tier(),
            load_shape: LoadShape::DeferredMaterialization,
            mode: MemoryMode::TextToImage,
            reference_shape: None,
            overlay: None,
            geometry: geometry(),
            frames_per_second: None,
            strategy,
            engaged_composition: vec![MemoryStrategy::Resident, strategy],
            parameters: params(strategy),
        },
        conformance: MemoryConformanceState::Verified,
        dimensions: vec![MemoryEvidenceVerdict::Satisfied; 6],
        predicted_peak_bytes: 1,
        sceneworks_revision: SW.to_owned(),
        inference_revision: INF.to_owned(),
    }
}

fn estimate_evidence(strategy: MemoryStrategy) -> MemoryEvidence<'static> {
    let mut record = evidence(strategy);
    record.conformance = MemoryConformanceState::ImplementedUnverified;
    record
}

fn with_peak(mut record: MemoryEvidence<'static>, peak: u64) -> MemoryEvidence<'static> {
    record.predicted_peak_bytes = peak;
    record
}

fn request() -> RequestScope<'static> {
    RequestScope {
        resolved_route: "test",
        backend: "candle",
        tier: tier(),
        mode: "text_to_image",
        overlay: None,
        geometry: geometry(),
        expected_closure_digest: INF,
    }
}

fn accepted() -> ContractFinding {
    ContractFinding { selection_accepted: true, eligibility: Ok(()) }
}

fn judged(verdict: MemoryEvidenceVerdict) -> ContractFinding {
    ContractFinding { selection_accepted: true, eligibility: Err(verdict) }
}

/// A current measurement that the contract accepts.
fn measured<'a>(record: &'a MemoryEvidence<'a>) -> Candidate<'a> {
    Candidate {
        selection: MemorySelection {
            strategy: record.key.strategy,
            parameters: record.key.parameters,
            tier: tier(),
        },
        evidence: record,
        closure_digest: INF,
        basis: CandidateBasis::Measured,
        finding: accepted(),
    }
}

fn stale<'a>(record: &'a MemoryEvidence<'a>) -> Candidate<'a> {
    Candidate { closure_digest: STALE_CLOSURE, ..measured(record) }
}

/// An estimate, as a synthesized record is judged: its conformance is not verified.
fn estimated<'a>(record: &'a MemoryEvidence<'a>) -> Candidate<'a> {
    Candidate {
        basis: CandidateBasis::EstimateFloor,
        finding: judged(MemoryEvidenceVerdict::Unverified),
        ..measured(record)
    }
}

fn select<'a>(
    scope: RequestScope<'a>,
    provider: &MemoryProviderContract,
    budget: Option<Budget>,
    candidates: &[Candidate<'a>],
) -> Selection<'a> {
    select_strategy(None, scope, provider, &policy(), budget, candidates)
}

fn prefer<'a>(
    preference: MemoryPreference,
    provider: &MemoryProviderContract,
    budget: Option<Budget>,
    candidates: &[Candidate<'a>],
) -> Selection<'a> {
    select_strategy_with(preference, request(), provider, &policy(), budget, candidates)
}

fn strategy_of(selection: Selection) -> Option<MemoryStrategy> {
    match selection {
        Selection::Selected { selection, .. } => Some(selection.strategy),
        _ => None,
    }
}

fn needed_of(selection: Selection) -> f64 {
    match selection {
        Selection::Selected { needed_gb, .. } => number(needed_gb),
        Selection::Reject { needed_gb, .. } => number(needed_gb),
        Selection::Unverified { reason } => panic!("unverified: {reason:?}"),
    }
}

fn available_of(selection: Selection) -> f64 {
    match selection {
        Selection::Selected { available_gb, .. } => number(available_gb),
        Selection::Reject { available_gb, .. } => number(available_gb),
        Selection::Unverified { reason } => panic!("unverified: {reason:?}"),
    }
}

#[test]
fn sceneworks_revision_is_provenance_and_does_not_exclude_a_candidate() {
    let mut source_only_change = evidence(MemoryStrategy::Resident);
    source_only_change.sceneworks_revision = "provenance-only-source-revision".to_owned();
    let result = select(request(), &contract(), budget(1.0), &[measured(&source_only_change)]);
    assert_eq!(strategy_of(result), Some(MemoryStrategy::Resident));
}

#[test]
fn decimal_gib_exact_equality_fits_after_byte_ceiling_canonicalization() {
    let exact = with_peak(evidence(MemoryStrategy::Resident), (26.6 * BYTES_PER_GIB).ceil() as u64);
    let result = select(
        request(),
        &contract(),
        budget_of(28.6, 0.0, 96.0, 2.0),
        &[measured(&exact)],
    );
    assert_eq!(strategy_of(result), Some(MemoryStrategy::Resident));
}

#[test]
fn normative_order_ignores_caller_array_order_and_exact_boundary_fits() {
    let resident = with_peak(evidence(MemoryStrategy::Resident), (24.0 * BYTES_PER_GIB) as u64);
    let staged =
        with_peak(evidence(MemoryStrategy::StagedResidency), (16.0 * BYTES_PER_GIB) as u64);
    let provider = without(
        contract(),
        &[
            MemoryStrategy::BoundedDecode,
            MemoryStrategy::BoundedAttention,
            MemoryStrategy::BoundedTransformerResidency,
        ],
    );
    let result = select(
        request(),
        &provider,
        budget_of(16.0, 0.0, 24.0, 0.0),
        &[measured(&staged), measured(&resident)],
    );
    assert_eq!(strategy_of(result), Some(MemoryStrategy::StagedResidency));
    assert_eq!(available_of(result), 16.0);
}

#[test]
fn canonical_evidence_reason_is_preserved() {
    let staged = with_peak(evidence(MemoryStrategy::StagedResidency), (8.0 * BYTES_PER_GIB) as u64);
    let provider = without(contract(), &[MemoryStrategy::Resident]);
    let candidate =
        Candidate { finding: judged(MemoryEvidenceVerdict::Invalid), ..measured(&staged) };
    assert_eq!(
        select(request(), &provider, budget(10.0), &[candidate]),
        Selection::Unverified { reason: MemoryEvidenceVerdict::Invalid }
    );
}

#[test]
fn generic_unverified_conformance_surfaces_the_specific_dimension_reason() {
    let mut staged = evidence(MemoryStrategy::StagedResidency);
    staged.conformance = MemoryConformanceState::ImplementedUnverified;
    staged.dimensions[0] = MemoryEvidenceVerdict::Unverified;
    staged.dimensions[4] = MemoryEvidenceVerdict::Stale;
    let candidate =
        Candidate { finding: judged(MemoryEvidenceVerdict::Unverified), ..measured(&staged) };
    assert_eq!(
        select(request(), &staged_only_provider(), budget(10.0), &[candidate]),
        Selection::Unverified { reason: MemoryEvidenceVerdict::Stale }
    );
}

#[test]
fn later_fingerprint_failure_outranks_earlier_generic_and_missing_dimensions() {
    let mut staged = evidence(MemoryStrategy::StagedResidency);
    staged.conformance = MemoryConformanceState::ImplementedUnverified;
    staged.dimensions[0] = MemoryEvidenceVerdict::Unverified;
    staged.dimensions[1] = MemoryEvidenceVerdict::Missing;
    staged.dimensions[4] = MemoryEvidenceVerdict::FingerprintMismatch;
    let candidate =
        Candidate { finding: judged(MemoryEvidenceVerdict::Unverified), ..measured(&staged) };
    assert_eq!(
        select(request(), &staged_only_provider(), budget(10.0), &[candidate]),
        Selection::Unverified { reason: MemoryEvidenceVerdict::FingerprintMismatch }
    );
}

#[test]
fn non_default_engagement_edge_makes_formerly_green_evidence_ineligible() {
    let captured = evidence(MemoryStrategy::BoundedDecode);
    let candidate = Candidate {
        finding: judged(MemoryEvidenceVerdict::CompositionMismatch),
        ..measured(&captured)
    };
    assert_eq!(
        select(request(), &contract(), budget(10.0), &[candidate]),
        Selection::Unverified { reason: MemoryEvidenceVerdict::CompositionMismatch }
    );
}

#[test]
fn exclusion_reason_aggregation_is_order_independent_and_prefers_specific_causes() {
    let aggregate = |reasons: &[MemoryEvidenceVerdict]| {
        let mut result = None;
        for reason in reasons {
            accumulate_reason(&mut result, *reason);
        }
        result
    };
    let forward = [
        MemoryEvidenceVerdict::Unverified,
        MemoryEvidenceVerdict::Missing,
        MemoryEvidenceVerdict::Stale,
    ];
    let reverse = [
        MemoryEvidenceVerdict::Stale,
        MemoryEvidenceVerdict::Missing,
        MemoryEvidenceVerdict::Unverified,
    ];
    assert_eq!(aggregate(&forward), Some(MemoryEvidenceVerdict::Stale));
    assert_eq!(aggregate(&reverse), aggregate(&forward));
}

#[test]
fn excluded_cheaper_rung_does_not_block_a_verified_deeper_fit() {
    let mut excluded_staged = evidence(MemoryStrategy::StagedResidency);
    excluded_staged.key.backend = MemoryBackend::Mlx;
    let bounded_decode = with_peak(evidence(MemoryStrategy::BoundedDecode), 8 * GIB);
    let provider = without(
        contract(),
        &[
            MemoryStrategy::Resident,
            MemoryStrategy::BoundedAttention,
            MemoryStrategy::BoundedTransformerResidency,
        ],
    );
    let result = select(
        request(),
        &provider,
        budget(8.0),
        &[measured(&excluded_staged), measured(&bounded_decode)],
    );
    assert_eq!(strategy_of(result), Some(MemoryStrategy::BoundedDecode));
    assert_eq!(needed_of(result), 8.0);
}

fn resident_and_staged_provider() -> MemoryProviderContract {
    without(
        contract(),
        &[
            MemoryStrategy::BoundedDecode,
            MemoryStrategy::BoundedAttention,
            MemoryStrategy::BoundedTransformerResidency,
        ],
    )
}

fn unverified_resident(peak: u64) -> MemoryEvidence<'static> {
    let mut resident = with_peak(evidence(MemoryStrategy::Resident), peak);
    resident.conformance = MemoryConformanceState::ImplementedUnverified;
    resident
}

#[test]
fn resident_baseline_remains_eligible_before_verified_optimized_rungs() {
    let resident = unverified_resident(20 * GIB);
    let staged = with_peak(evidence(MemoryStrategy::StagedResidency), 8 * GIB);
    let candidates = [measured(&resident), measured(&staged)];
    let provider = resident_and_staged_provider();
    assert_eq!(
        strategy_of(select(request(), &provider, budget(20.0), &candidates)),
        Some(MemoryStrategy::Resident)
    );
    assert_eq!(
        strategy_of(select(request(), &provider, budget(8.0), &candidates)),
        Some(MemoryStrategy::StagedResidency)
    );
}

#[test]
fn prefer_offload_downgrades_resident_to_a_verified_sequential_rung() {
    let resident = unverified_resident(20 * GIB);
    let staged = with_peak(evidence(MemoryStrategy::StagedResidency), 8 * GIB);
    let candidates = [measured(&resident), measured(&staged)];
    let provider = resident_and_staged_provider();
    assert_eq!(
        strategy_of(prefer(MemoryPreference::Default, &provider, budget(20.0), &candidates)),
        Some(MemoryStrategy::Resident)
    );
    let offloaded = prefer(MemoryPreference::PreferOffload, &provider, budget(20.0), &candidates);
    assert_eq!(strategy_of(offloaded), Some(MemoryStrategy::StagedResidency));
    assert_eq!(needed_of(offloaded), 8.0);
}

#[test]
fn prefer_offload_falls_back_to_resident_when_no_lighter_rung_is_admissible() {
    let resident = unverified_resident(20 * GIB);
    let provider =
        without(resident_and_staged_provider(), &[MemoryStrategy::StagedResidency]);
    assert_eq!(
        strategy_of(prefer(
            MemoryPreference::PreferOffload,
            &provider,
            budget(20.0),
            &[measured(&resident)],
        )),
        Some(MemoryStrategy::Resident)
    );
}

#[test]
fn max_offload_prefers_the_deepest_verified_fitting_rung() {
    let resident = unverified_resident(20 * GIB);
    let staged = with_peak(evidence(MemoryStrategy::StagedResidency), 8 * GIB);
    let bounded_decode = with_peak(evidence(MemoryStrategy::BoundedDecode), 4 * GIB);
    let candidates = [measured(&resident), measured(&staged), measured(&bounded_decode)];
    let provider = without(
        contract(),
        &[MemoryStrategy::BoundedAttention, MemoryStrategy::BoundedTransformerResidency],
    );
    assert_eq!(
        strategy_of(prefer(MemoryPreference::PreferOffload, &provider, budget(20.0), &candidates)),
        Some(MemoryStrategy::StagedResidency)
    );
    let deepest = prefer(MemoryPreference::MaxOffload, &provider, budget(20.0), &candidates);
    assert_eq!(strategy_of(deepest), Some(MemoryStrategy::BoundedDecode));
    assert_eq!(needed_of(deepest), 4.0);
}

#[test]
fn canonical_character_identity_evidence_is_selectable_but_aliases_are_not() {
    let mut staged = with_peak(evidence(MemoryStrategy::StagedResidency), 8 * GIB);
    staged.key.mode = MemoryMode::Other("character_image".to_owned());
    staged.key.overlay = Some("identity".to_owned());
    staged.key.geometry.reference_count = 1;
    let provider = staged_only_provider();
    let mut scope = request();
    scope.mode = "character_image";
    scope.overlay = Some("identity");
    scope.geometry.reference_count = 1;
    assert_eq!(
        strategy_of(select(scope, &provider, budget(8.0), &[measured(&staged)])),
        Some(MemoryStrategy::StagedResidency)
    );
    scope.overlay = Some("ip_adapter");
    assert_eq!(
        select(scope, &provider, budget(8.0), &[measured(&staged)]),
        Selection::Unverified { reason: MemoryEvidenceVerdict::OutOfEnvelope }
    );
}

#[test]
fn canonical_predicted_peak_bytes_are_the_only_admission_number() {
    let provider = staged_only_provider();
    let over = with_peak(evidence(MemoryStrategy::StagedResidency), 8 * GIB + 1);
    assert!(matches!(
        select(request(), &provider, budget(8.0), &[measured(&over)]),
        Selection::Reject { .. }
    ));
    let exact = with_peak(evidence(MemoryStrategy::StagedResidency), 8 * GIB);
    let result = select(request(), &provider, budget(8.0), &[measured(&exact)]);
    assert!(matches!(result, Selection::Selected { .. }));
    assert_eq!(needed_of(result), 8.0);
    assert_eq!(available_of(result), 8.0);
}

#[test]
fn route_and_backend_identity_are_bound_across_request_contract_and_evidence() {
    let staged = evidence(MemoryStrategy::StagedResidency);
    let provider = staged_only_provider();
    let mut wrong_route = request();
    wrong_route.resolved_route = "other";
    assert_eq!(
        select(wrong_route, &provider, budget(8.0), &[measured(&staged)]),
        Selection::Unverified { reason: MemoryEvidenceVerdict::Invalid }
    );
    let mut wrong_backend = staged.clone();
    wrong_backend.key.backend = MemoryBackend::Mlx;
    assert_eq!(
        select(request(), &provider, budget(8.0), &[measured(&wrong_backend)]),
        Selection::Unverified { reason: MemoryEvidenceVerdict::Invalid }
    );
}

#[test]
fn within_rung_choice_is_fit_aware_and_declaration_order_invariant() {
    let mut high = with_peak(evidence(MemoryStrategy::BoundedDecode), 9 * GIB);
    high.key.parameters.decode_tile_edge = Some(768);
    let low = with_peak(evidence(MemoryStrategy::BoundedDecode), 7 * GIB);
    let provider = without(
        contract(),
        &[
            MemoryStrategy::Resident,
            MemoryStrategy::StagedResidency,
            MemoryStrategy::BoundedAttention,
            MemoryStrategy::BoundedTransformerResidency,
        ],
    );
    let forward =
        select(request(), &provider, budget(8.0), &[measured(&high), measured(&low)]);
    let reverse =
        select(request(), &provider, budget(8.0), &[measured(&low), measured(&high)]);
    assert_eq!(forward, reverse);
    assert!(matches!(forward, Selection::Selected { .. }));
    assert_eq!(needed_of(forward), 7.0);

    let tied_high = with_peak(high.clone(), 7 * GIB);
    let tied = select(request(), &provider, budget(8.0), &[measured(&low), measured(&tied_high)]);
    assert!(matches!(
        tied,
        Selection::Selected {
            selection: MemorySelection {
                parameters: MemoryStrategyParameters { decode_tile_edge: Some(768), .. },
                ..
            },
            ..
        }
    ));

    let mut invalid = high.clone();
    invalid.key.backend = MemoryBackend::Mlx;
    let result =
        select(request(), &provider, budget(8.0), &[measured(&invalid), measured(&low)]);
    assert!(matches!(result, Selection::Selected { .. }));
    assert_eq!(needed_of(result), 7.0);
}

/// Records whose peaks descend with the ladder: 40, 30, 20, 10 and 2 GiB.
fn descending(make: fn(MemoryStrategy) -> MemoryEvidence<'static>) -> Vec<MemoryEvidence<'static>> {
    let peaks = [40.0, 30.0, 20.0, 10.0, 2.0];
    MemoryStrategy::all()
        .into_iter()
        .zip(peaks)
        .map(|(strategy, peak)| {
            let mut record = make(strategy);
            record.key.parameters = cumulative_params(strategy);
            record.predicted_peak_bytes = (peak * BYTES_PER_GIB) as u64;
            record
        })
        .collect()
}

#[test]
fn the_cheapest_selectable_rung_wins_and_rung_four_never_beats_one_that_fits() {
    let evidences = descending(evidence);
    let candidates: Vec<Candidate> = evidences.iter().map(measured).collect();
    let provider = contract();
    let at = |available: f64| {
        select(request(), &provider, budget_of(available, 0.0, 48.0, 0.0), &candidates)
    };
    assert_eq!(strategy_of(at(12.0)), Some(MemoryStrategy::BoundedAttention));
    assert_eq!(strategy_of(at(3.0)), Some(MemoryStrategy::BoundedTransformerResidency));
    assert!(matches!(at(1.0), Selection::Reject { .. }));

    let mut invalid_attention = evidences[3].clone();
    invalid_attention.key.backend = MemoryBackend::Mlx;
    let mut with_invalid = candidates.clone();
    with_invalid[3].evidence = &invalid_attention;
    let selection =
        select(request(), &provider, budget_of(12.0, 0.0, 48.0, 0.0), &with_invalid);
    assert_eq!(strategy_of(selection), Some(MemoryStrategy::BoundedTransformerResidency));
}

#[test]
fn a_declared_host_conversion_remains_selectable() {
    let mut record =
        with_peak(evidence(MemoryStrategy::BoundedTransformerResidency), 2 * GIB);
    record.key.parameters = cumulative_params(MemoryStrategy::BoundedTransformerResidency);
    let candidates = [measured(&record)];
    let declared = contract();
    assert_eq!(
        strategy_of(select(request(), &declared, budget(8.0), &candidates)),
        Some(MemoryStrategy::BoundedTransformerResidency)
    );
    let mut undeclared = contract();
    undeclared.conformance_errors.push("host conversion names no owner".to_owned());
    assert_eq!(
        select(request(), &undeclared, budget(8.0), &candidates),
        Selection::Unverified { reason: MemoryEvidenceVerdict::Invalid }
    );
}

#[test]
fn selector_and_validator_agree_rung_by_rung_when_rung_one_is_missing() {
    let provider = without(contract(), &[MemoryStrategy::StagedResidency]);
    let validates = |strategy: MemoryStrategy| match strategy {
        MemoryStrategy::Resident
        | MemoryStrategy::BoundedDecode
        | MemoryStrategy::BoundedAttention => true,
        MemoryStrategy::StagedResidency | MemoryStrategy::BoundedTransformerResidency => false,
    };
    for probe in MemoryStrategy::all() {
        let evidences: Vec<MemoryEvidence> = MemoryStrategy::all()
            .into_iter()
            .map(|strategy| {
                let mut record = evidence(strategy);
                record.key.parameters = cumulative_params(strategy);
                record.predicted_peak_bytes = if strategy == probe { GIB } else { 100 * GIB };
                record
            })
            .collect();
        let candidates: Vec<Candidate> = evidences
            .iter()
            .map(|record| Candidate {
                finding: ContractFinding {
                    selection_accepted: validates(record.key.strategy),
                    eligibility: Ok(()),
                },
                ..measured(record)
            })
            .collect();
        let selected = strategy_of(select(request(), &provider, budget(8.0), &candidates));
        assert_eq!(selected == Some(probe), validates(probe), "{probe:?}");
    }
}

#[test]
fn exact_current_selection_is_byte_for_byte_unchanged_and_never_widened() {
    let staged = with_peak(evidence(MemoryStrategy::StagedResidency), 8 * GIB);
    let candidate = measured(&staged);
    assert_eq!(
        select(request(), &staged_only_provider(), budget(8.0), &[candidate]),
        Selection::Selected {
            selection: candidate.selection,
            needed_gb: binary64(8.0),
            available_gb: binary64(8.0),
        }
    );
}

#[test]
fn stale_closure_evidence_is_admitted_at_exactly_the_policy_widened_peak() {
    let raw_peak_bytes: u64 = 10 * GIB;
    let staged = with_peak(evidence(MemoryStrategy::StagedResidency), raw_peak_bytes);
    let result = select(request(), &staged_only_provider(), budget(11.0), &[stale(&staged)]);
    assert!(matches!(result, Selection::Selected { .. }));
    let needed_gb = needed_of(result);
    assert!(needed_gb > number(peak_bytes_to_gb(raw_peak_bytes)));
    let expected_widened_bytes =
        (raw_peak_bytes as f64 * (1.0 + CANDLE_STALE_MEASURED_MARGIN)).ceil();
    assert_eq!(needed_gb, expected_widened_bytes / BYTES_PER_GIB);
}

#[test]
fn a_fully_stale_ladder_can_still_select_a_deep_rung() {
    let evidences = descending(evidence);
    let candidates: Vec<Candidate> = evidences.iter().map(stale).collect();
    let selection =
        select(request(), &contract(), budget_of(3.0, 0.0, 48.0, 0.0), &candidates);
    assert_eq!(strategy_of(selection), Some(MemoryStrategy::BoundedTransformerResidency));
}

#[test]
fn zeroing_the_stale_margin_would_flip_this_rejection_into_a_selection() {
    let raw_peak_bytes: u64 = 8 * GIB;
    assert!(raw_peak_bytes <= (8.0 * BYTES_PER_GIB) as u64);
    let staged = with_peak(evidence(MemoryStrategy::StagedResidency), raw_peak_bytes);
    let result = select(request(), &staged_only_provider(), budget(8.0), &[stale(&staged)]);
    assert!(matches!(result, Selection::Reject { .. }));
    assert!(needed_of(result) > 8.0);
}

#[test]
fn current_evidence_beats_stale_for_the_same_key_in_either_declaration_order() {
    let provider = staged_only_provider();
    let current = with_peak(evidence(MemoryStrategy::StagedResidency), 8 * GIB);
    let older = with_peak(current.clone(), 9 * GIB);
    let forward =
        select(request(), &provider, budget(10.0), &[measured(&current), stale(&older)]);
    let reverse =
        select(request(), &provider, budget(10.0), &[stale(&older), measured(&current)]);
    assert_eq!(forward, reverse);
    assert!(matches!(forward, Selection::Selected { .. }));
    assert_eq!(needed_of(forward), 8.0);
}

#[test]
fn structural_exclusions_still_exclude_a_stale_candidate() {
    let captured = evidence(MemoryStrategy::BoundedDecode);
    let mismatched = Candidate {
        finding: judged(MemoryEvidenceVerdict::CompositionMismatch),
        ..stale(&captured)
    };
    assert_eq!(
        select(request(), &contract(), budget(10.0), &[mismatched]),
        Selection::Unverified { reason: MemoryEvidenceVerdict::CompositionMismatch }
    );
    let mut wrong_backend = evidence(MemoryStrategy::StagedResidency);
    wrong_backend.key.backend = MemoryBackend::Mlx;
    assert_eq!(
        select(request(), &staged_only_provider(), budget(10.0), &[stale(&wrong_backend)]),
        Selection::Unverified { reason: MemoryEvidenceVerdict::Invalid }
    );
}

#[test]
fn mlx_stale_admission_uses_the_mlx_margin() {
    let mut provider = staged_only_provider();
    provider.backend_id = "mlx".to_owned();
    provider.backend_kind = MemoryBackend::Mlx;
    let raw_peak_bytes: u64 = 10 * GIB;
    let mut staged = with_peak(evidence(MemoryStrategy::StagedResidency), raw_peak_bytes);
    staged.key.backend = MemoryBackend::Mlx;
    let mut scope = request();
    scope.backend = "mlx";
    let candidate = stale(&staged);
    assert!(matches!(
        select(scope, &provider, budget_of(11.0, 0.0, 48.0, 0.0), &[candidate]),
        Selection::Reject { .. }
    ));
    let result = select(scope, &provider, budget_of(13.0, 0.0, 48.0, 0.0), &[candidate]);
    assert!(matches!(result, Selection::Selected { .. }));
    let expected_widened_bytes =
        (raw_peak_bytes as f64 * (1.0 + MLX_STALE_MEASURED_MARGIN)).ceil();
    assert_eq!(needed_of(result), expected_widened_bytes / BYTES_PER_GIB);
}

#[test]
fn estimate_candidates_are_admitted_at_exactly_the_policy_widened_peak() {
    let raw_peak_bytes: u64 = 10 * GIB;
    let staged = with_peak(estimate_evidence(MemoryStrategy::StagedResidency), raw_peak_bytes);
    let result = select(request(), &staged_only_provider(), budget(11.0), &[estimated(&staged)]);
    assert!(matches!(result, Selection::Selected { .. }));
    let expected_widened_bytes = (raw_peak_bytes as f64 * (1.0 + CANDLE_ESTIMATE_MARGIN)).ceil();
    assert_eq!(needed_of(result), expected_widened_bytes / BYTES_PER_GIB);
}

#[test]
fn zeroing_the_estimate_margin_would_flip_this_rejection_into_a_selection() {
    let staged = with_peak(estimate_evidence(MemoryStrategy::StagedResidency), 8 * GIB);
    let result = select(request(), &staged_only_provider(), budget(8.0), &[estimated(&staged)]);
    assert!(matches!(result, Selection::Reject { .. }));
    assert!(needed_of(result) > 8.0);
}

#[test]
fn measured_candidates_supersede_estimates_at_the_same_rung() {
    let provider = staged_only_provider();
    let record = with_peak(evidence(MemoryStrategy::StagedResidency), 8 * GIB);
    let guess = with_peak(estimate_evidence(MemoryStrategy::StagedResidency), 4 * GIB);
    let forward =
        select(request(), &provider, budget(10.0), &[measured(&record), estimated(&guess)]);
    let reverse =
        select(request(), &provider, budget(10.0), &[estimated(&guess), measured(&record)]);
    assert_eq!(forward, reverse);
    assert!(matches!(forward, Selection::Selected { .. }));
    assert_eq!(needed_of(forward), 8.0);

    let result =
        select(request(), &provider, budget(10.0), &[estimated(&guess), stale(&record)]);
    assert!(matches!(result, Selection::Selected { .. }));
    let expected_widened_bytes =
        (8.0 * BYTES_PER_GIB * (1.0 + CANDLE_STALE_MEASURED_MARGIN)).ceil();
    assert_eq!(needed_of(result), expected_widened_bytes / BYTES_PER_GIB);

    assert!(matches!(
        select(request(), &provider, budget(5.0), &[estimated(&guess), measured(&record)]),
        Selection::Reject { .. }
    ));
}

#[test]
fn a_fully_estimate_backed_ladder_can_select_a_deep_rung() {
    let evidences = descending(estimate_evidence);
    let candidates: Vec<Candidate> = evidences.iter().map(estimated).collect();
    let selection =
        select(request(), &contract(), budget_of(3.0, 0.0, 48.0, 0.0), &candidates);
    assert_eq!(strategy_of(selection), Some(MemoryStrategy::BoundedTransformerResidency));
}

#[test]
fn cleanup_guarantees_and_budget_are_preconditions_of_any_selection() {
    let staged = evidence(MemoryStrategy::StagedResidency);
    let candidates = [measured(&staged)];
    let mut careless = staged_only_provider();
    careless.cancellation = MemoryCleanupSemantics::Weaker;
    assert_eq!(
        select(request(), &careless, budget(8.0), &candidates),
        Selection::Unverified { reason: MemoryEvidenceVerdict::Invalid }
    );
    let mut leaking = staged_only_provider();
    leaking.error = MemoryCleanupSemantics::Weaker;
    assert_eq!(
        select(request(), &leaking, budget(8.0), &candidates),
        Selection::Unverified { reason: MemoryEvidenceVerdict::Invalid }
    );
    assert_eq!(
        select(request(), &staged_only_provider(), None, &candidates),
        Selection::Unverified { reason: MemoryEvidenceVerdict::Missing }
    );
    assert_eq!(
        select(request(), &staged_only_provider(), budget(f64::NAN), &candidates),
        Selection::Unverified { reason: MemoryEvidenceVerdict::Missing }
    );
}

#[test]
fn nothing_implemented_and_nothing_submitted_are_both_missing() {
    let nothing = without(staged_only_provider(), &[MemoryStrategy::StagedResidency]);
    let staged = evidence(MemoryStrategy::StagedResidency);
    assert_eq!(
        select(request(), &nothing, budget(8.0), &[measured(&staged)]),
        Selection::Unverified { reason: MemoryEvidenceVerdict::Missing }
    );
    let mut inapplicable = nothing.clone();
    inapplicable.support.staged_residency = Some(MemoryStrategySupport::StructurallyNotApplicable);
    assert_eq!(
        select(request(), &inapplicable, budget(8.0), &[measured(&staged)]),
        Selection::Unverified { reason: MemoryEvidenceVerdict::Missing }
    );
    assert_eq!(
        select(request(), &staged_only_provider(), budget(8.0), &[]),
        Selection::Unverified { reason: MemoryEvidenceVerdict::Missing }
    );
}

#[test]
fn an_unknown_rung_outweighs_a_rejection() {
    let staged = with_peak(evidence(MemoryStrategy::StagedResidency), 9 * GIB);
    let provider = resident_and_staged_provider();
    assert_eq!(
        select(request(), &provider, budget(8.0), &[measured(&staged)]),
        Selection::Unverified { reason: MemoryEvidenceVerdict::Missing }
    );
}

#[test]
fn a_rejection_reports_the_least_requirement_of_the_ladder() {
    let evidences = descending(evidence);
    let candidates: Vec<Candidate> = evidences.iter().map(measured).collect();
    let result = select(request(), &contract(), budget(1.0), &candidates);
    assert_eq!(result, Selection::Reject { needed_gb: binary64(2.0), available_gb: binary64(1.0) });
}

#[test]
fn the_last_of_equally_good_candidates_is_taken() {
    let mut unnamed = with_peak(evidence(MemoryStrategy::BoundedDecode), GIB);
    unnamed.key.parameters.attention_chunk_size = None;
    let mut zero = unnamed.clone();
    zero.key.parameters.attention_chunk_size = Some(0);
    let result = select(
        request(),
        &contract(),
        budget(8.0),
        &[measured(&unnamed), measured(&zero)],
    );
    assert!(matches!(
        result,
        Selection::Selected { selection, .. } if selection == measured(&zero).selection
    ));
}

#[test]
fn the_process_setting_drives_the_preference() {
    let resident = with_peak(evidence(MemoryStrategy::Resident), 20 * GIB);
    let staged = with_peak(evidence(MemoryStrategy::StagedResidency), 8 * GIB);
    let decode = with_peak(evidence(MemoryStrategy::BoundedDecode), 4 * GIB);
    let candidates = [measured(&resident), measured(&staged), measured(&decode)];
    let under = |setting: Option<&str>| {
        strategy_of(select_strategy(
            setting,
            request(),
            &contract(),
            &policy(),
            budget(20.0),
            &candidates,
        ))
    };
    assert_eq!(under(None), Some(MemoryStrategy::Resident));
    assert_eq!(under(Some("off")), Some(MemoryStrategy::Resident));
    assert_eq!(under(Some(" On ")), Some(MemoryStrategy::StagedResidency));
    assert_eq!(under(Some("max")), Some(MemoryStrategy::BoundedDecode));
}

#[test]
fn every_part_of_the_request_identity_is_compared() {
    let staged = evidence(MemoryStrategy::StagedResidency);
    let provider = staged_only_provider();
    let grade = |scope: RequestScope<'static>, candidate: Candidate| {
        candidate_exclusion(scope, &provider, &candidate)
    };
    assert_eq!(grade(request(), measured(&staged)), Ok(CandidateCurrency::Current));
    assert_eq!(grade(request(), stale(&staged)), Ok(CandidateCurrency::StaleClosure));
    assert_eq!(grade(request(), estimated(&staged)), Ok(CandidateCurrency::Estimate));

    let mut scope = request();
    scope.backend = "mlx";
    assert_eq!(grade(scope, measured(&staged)), Err(MemoryEvidenceVerdict::Invalid));
    let mut scope = request();
    scope.tier.quant = None;
    assert_eq!(grade(scope, measured(&staged)), Err(MemoryEvidenceVerdict::Invalid));
    let mut scope = request();
    scope.tier.component_precision_floors = &["vae:f32"];
    assert_eq!(grade(scope, measured(&staged)), Err(MemoryEvidenceVerdict::Invalid));
    let mut scope = request();
    scope.mode = "edit";
    assert_eq!(grade(scope, measured(&staged)), Err(MemoryEvidenceVerdict::OutOfEnvelope));
    let mut scope = request();
    scope.geometry.width = 512;
    assert_eq!(grade(scope, measured(&staged)), Err(MemoryEvidenceVerdict::OutOfEnvelope));

    let mut candidate = measured(&staged);
    candidate.selection.strategy = MemoryStrategy::BoundedDecode;
    assert_eq!(grade(request(), candidate), Err(MemoryEvidenceVerdict::Invalid));
    let mut candidate = measured(&staged);
    candidate.selection.parameters.transformer_window_component = Some("unet");
    assert_eq!(grade(request(), candidate), Err(MemoryEvidenceVerdict::Invalid));
    let mut candidate = measured(&staged);
    candidate.finding.selection_accepted = false;
    assert_eq!(grade(request(), candidate), Err(MemoryEvidenceVerdict::Invalid));
}

#[test]
fn an_estimate_is_excluded_for_any_other_reason_than_lack_of_verification() {
    let staged = estimate_evidence(MemoryStrategy::StagedResidency);
    let provider = staged_only_provider();
    for reason in [
        MemoryEvidenceVerdict::Invalid,
        MemoryEvidenceVerdict::CompositionMismatch,
        MemoryEvidenceVerdict::FingerprintMismatch,
    ] {
        let candidate = Candidate { finding: judged(reason), ..estimated(&staged) };
        assert_eq!(candidate_exclusion(request(), &provider, &candidate), Err(reason));
    }
    let measurement = Candidate { basis: CandidateBasis::Measured, ..estimated(&staged) };
    assert_eq!(
        candidate_exclusion(request(), &provider, &measurement),
        Err(MemoryEvidenceVerdict::Unverified)
    );
}

#[test]
fn more_memory_keeps_the_selection_and_never_moves_it_down() {
    let evidences = descending(evidence);
    let candidates: Vec<Candidate> = evidences.iter().map(measured).collect();
    let mut last = 5;
    for available in [2.0, 10.0, 20.0, 30.0, 40.0, 100.0] {
        let result = select(request(), &contract(), budget(available), &candidates);
        let reached = depth(strategy_of(result).unwrap());
        assert!(reached < last || reached == 0);
        last = reached;
    }
}

#[test]
fn preferences_agree_where_nothing_fits_and_keep_the_tier_where_something_does() {
    let evidences = descending(evidence);
    let candidates: Vec<Candidate> = evidences.iter().map(measured).collect();
    let provider = contract();
    let all =
        [MemoryPreference::Default, MemoryPreference::PreferOffload, MemoryPreference::MaxOffload];
    for preference in all {
        assert_eq!(
            prefer(preference, &provider, budget(1.0), &candidates),
            Selection::Reject { needed_gb: binary64(2.0), available_gb: binary64(1.0) }
        );
        assert_eq!(
            prefer(preference, &provider, budget(1.0), &candidates[1..]),
            Selection::Unverified { reason: MemoryEvidenceVerdict::Missing }
        );
        assert!(matches!(
            prefer(preference, &provider, budget(40.0), &candidates),
            Selection::Selected { selection, .. } if selection.tier == tier()
        ));
    }
    let chosen = all.map(|preference| {
        strategy_of(prefer(preference, &provider, budget(40.0), &candidates)).unwrap()
    });
    assert_eq!(
        chosen,
        [
            MemoryStrategy::Resident,
            MemoryStrategy::StagedResidency,
            MemoryStrategy::BoundedTransformerResidency,
        ]
    );
}

#[test]
fn a_closure_digest_never_excludes_and_never_touches_an_estimate() {
    let record = evidence(MemoryStrategy::StagedResidency);
    let provider = staged_only_provider();
    for digest in [INF, STALE_CLOSURE, ""] {
        let measurement = Candidate { closure_digest: digest, ..measured(&record) };
        assert!(candidate_exclusion(request(), &provider, &measurement).is_ok());
        let guess = Candidate { closure_digest: digest, ..estimated(&record) };
        assert_eq!(
            candidate_exclusion(request(), &provider, &guess),
            Ok(CandidateCurrency::Estimate)
        );
    }
}

#[test]
fn a_stale_measurement_of_another_cell_stands_beside_a_current_one() {
    let current = with_peak(evidence(MemoryStrategy::StagedResidency), 6 * GIB);
    let mut other_cell = with_peak(evidence(MemoryStrategy::StagedResidency), 7 * GIB);
    other_cell.key.frames_per_second = Some(24);
    let result = select(
        request(),
        &staged_only_provider(),
        budget(8.0),
        &[stale(&other_cell), measured(&current)],
    );
    let widened = (7.0 * BYTES_PER_GIB * (1.0 + CANDLE_STALE_MEASURED_MARGIN)).ceil();
    assert_eq!(needed_of(result), widened / BYTES_PER_GIB);
}

#[test]
fn repeated_and_reordered_submissions_give_the_same_answer() {
    let evidences = descending(evidence);
    let forward: Vec<Candidate> = evidences.iter().map(measured).collect();
    let mut shuffled: Vec<Candidate> = evidences.iter().rev().map(measured).collect();
    shuffled.extend(forward.iter().copied());
    for available in [1.0, 3.0, 25.0, 64.0] {
        assert_eq!(
            select(request(), &contract(), budget(available), &forward),
            select(request(), &contract(), budget(available), &shuffled)
        );
    }
}

#[test]
fn an_unverified_estimate_is_not_preferred_over_a_fitting_resident_rung() {
    let resident = with_peak(evidence(MemoryStrategy::Resident), 10 * GIB);
    let guess = with_peak(estimate_evidence(MemoryStrategy::StagedResidency), 4 * GIB);
    let candidates = [measured(&resident), estimated(&guess)];
    let provider = resident_and_staged_provider();
    for preference in
        [MemoryPreference::Default, MemoryPreference::PreferOffload, MemoryPreference::MaxOffload]
    {
        let result = prefer(preference, &provider, budget(20.0), &candidates);
        assert_eq!(strategy_of(result), Some(MemoryStrategy::Resident));
        assert_eq!(needed_of(result), 10.0);
        // Where the resident rung does not fit, the estimate runs.
        let result = prefer(preference, &provider, budget(8.0), &candidates);
        assert_eq!(strategy_of(result), Some(MemoryStrategy::StagedResidency));
    }
    // An estimate that the contract finds eligible is verified.
    let eligible = Candidate { finding: accepted(), ..estimated(&guess) };
    let result = prefer(
        MemoryPreference::PreferOffload,
        &provider,
        budget(20.0),
        &[measured(&resident), eligible],
    );
    assert_eq!(strategy_of(result), Some(MemoryStrategy::StagedResidency));
}

#[test]
fn offload_preferences_pass_over_unverified_rungs() {
    let resident = with_peak(evidence(MemoryStrategy::Resident), 10 * GIB);
    let staged = with_peak(estimate_evidence(MemoryStrategy::StagedResidency), 4 * GIB);
    let decode = with_peak(evidence(MemoryStrategy::BoundedDecode), 3 * GIB);
    let attention = with_peak(estimate_evidence(MemoryStrategy::BoundedAttention), 2 * GIB);
    let all = [measured(&resident), estimated(&staged), measured(&decode), estimated(&attention)];
    let chosen = |preference, candidates: &[Candidate<'_>]| {
        strategy_of(prefer(preference, &contract(), budget(20.0), candidates))
    };
    assert_eq!(chosen(MemoryPreference::Default, &all), Some(MemoryStrategy::Resident));
    assert_eq!(chosen(MemoryPreference::PreferOffload, &all), Some(MemoryStrategy::BoundedDecode));
    assert_eq!(chosen(MemoryPreference::MaxOffload, &all), Some(MemoryStrategy::BoundedDecode));
    // Without a resident rung the default order stands, unless the most offload is preferred.
    let rest = &all[1..];
    assert_eq!(chosen(MemoryPreference::Default, rest), Some(MemoryStrategy::StagedResidency));
    assert_eq!(chosen(MemoryPreference::PreferOffload, rest), Some(MemoryStrategy::StagedResidency));
    assert_eq!(chosen(MemoryPreference::MaxOffload, rest), Some(MemoryStrategy::BoundedDecode));
    // Where nothing is verified, no preference changes the rung.
    let guesses = [all[1], all[3]];
    assert_eq!(chosen(MemoryPreference::MaxOffload, &guesses), Some(MemoryStrategy::StagedResidency));
}

#[test]
fn the_carrying_candidate_is_the_one_that_the_selection_rests_on() {
    let current = with_peak(evidence(MemoryStrategy::StagedResidency), 6 * GIB);
    let mut other_cell = with_peak(evidence(MemoryStrategy::StagedResidency), 7 * GIB);
    other_cell.key.frames_per_second = Some(24);
    let candidates = [measured(&current), stale(&other_cell), estimated(&current)];
    let provider = staged_only_provider();
    let carrier = |live, strategy| {
        carrying_candidate(
            MemoryPreference::Default,
            request(),
            &provider,
            &policy(),
            live,
            &candidates,
            strategy,
        )
    };
    let widened = (7.0 * BYTES_PER_GIB * (1.0 + CANDLE_STALE_MEASURED_MARGIN)).ceil() as u64;
    assert_eq!(
        carrier(budget(8.0), MemoryStrategy::StagedResidency),
        Some((1, CandidateCurrency::StaleClosure, widened))
    );
    assert_eq!(
        carrier(budget(6.5), MemoryStrategy::StagedResidency),
        Some((0, CandidateCurrency::Current, 6 * GIB))
    );
    assert_eq!(carrier(budget(1.0), MemoryStrategy::StagedResidency), None);
    assert_eq!(carrier(budget(8.0), MemoryStrategy::BoundedDecode), None);
    assert_eq!(carrier(None, MemoryStrategy::StagedResidency), None);
    let mut careless = staged_only_provider();
    careless.error = MemoryCleanupSemantics::Weaker;
    assert_eq!(
        carrying_candidate(
            MemoryPreference::Default,
            request(),
            &careless,
            &policy(),
            budget(8.0),
            &candidates,
            MemoryStrategy::StagedResidency,
        ),
        None
    );
    // With more memory the same rung does not need less.
    let needs = |available| needed_of(select(request(), &provider, budget(available), &candidates));
    assert!(needs(6.5) <= needs(8.0));
}

#[test]
fn declaration_order_does_not_decide_whether_a_rung_is_verified() {
    let resident = with_peak(evidence(MemoryStrategy::Resident), 8 * GIB);
    let record = with_peak(estimate_evidence(MemoryStrategy::StagedResidency), 4 * GIB);
    let eligible = Candidate { finding: accepted(), ..estimated(&record) };
    let guess = estimated(&record);
    let provider = resident_and_staged_provider();
    for candidates in [
        [measured(&resident), eligible, guess],
        [measured(&resident), guess, eligible],
        [guess, eligible, measured(&resident)],
    ] {
        let result = select_strategy(
            Some("1"),
            request(),
            &provider,
            &policy(),
            budget(20.0),
            &candidates,
        );
        assert_eq!(strategy_of(result), Some(MemoryStrategy::StagedResidency));
        let widened = (4.0 * BYTES_PER_GIB * (1.0 + CANDLE_ESTIMATE_MARGIN)).ceil();
        assert_eq!(needed_of(result), widened / BYTES_PER_GIB);
        let (index, _, _) = carrying_candidate(
            MemoryPreference::PreferOffload,
            request(),
            &provider,
            &policy(),
            budget(20.0),
            &candidates,
            MemoryStrategy::StagedResidency,
        )
        .unwrap();
        assert_eq!(candidates[index], eligible);
    }
}

#[test]
fn a_larger_guess_does_not_hide_a_verified_candidate() {
    let resident = with_peak(evidence(MemoryStrategy::Resident), 8 * GIB);
    let small = with_peak(estimate_evidence(MemoryStrategy::StagedResidency), 2 * GIB);
    let large = with_peak(estimate_evidence(MemoryStrategy::StagedResidency), 4 * GIB);
    let eligible = Candidate { finding: accepted(), ..estimated(&small) };
    let guess = estimated(&large);
    let provider = resident_and_staged_provider();
    let widened = |peak: f64| {
        (peak * BYTES_PER_GIB * (1.0 + CANDLE_ESTIMATE_MARGIN)).ceil() / BYTES_PER_GIB
    };
    for candidates in [
        [measured(&resident), eligible, guess],
        [measured(&resident), guess, eligible],
    ] {
        for preference in [MemoryPreference::PreferOffload, MemoryPreference::MaxOffload] {
            let result = prefer(preference, &provider, budget(20.0), &candidates);
            assert_eq!(strategy_of(result), Some(MemoryStrategy::StagedResidency));
            assert_eq!(needed_of(result), widened(2.0));
            let (index, currency, peak) = carrying_candidate(
                preference,
                request(),
                &provider,
                &policy(),
                budget(20.0),
                &candidates,
                MemoryStrategy::StagedResidency,
            )
            .unwrap();
            assert_eq!(candidates[index], eligible);
            assert_eq!(currency, CandidateCurrency::Estimate);
            assert_eq!(number(peak_bytes_to_gb(peak)), widened(2.0));
        }
        // Without a preference, and where no resident rung fits, the largest fitting peak carries.
        let result = prefer(MemoryPreference::Default, &provider, budget(6.0), &candidates);
        assert_eq!(needed_of(result), widened(4.0));
        let result = prefer(MemoryPreference::PreferOffload, &provider, budget(6.0), &candidates);
        assert_eq!(needed_of(result), widened(4.0));
        let result = prefer(MemoryPreference::MaxOffload, &provider, budget(6.0), &candidates);
        assert_eq!(needed_of(result), widened(2.0));
    }
}
