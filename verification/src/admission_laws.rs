//! What holds of every admission, stated on the records themselves.

use crate::evidence::{
    Candidate, CandidateBasis, CandidateCurrency, MemoryConformanceState, MemoryEvidenceKey,
    MemoryMode, MemoryNumericTier, MemoryStrategyParameters, ModeView, RequestScope,
};
use crate::provider::{MemoryBackend, MemoryProviderContract};
use crate::verdict::MemoryEvidenceVerdict;
use vstd::prelude::*;

verus! {

/// Two tiers compare as equal exactly where precision, quantization and every precision floor, in
/// order, carry the same labels.
pub proof fn law_equal_tiers_agree_in_every_label(a: MemoryNumericTier, b: MemoryNumericTier)
    ensures
        a@ == b@ <==> {
            &&& a.precision@ == b.precision@
            &&& match (a.quant, b.quant) {
                (Some(x), Some(y)) => x@ == y@,
                (None, None) => true,
                _ => false,
            }
            &&& a.component_precision_floors@.len() == b.component_precision_floors@.len()
            &&& forall|k: int|
                0 <= k < a.component_precision_floors@.len() ==> (
                #[trigger] a.component_precision_floors@[k])@ == b.component_precision_floors@[k]@
        },
{
    let x = a@.component_precision_floors;
    let y = b@.component_precision_floors;
    assert(forall|k: int|
        0 <= k < x.len() ==> x[k] == (#[trigger] a.component_precision_floors@[k])@);
    assert(forall|k: int|
        0 <= k < y.len() ==> y[k] == (#[trigger] b.component_precision_floors@[k])@);
    if a@ == b@ {
        assert forall|k: int| 0 <= k < a.component_precision_floors@.len() implies (
        #[trigger] a.component_precision_floors@[k])@ == b.component_precision_floors@[k]@ by {
            assert(x[k] == y[k]);
            assert(y[k] == b.component_precision_floors@[k]@);
        }
    }
    if a.component_precision_floors@.len() == b.component_precision_floors@.len() && (forall|k: int|
        0 <= k < a.component_precision_floors@.len() ==> (
        #[trigger] a.component_precision_floors@[k])@ == b.component_precision_floors@[k]@) {
        assert forall|k: int| 0 <= k < x.len() implies x[k] == y[k] by {
            assert(x[k] == a.component_precision_floors@[k]@);
            assert(y[k] == b.component_precision_floors@[k]@);
        }
        assert(x =~= y);
    }
}

/// Two sets of parameters compare as equal exactly where each parameter does.
pub proof fn law_equal_parameters_agree_in_every_field(
    a: MemoryStrategyParameters,
    b: MemoryStrategyParameters,
)
    ensures
        a@ == b@ <==> {
            &&& a.decode_tile_edge == b.decode_tile_edge
            &&& a.decode_overlap == b.decode_overlap
            &&& a.attention_chunk_size == b.attention_chunk_size
            &&& a.transformer_window_size == b.transformer_window_size
            &&& match (a.transformer_window_component, b.transformer_window_component) {
                (Some(x), Some(y)) => x@ == y@,
                (None, None) => true,
                _ => false,
            }
        },
{
}

/// Two evidence keys compare as equal exactly where they agree in every field, the geometry in each of
/// its components.
pub proof fn law_equal_keys_agree_in_every_field(a: MemoryEvidenceKey, b: MemoryEvidenceKey)
    ensures
        a@ == b@ <==> {
            &&& a.model_family@ == b.model_family@
            &&& a.resolved_route@ == b.resolved_route@
            &&& a.backend == b.backend
            &&& a.tier@ == b.tier@
            &&& a.load_shape == b.load_shape
            &&& match (a.mode, b.mode) {
                (MemoryMode::TextToImage, MemoryMode::TextToImage) => true,
                (MemoryMode::ImageToImage, MemoryMode::ImageToImage) => true,
                (MemoryMode::Edit, MemoryMode::Edit) => true,
                (MemoryMode::Other(x), MemoryMode::Other(y)) => x@ == y@,
                _ => false,
            }
            &&& match (a.reference_shape, b.reference_shape) {
                (Some(x), Some(y)) => x@ == y@,
                (None, None) => true,
                _ => false,
            }
            &&& match (a.overlay, b.overlay) {
                (Some(x), Some(y)) => x@ == y@,
                (None, None) => true,
                _ => false,
            }
            &&& a.geometry.width == b.geometry.width
            &&& a.geometry.height == b.geometry.height
            &&& a.geometry.batch == b.geometry.batch
            &&& a.geometry.frames == b.geometry.frames
            &&& a.geometry.reference_count == b.geometry.reference_count
            &&& a.frames_per_second == b.frames_per_second
            &&& a.strategy == b.strategy
            &&& a.engaged_composition@ == b.engaged_composition@
            &&& a.parameters@ == b.parameters@
        },
{
}

/// A candidate is admitted only where request, contract, evidence and selection name the same route,
/// backend, tier, strategy and parameters, where the evidence was taken for the request's mode,
/// overlay and geometry in each of its components, and where the contract accepts the selection.
pub proof fn law_admitted_candidate_covers_the_request(
    request: RequestScope,
    contract: MemoryProviderContract,
    candidate: Candidate,
)
    requires
        crate::evidence::admission(request, contract, candidate) is Ok,
    ensures
        ({
            let key = candidate.evidence.key;
            let selection = candidate.selection;
            &&& request.resolved_route@ == contract.provider_id@
            &&& key.resolved_route@ == contract.provider_id@
            &&& request.backend@ == contract.backend_id@
            &&& contract.backend_id@ == match key.backend {
                MemoryBackend::Candle => "candle"@,
                MemoryBackend::Mlx => "mlx"@,
            }
            &&& selection.tier@ == request.tier@
            &&& key.tier@ == request.tier@
            &&& key.strategy == selection.strategy
            &&& key.parameters@ == selection.parameters@
            &&& request.mode@ == match key.mode {
                MemoryMode::TextToImage => "text_to_image"@,
                MemoryMode::ImageToImage => "image_to_image"@,
                MemoryMode::Edit => "edit"@,
                MemoryMode::Other(label) => label@,
            }
            &&& match (key.overlay, request.overlay) {
                (Some(x), Some(y)) => x@ == y@,
                (None, None) => true,
                _ => false,
            }
            &&& key.geometry.width == request.geometry.width
            &&& key.geometry.height == request.geometry.height
            &&& key.geometry.batch == request.geometry.batch
            &&& key.geometry.frames == request.geometry.frames
            &&& key.geometry.reference_count == request.geometry.reference_count
            &&& candidate.finding.selection_accepted
        }),
{
}

/// A candidate whose identity differs from the request's or the contract's in any part is invalid.
pub proof fn law_foreign_candidate_is_invalid(
    request: RequestScope,
    contract: MemoryProviderContract,
    candidate: Candidate,
)
    requires
        ({
            let key = candidate.evidence.key;
            ||| request.resolved_route@ != contract.provider_id@
            ||| key.resolved_route@ != request.resolved_route@
            ||| request.backend@ != contract.backend_id@
            ||| key.backend == MemoryBackend::Candle && contract.backend_id@ != "candle"@
            ||| key.backend == MemoryBackend::Mlx && contract.backend_id@ != "mlx"@
            ||| candidate.selection.tier@ != request.tier@
            ||| key.tier@ != request.tier@
            ||| key.strategy != candidate.selection.strategy
            ||| key.parameters.decode_tile_edge != candidate.selection.parameters.decode_tile_edge
            ||| key.parameters.decode_overlap != candidate.selection.parameters.decode_overlap
            ||| key.parameters.attention_chunk_size
                != candidate.selection.parameters.attention_chunk_size
            ||| key.parameters.transformer_window_size
                != candidate.selection.parameters.transformer_window_size
            ||| key.parameters@ != candidate.selection.parameters@
        }),
    ensures
        crate::evidence::admission(request, contract, candidate) == Err::<CandidateCurrency, _>(
            MemoryEvidenceVerdict::Invalid,
        ),
{
}

/// Evidence that covers one request does not cover another whose geometry differs in any component,
/// or whose mode or overlay differs: there the candidate is out of the envelope.
pub proof fn law_evidence_covers_one_envelope(
    request: RequestScope,
    other: RequestScope,
    contract: MemoryProviderContract,
    candidate: Candidate,
)
    requires
        crate::evidence::admission(request, contract, candidate) is Ok,
        other.resolved_route@ == request.resolved_route@,
        other.backend@ == request.backend@,
        other.tier@ == request.tier@,
        ({
            ||| other.geometry.width != request.geometry.width
            ||| other.geometry.height != request.geometry.height
            ||| other.geometry.batch != request.geometry.batch
            ||| other.geometry.frames != request.geometry.frames
            ||| other.geometry.reference_count != request.geometry.reference_count
            ||| other.mode@ != request.mode@
            ||| other.overlay is Some != request.overlay is Some
            ||| other.overlay is Some && other.overlay->Some_0@ != request.overlay->Some_0@
        }),
    ensures
        crate::evidence::admission(other, contract, candidate) == Err::<CandidateCurrency, _>(
            MemoryEvidenceVerdict::OutOfEnvelope,
        ),
{
}

/// A candidate that names the request's identity but was taken at another geometry, in any component,
/// or for another mode or overlay, is out of the envelope.
pub proof fn law_other_envelope_is_out_of_envelope(
    request: RequestScope,
    contract: MemoryProviderContract,
    candidate: Candidate,
)
    requires
        request.resolved_route@ == contract.provider_id@,
        candidate.evidence.key.resolved_route@ == contract.provider_id@,
        request.backend@ == contract.backend_id@,
        contract.backend_id@ == match candidate.evidence.key.backend {
            MemoryBackend::Candle => "candle"@,
            MemoryBackend::Mlx => "mlx"@,
        },
        candidate.selection.tier@ == request.tier@,
        candidate.evidence.key.tier@ == request.tier@,
        candidate.evidence.key.strategy == candidate.selection.strategy,
        candidate.evidence.key.parameters@ == candidate.selection.parameters@,
        ({
            let key = candidate.evidence.key;
            ||| key.geometry.width != request.geometry.width
            ||| key.geometry.height != request.geometry.height
            ||| key.geometry.batch != request.geometry.batch
            ||| key.geometry.frames != request.geometry.frames
            ||| key.geometry.reference_count != request.geometry.reference_count
            ||| key.overlay is Some != request.overlay is Some
            ||| key.overlay is Some && key.overlay->Some_0@ != request.overlay->Some_0@
            ||| request.mode@ != match key.mode {
                MemoryMode::TextToImage => "text_to_image"@,
                MemoryMode::ImageToImage => "image_to_image"@,
                MemoryMode::Edit => "edit"@,
                MemoryMode::Other(label) => label@,
            }
        }),
    ensures
        crate::evidence::admission(request, contract, candidate) == Err::<CandidateCurrency, _>(
            MemoryEvidenceVerdict::OutOfEnvelope,
        ),
{
}

/// A candidate that covers the request is judged by the contract's finding: a refused selection is
/// invalid; an eligible measurement is current where its closure digest is the live one and stale
/// otherwise; an estimate is admitted where it is eligible or at most unverified; and any other finding
/// is the reason for which it is excluded.
pub proof fn law_covering_candidate_is_judged_by_the_finding(
    request: RequestScope,
    contract: MemoryProviderContract,
    candidate: Candidate,
)
    requires
        request.resolved_route@ == contract.provider_id@,
        candidate.evidence.key.resolved_route@ == contract.provider_id@,
        request.backend@ == contract.backend_id@,
        contract.backend_id@ == match candidate.evidence.key.backend {
            MemoryBackend::Candle => "candle"@,
            MemoryBackend::Mlx => "mlx"@,
        },
        candidate.selection.tier@ == request.tier@,
        candidate.evidence.key.tier@ == request.tier@,
        candidate.evidence.key.strategy == candidate.selection.strategy,
        candidate.evidence.key.parameters@ == candidate.selection.parameters@,
        request.mode@ == match candidate.evidence.key.mode {
            MemoryMode::TextToImage => "text_to_image"@,
            MemoryMode::ImageToImage => "image_to_image"@,
            MemoryMode::Edit => "edit"@,
            MemoryMode::Other(label) => label@,
        },
        match (candidate.evidence.key.overlay, request.overlay) {
            (Some(x), Some(y)) => x@ == y@,
            (None, None) => true,
            _ => false,
        },
        candidate.evidence.key.geometry.width == request.geometry.width,
        candidate.evidence.key.geometry.height == request.geometry.height,
        candidate.evidence.key.geometry.batch == request.geometry.batch,
        candidate.evidence.key.geometry.frames == request.geometry.frames,
        candidate.evidence.key.geometry.reference_count == request.geometry.reference_count,
    ensures
        ({
            let outcome = crate::evidence::admission(request, contract, candidate);
            let live = candidate.closure_digest@ == request.expected_closure_digest@;
            let measured = candidate.basis == CandidateBasis::Measured;
            if !candidate.finding.selection_accepted {
                outcome == Err::<CandidateCurrency, _>(MemoryEvidenceVerdict::Invalid)
            } else {
                match candidate.finding.eligibility {
                    Ok(()) => outcome is Ok && (outcome->Ok_0 == CandidateCurrency::Current
                        <==> measured && live) && (outcome->Ok_0 == CandidateCurrency::StaleClosure
                        <==> measured && !live) && (outcome->Ok_0 == CandidateCurrency::Estimate
                        <==> !measured),
                    Err(reason) => if reason != MemoryEvidenceVerdict::Unverified || (measured
                        && candidate.evidence.conformance == MemoryConformanceState::Verified) {
                        outcome == Err::<CandidateCurrency, _>(reason)
                    } else if measured {
                        outcome is Err
                    } else {
                        outcome == Ok::<_, MemoryEvidenceVerdict>(CandidateCurrency::Estimate)
                    },
                }
            }
        }),
{
    assert(candidate.evidence.key.geometry == request.geometry);
}

/// A measurement that is excluded for a lack of verification is given the most specific verdict among
/// its dimensions that are not satisfied, and the generic one only where no dimension names another.
pub proof fn law_unverified_measurement_names_its_dimension(
    request: RequestScope,
    contract: MemoryProviderContract,
    candidate: Candidate,
    reason: MemoryEvidenceVerdict,
)
    requires
        crate::evidence::identity_bound(request, contract, candidate),
        crate::evidence::within_envelope(request, candidate),
        candidate.finding.selection_accepted,
        candidate.basis == CandidateBasis::Measured,
        candidate.finding.eligibility == Err::<(), _>(MemoryEvidenceVerdict::Unverified),
        candidate.evidence.conformance != MemoryConformanceState::Verified,
        crate::evidence::admission(request, contract, candidate) == Err::<CandidateCurrency, _>(
            reason,
        ),
    ensures
        ({
            let dimensions = candidate.evidence.dimensions@;
            &&& reason != MemoryEvidenceVerdict::Satisfied
            &&& dimensions.contains(reason) || reason == MemoryEvidenceVerdict::Unverified
            &&& forall|k: int|
                0 <= k < dimensions.len() ==> crate::verdict::priority(#[trigger] dimensions[k])
                    <= crate::verdict::priority(reason)
        }),
{
    let dimensions = candidate.evidence.dimensions@;
    let reasons = crate::evidence::unsatisfied(dimensions);
    crate::verdict::law_aggregate_is_most_specific(reasons);
    assert forall|k: int| 0 <= k < dimensions.len() implies crate::verdict::priority(
        #[trigger] dimensions[k],
    ) <= crate::verdict::priority(reason) by {
        assert(dimensions.contains(dimensions[k]));
        assert(dimensions.to_set().contains(dimensions[k]));
        if dimensions[k] != MemoryEvidenceVerdict::Satisfied {
            assert(reasons.contains(dimensions[k]));
        }
    }
    if reasons.contains(reason) {
        assert(dimensions.to_set().contains(reason));
    }
}

/// Reading a label gives a mode with that very label, and a mode of its own variant is read back from
/// its label: only a label that no variant has is kept as another mode.
pub proof fn law_mode_labels_are_read_back(label: Seq<char>, mode: ModeView)
    ensures
        crate::evidence::mode_of(label).label() == label,
        !(mode is Other) ==> crate::evidence::mode_of(mode.label()) == mode,
        crate::evidence::mode_of(label) is Other <==> label != "text_to_image"@ && label
            != "image_to_image"@ && label != "edit"@,
{
    reveal_strlit("text_to_image");
    reveal_strlit("image_to_image");
    reveal_strlit("edit");
    assert("text_to_image"@.len() == 13);
    assert("image_to_image"@.len() == 14);
    assert("edit"@.len() == 4);
}

/// Whatever is not measured is an estimate, and currency ranks a current measurement before a stale one
/// before an estimate.
pub proof fn law_bases_and_currencies(basis: CandidateBasis)
    ensures
        basis.estimated() <==> basis != CandidateBasis::Measured,
        CandidateCurrency::Current.rank() > CandidateCurrency::StaleClosure.rank(),
        CandidateCurrency::StaleClosure.rank() > CandidateCurrency::Estimate.rank(),
{
}

} // verus!
