//! Measured and estimated evidence, the candidates that it backs, and the request that a candidate
//! must cover.

use crate::ladder::{LoadShape, MemoryStrategy};
use crate::provider::{MemoryBackend, MemoryProviderContract};
use crate::text::{same_optional_text, same_text};
use crate::verdict::{accumulate_reason, MemoryEvidenceVerdict};
use vstd::prelude::*;

verus! {

/// The kind of generation that a request asks for.
#[derive(Clone, Debug, PartialEq, Eq)]
pub enum MemoryMode {
    TextToImage,
    ImageToImage,
    Edit,
    /// A mode that has no variant of its own, by its label.
    Other(String),
}

/// A generation mode, with its label as characters.
#[verifier::ext_equal]
pub enum ModeView {
    TextToImage,
    ImageToImage,
    Edit,
    Other(Seq<char>),
}

impl View for MemoryMode {
    type V = ModeView;

    open spec fn view(&self) -> ModeView {
        match self {
            MemoryMode::TextToImage => ModeView::TextToImage,
            MemoryMode::ImageToImage => ModeView::ImageToImage,
            MemoryMode::Edit => ModeView::Edit,
            MemoryMode::Other(label) => ModeView::Other(label@),
        }
    }
}

impl ModeView {
    /// The label of the mode.
    pub open spec fn label(self) -> Seq<char> {
        match self {
            ModeView::TextToImage => "text_to_image"@,
            ModeView::ImageToImage => "image_to_image"@,
            ModeView::Edit => "edit"@,
            ModeView::Other(label) => label,
        }
    }
}

/// The mode that a label names.
pub open spec fn mode_of(label: Seq<char>) -> ModeView {
    if label == "text_to_image"@ {
        ModeView::TextToImage
    } else if label == "image_to_image"@ {
        ModeView::ImageToImage
    } else if label == "edit"@ {
        ModeView::Edit
    } else {
        ModeView::Other(label)
    }
}

impl MemoryMode {
    /// The canonical label of the mode.
    pub fn as_key(&self) -> (result: &str)
        ensures
            result@ == self@.label(),
    {
        match self {
            MemoryMode::TextToImage => "text_to_image",
            MemoryMode::ImageToImage => "image_to_image",
            MemoryMode::Edit => "edit",
            MemoryMode::Other(label) => label.as_str(),
        }
    }

    fn same(&self, other: &Self) -> (result: bool)
        ensures
            result == (self@ == other@),
    {
        match (self, other) {
            (MemoryMode::TextToImage, MemoryMode::TextToImage) => true,
            (MemoryMode::ImageToImage, MemoryMode::ImageToImage) => true,
            (MemoryMode::Edit, MemoryMode::Edit) => true,
            (MemoryMode::Other(a), MemoryMode::Other(b)) => same_text(a.as_str(), b.as_str()),
            _ => false,
        }
    }
}

/// The mode that a canonical label names. Every label is kept: the mode's own label is the one it was
/// made from.
pub fn memory_mode_from_mode_key(key: &str) -> (result: MemoryMode)
    ensures
        result@ == mode_of(key@),
        result@.label() == key@,
{
    if same_text(key, "text_to_image") {
        MemoryMode::TextToImage
    } else if same_text(key, "image_to_image") {
        MemoryMode::ImageToImage
    } else if same_text(key, "edit") {
        MemoryMode::Edit
    } else {
        MemoryMode::Other(key.to_owned())
    }
}

/// The numeric tier of a run, by the labels of its precision, its quantization and the precision
/// floors of its components.
#[derive(Clone, Copy, Debug, PartialEq, Eq)]
pub struct MemoryNumericTier<'a> {
    pub precision: &'a str,
    pub quant: Option<&'a str>,
    pub component_precision_floors: &'a [&'a str],
}

/// A numeric tier, with its labels as characters.
#[verifier::ext_equal]
pub struct TierView {
    pub precision: Seq<char>,
    pub quant: Option<Seq<char>>,
    pub component_precision_floors: Seq<Seq<char>>,
}

impl<'a> View for MemoryNumericTier<'a> {
    type V = TierView;

    open spec fn view(&self) -> TierView {
        TierView {
            precision: self.precision@,
            quant: crate::text::optional_view(self.quant),
            component_precision_floors: self.component_precision_floors@.map_values(
                |label: &'a str| label@,
            ),
        }
    }
}

impl<'a> MemoryNumericTier<'a> {
    fn same(&self, other: &Self) -> (result: bool)
        ensures
            result == (self@ == other@),
    {
        if !same_text(self.precision, other.precision) || !same_optional_text(
            self.quant,
            other.quant,
        ) {
            return false;
        }
        let a = self.component_precision_floors;
        let b = other.component_precision_floors;
        if a.len() != b.len() {
            assert(self@.component_precision_floors.len() != other@.component_precision_floors.len());
            return false;
        }
        let mut i: usize = 0;
        while i < a.len()
            invariant
                i <= a@.len(),
                a@.len() == b@.len(),
                a == self.component_precision_floors,
                b == other.component_precision_floors,
                forall|k: int| 0 <= k < i ==> (#[trigger] a@[k])@ == b@[k]@,
            decreases a@.len() - i,
        {
            if !same_text(a[i], b[i]) {
                assert(self@.component_precision_floors[i as int]
                    != other@.component_precision_floors[i as int]);
                return false;
            }
            i = i + 1;
        }
        assert(self@.component_precision_floors =~= other@.component_precision_floors);
        true
    }
}

/// The geometry of a request.
#[derive(Clone, Copy, Debug, PartialEq, Eq, Structural)]
pub struct MemoryGeometry {
    pub width: u32,
    pub height: u32,
    pub batch: u32,
    pub frames: u32,
    pub reference_count: u32,
}

/// The parameters of a selected strategy.
#[derive(Clone, Copy, Debug, PartialEq, Eq)]
pub struct MemoryStrategyParameters<'a> {
    pub decode_tile_edge: Option<u32>,
    pub decode_overlap: Option<u32>,
    pub attention_chunk_size: Option<u32>,
    pub transformer_window_size: Option<u32>,
    pub transformer_window_component: Option<&'a str>,
}

/// Strategy parameters, with their label as characters.
#[verifier::ext_equal]
pub struct ParametersView {
    pub decode_tile_edge: Option<u32>,
    pub decode_overlap: Option<u32>,
    pub attention_chunk_size: Option<u32>,
    pub transformer_window_size: Option<u32>,
    pub transformer_window_component: Option<Seq<char>>,
}

impl<'a> View for MemoryStrategyParameters<'a> {
    type V = ParametersView;

    open spec fn view(&self) -> ParametersView {
        ParametersView {
            decode_tile_edge: self.decode_tile_edge,
            decode_overlap: self.decode_overlap,
            attention_chunk_size: self.attention_chunk_size,
            transformer_window_size: self.transformer_window_size,
            transformer_window_component: crate::text::optional_view(
                self.transformer_window_component,
            ),
        }
    }
}

fn same_count(a: Option<u32>, b: Option<u32>) -> (result: bool)
    ensures
        result == (a == b),
{
    match (a, b) {
        (Some(x), Some(y)) => x == y,
        (None, None) => true,
        _ => false,
    }
}

impl<'a> MemoryStrategyParameters<'a> {
    fn same(&self, other: &Self) -> (result: bool)
        ensures
            result == (self@ == other@),
    {
        same_count(self.decode_tile_edge, other.decode_tile_edge) && same_count(
            self.decode_overlap,
            other.decode_overlap,
        ) && same_count(self.attention_chunk_size, other.attention_chunk_size) && same_count(
            self.transformer_window_size,
            other.transformer_window_size,
        ) && same_optional_text(
            self.transformer_window_component,
            other.transformer_window_component,
        )
    }
}

/// A strategy with its parameters and the numeric tier that it runs at.
#[derive(Clone, Copy, Debug, PartialEq, Eq)]
pub struct MemorySelection<'a> {
    pub strategy: MemoryStrategy,
    pub parameters: MemoryStrategyParameters<'a>,
    pub tier: MemoryNumericTier<'a>,
}

/// The request cell that a piece of evidence was taken for.
#[derive(Clone, Debug, PartialEq, Eq)]
pub struct MemoryEvidenceKey<'a> {
    pub model_family: String,
    pub resolved_route: String,
    pub backend: MemoryBackend,
    pub tier: MemoryNumericTier<'a>,
    pub load_shape: LoadShape,
    pub mode: MemoryMode,
    /// The label of the reference shape, where the cell has references.
    pub reference_shape: Option<String>,
    pub overlay: Option<String>,
    pub geometry: MemoryGeometry,
    pub frames_per_second: Option<u32>,
    pub strategy: MemoryStrategy,
    pub engaged_composition: Vec<MemoryStrategy>,
    pub parameters: MemoryStrategyParameters<'a>,
}

/// An evidence key, with its texts as characters.
#[verifier::ext_equal]
pub struct KeyView {
    pub model_family: Seq<char>,
    pub resolved_route: Seq<char>,
    pub backend: MemoryBackend,
    pub tier: TierView,
    pub load_shape: LoadShape,
    pub mode: ModeView,
    pub reference_shape: Option<Seq<char>>,
    pub overlay: Option<Seq<char>>,
    pub geometry: MemoryGeometry,
    pub frames_per_second: Option<u32>,
    pub strategy: MemoryStrategy,
    pub engaged_composition: Seq<MemoryStrategy>,
    pub parameters: ParametersView,
}

/// The characters of an owned text that may be absent.
pub open spec fn owned_view(text: Option<String>) -> Option<Seq<char>> {
    match text {
        Some(value) => Some(value@),
        None => None,
    }
}

impl<'a> View for MemoryEvidenceKey<'a> {
    type V = KeyView;

    open spec fn view(&self) -> KeyView {
        KeyView {
            model_family: self.model_family@,
            resolved_route: self.resolved_route@,
            backend: self.backend,
            tier: self.tier@,
            load_shape: self.load_shape,
            mode: self.mode@,
            reference_shape: owned_view(self.reference_shape),
            overlay: owned_view(self.overlay),
            geometry: self.geometry,
            frames_per_second: self.frames_per_second,
            strategy: self.strategy,
            engaged_composition: self.engaged_composition@,
            parameters: self.parameters@,
        }
    }
}

fn borrowed(text: &Option<String>) -> (result: Option<&str>)
    ensures
        crate::text::optional_view(result) == owned_view(*text),
{
    match text {
        Some(value) => Some(value.as_str()),
        None => None,
    }
}

fn same_composition(a: &Vec<MemoryStrategy>, b: &Vec<MemoryStrategy>) -> (result: bool)
    ensures
        result == (a@ == b@),
{
    if a.len() != b.len() {
        return false;
    }
    let mut i: usize = 0;
    while i < a.len()
        invariant
            i <= a@.len(),
            a@.len() == b@.len(),
            forall|k: int| 0 <= k < i ==> a@[k] == b@[k],
        decreases a@.len() - i,
    {
        if a[i] != b[i] {
            return false;
        }
        i = i + 1;
    }
    assert(a@ =~= b@);
    true
}

impl<'a> MemoryEvidenceKey<'a> {
    /// The two keys name the same cell.
    pub fn same(&self, other: &Self) -> (result: bool)
        ensures
            result == (self@ == other@),
    {
        same_text(self.model_family.as_str(), other.model_family.as_str()) && same_text(
            self.resolved_route.as_str(),
            other.resolved_route.as_str(),
        ) && self.backend == other.backend && self.tier.same(&other.tier) && self.load_shape
            == other.load_shape && self.mode.same(&other.mode) && same_optional_text(
            borrowed(&self.reference_shape),
            borrowed(&other.reference_shape),
        ) && same_optional_text(borrowed(&self.overlay), borrowed(&other.overlay)) && self.geometry
            == other.geometry && same_count(self.frames_per_second, other.frames_per_second)
            && self.strategy == other.strategy && same_composition(
            &self.engaged_composition,
            &other.engaged_composition,
        ) && self.parameters.same(&other.parameters)
    }
}

/// Whether the conformance of an implementation has been established.
#[derive(Clone, Copy, Debug, PartialEq, Eq, Structural)]
pub enum MemoryConformanceState {
    Verified,
    ImplementedUnverified,
    /// Any other state short of verification.
    Unestablished,
}

/// One evidence record.
#[derive(Clone, Debug, PartialEq, Eq)]
pub struct MemoryEvidence<'a> {
    pub key: MemoryEvidenceKey<'a>,
    pub conformance: MemoryConformanceState,
    /// The verdict of every evidence dimension, in canonical order.
    pub dimensions: Vec<MemoryEvidenceVerdict>,
    /// The integer byte ceiling that admission grades.
    pub predicted_peak_bytes: u64,
    /// Capture provenance; never compared.
    pub sceneworks_revision: String,
    /// Capture provenance; never compared.
    pub inference_revision: String,
}

/// What produced a candidate's peak.
///
/// A measured candidate is backed by a calibration record. An estimate was synthesized for a rung
/// that is implemented but not measured.
#[derive(Clone, Copy, Debug, PartialEq, Eq, Structural)]
pub enum CandidateBasis {
    /// Backed by a measured calibration record.
    Measured,
    /// Extrapolated from a measured cell's peaks per phase.
    EstimateFittedCurve,
    /// Taken from the floor of weights plus headroom.
    EstimateFloor,
}

impl CandidateBasis {
    pub open spec fn estimated(self) -> bool {
        self == CandidateBasis::EstimateFittedCurve || self == CandidateBasis::EstimateFloor
    }

    /// The label of the basis.
    pub open spec fn label(self) -> Seq<char> {
        match self {
            CandidateBasis::Measured => "measured"@,
            CandidateBasis::EstimateFittedCurve => "fitted_curve"@,
            CandidateBasis::EstimateFloor => "floor"@,
        }
    }

    /// The peak is a synthesized estimate.
    pub fn is_estimate(self) -> (result: bool)
        ensures
            result == self.estimated(),
    {
        matches!(self, CandidateBasis::EstimateFittedCurve | CandidateBasis::EstimateFloor)
    }

    /// Stable label for telemetry.
    pub fn as_key(self) -> (result: &'static str)
        ensures
            result@ == self.label(),
    {
        match self {
            CandidateBasis::Measured => "measured",
            CandidateBasis::EstimateFittedCurve => "fitted_curve",
            CandidateBasis::EstimateFloor => "floor",
        }
    }
}

/// What the provider's contract answers about a candidate.
#[derive(Clone, Copy, Debug, PartialEq, Eq)]
pub struct ContractFinding {
    /// The contract validates the candidate's selection.
    pub selection_accepted: bool,
    /// The canonical eligibility of the candidate's evidence under the contract.
    pub eligibility: Result<(), MemoryEvidenceVerdict>,
}

/// A provider estimate submitted to the selector. It carries no cost: the order of strategies is the
/// ladder's own.
#[derive(Clone, Copy, Debug, PartialEq, Eq)]
pub struct Candidate<'a> {
    pub selection: MemorySelection<'a>,
    pub evidence: &'a MemoryEvidence<'a>,
    /// The provider closure digest under which the evidence was measured.
    pub closure_digest: &'a str,
    /// Whether the peak is a measurement or a synthesized estimate.
    pub basis: CandidateBasis,
    pub finding: ContractFinding,
}

/// Exact request identity that one evidence cell must cover.
#[derive(Clone, Copy, Debug, PartialEq, Eq)]
pub struct RequestScope<'a> {
    pub resolved_route: &'a str,
    pub backend: &'a str,
    pub tier: MemoryNumericTier<'a>,
    pub mode: &'a str,
    pub overlay: Option<&'a str>,
    pub geometry: MemoryGeometry,
    /// The live compile-closure digest of the provider that is being admitted.
    pub expected_closure_digest: &'a str,
}

/// How a candidate that is not excluded was admitted: on evidence measured under the live compile
/// closure, on evidence measured under another one, or as a synthesized estimate.
#[derive(Clone, Copy, Debug, PartialEq, Eq, Structural)]
pub enum CandidateCurrency {
    Current,
    StaleClosure,
    Estimate,
}

impl CandidateCurrency {
    /// Normative precedence: a current measurement before a stale one before an estimate.
    pub open spec fn rank(self) -> int {
        match self {
            CandidateCurrency::Current => 2,
            CandidateCurrency::StaleClosure => 1,
            CandidateCurrency::Estimate => 0,
        }
    }

    /// Normative precedence; the higher number wins.
    pub fn precedence(self) -> (result: u8)
        ensures
            result == self.rank(),
    {
        match self {
            CandidateCurrency::Current => 2,
            CandidateCurrency::StaleClosure => 1,
            CandidateCurrency::Estimate => 0,
        }
    }
}

/// Request, contract, evidence and selection agree on route, backend, tier, strategy and parameters.
pub open spec fn identity_bound(
    request: RequestScope,
    contract: MemoryProviderContract,
    candidate: Candidate,
) -> bool {
    let key = candidate.evidence.key@;
    &&& request.resolved_route@ == contract.provider_id@
    &&& request.backend@ == contract.backend_id@
    &&& key.resolved_route == request.resolved_route@
    &&& key.backend.label() == contract.backend_id@
    &&& candidate.selection.tier@ == request.tier@
    &&& key.tier == request.tier@
    &&& key.strategy == candidate.selection.strategy
    &&& key.parameters == candidate.selection.parameters@
}

/// The evidence was taken for the mode, overlay and geometry that the request has.
pub open spec fn within_envelope(request: RequestScope, candidate: Candidate) -> bool {
    let key = candidate.evidence.key@;
    &&& key.mode.label() == request.mode@
    &&& key.overlay == crate::text::optional_view(request.overlay)
    &&& key.geometry == request.geometry
}

/// The dimension verdicts that are not satisfied.
pub open spec fn unsatisfied(dimensions: Seq<MemoryEvidenceVerdict>) -> Set<MemoryEvidenceVerdict> {
    dimensions.to_set().remove(MemoryEvidenceVerdict::Satisfied)
}

/// The most specific reason among the dimensions that are not satisfied, and the generic one where
/// all of them are.
pub open spec fn specific_reason(
    dimensions: Seq<MemoryEvidenceVerdict>,
) -> MemoryEvidenceVerdict {
    match crate::verdict::aggregate(unsatisfied(dimensions)) {
        Some(reason) => reason,
        None => MemoryEvidenceVerdict::Unverified,
    }
}

/// How a candidate is admitted, or why it is excluded.
pub open spec fn admission(
    request: RequestScope,
    contract: MemoryProviderContract,
    candidate: Candidate,
) -> Result<CandidateCurrency, MemoryEvidenceVerdict> {
    if !identity_bound(request, contract, candidate) {
        Err(MemoryEvidenceVerdict::Invalid)
    } else if !within_envelope(request, candidate) {
        Err(MemoryEvidenceVerdict::OutOfEnvelope)
    } else if !candidate.finding.selection_accepted {
        Err(MemoryEvidenceVerdict::Invalid)
    } else if candidate.basis.estimated() {
        match candidate.finding.eligibility {
            Ok(()) => Ok(CandidateCurrency::Estimate),
            Err(MemoryEvidenceVerdict::Unverified) => Ok(CandidateCurrency::Estimate),
            Err(reason) => Err(reason),
        }
    } else {
        match candidate.finding.eligibility {
            Ok(()) => if candidate.closure_digest@ == request.expected_closure_digest@ {
                Ok(CandidateCurrency::Current)
            } else {
                Ok(CandidateCurrency::StaleClosure)
            },
            Err(reason) => if reason == MemoryEvidenceVerdict::Unverified
                && candidate.evidence.conformance != MemoryConformanceState::Verified {
                Err(specific_reason(candidate.evidence.dimensions@))
            } else {
                Err(reason)
            },
        }
    }
}

/// The most specific unsatisfied dimension of a record whose conformance is not verified.
pub fn specific_unverified_reason(evidence: &MemoryEvidence) -> (result: MemoryEvidenceVerdict)
    ensures
        result == specific_reason(evidence.dimensions@),
{
    let mut reason: Option<MemoryEvidenceVerdict> = None;
    let dimensions = &evidence.dimensions;
    let mut i: usize = 0;
    while i < dimensions.len()
        invariant
            i <= dimensions@.len(),
            reason == crate::verdict::aggregate(unsatisfied(dimensions@.take(i as int))),
        decreases dimensions@.len() - i,
    {
        let verdict = dimensions[i];
        proof {
            let seen = dimensions@.take(i as int);
            let extended = dimensions@.take(i + 1);
            assert(extended =~= seen.push(verdict));
            assert(extended.to_set() =~= seen.to_set().insert(verdict)) by {
                assert(extended[i as int] == verdict);
                assert(forall|k: int| 0 <= k < i ==> seen[k] == extended[k]);
            }
            if verdict == MemoryEvidenceVerdict::Satisfied {
                assert(unsatisfied(extended) =~= unsatisfied(seen));
            } else {
                assert(unsatisfied(extended) =~= unsatisfied(seen).insert(verdict));
            }
            crate::verdict::lemma_aggregate_insert(unsatisfied(seen), verdict);
        }
        if verdict != MemoryEvidenceVerdict::Satisfied {
            accumulate_reason(&mut reason, verdict);
        }
        i = i + 1;
    }
    assert(dimensions@.take(i as int) =~= dimensions@);
    match reason {
        Some(reason) => reason,
        None => MemoryEvidenceVerdict::Unverified,
    }
}

/// Grades one candidate against a request: how it is admitted, or the reason that excludes it.
///
/// Closure currency is a signal, not a gate: a verified measurement taken under another closure stays
/// admissible, as stale. Identity, envelope and eligibility exclude a stale or estimated candidate
/// just as they exclude a current one; the one eligibility verdict that an estimate may carry is the
/// generic lack of verification.
pub fn candidate_exclusion(
    request: RequestScope<'_>,
    contract: &MemoryProviderContract,
    candidate: &Candidate<'_>,
) -> (result: Result<CandidateCurrency, MemoryEvidenceVerdict>)
    ensures
        result == admission(request, *contract, *candidate),
{
    let key = &candidate.evidence.key;
    if !same_text(request.resolved_route, contract.provider_id.as_str()) || !same_text(
        request.backend,
        contract.backend_id.as_str(),
    ) || !same_text(key.resolved_route.as_str(), request.resolved_route) || !same_text(
        key.backend.as_key(),
        contract.backend_id.as_str(),
    ) || !candidate.selection.tier.same(&request.tier) || !key.tier.same(&request.tier)
        || key.strategy != candidate.selection.strategy || !key.parameters.same(
        &candidate.selection.parameters,
    ) {
        return Err(MemoryEvidenceVerdict::Invalid);
    }
    if !same_text(key.mode.as_key(), request.mode) || !same_optional_text(
        borrowed(&key.overlay),
        request.overlay,
    ) || key.geometry != request.geometry {
        return Err(MemoryEvidenceVerdict::OutOfEnvelope);
    }
    if !candidate.finding.selection_accepted {
        return Err(MemoryEvidenceVerdict::Invalid);
    }
    if candidate.basis.is_estimate() {
        return match candidate.finding.eligibility {
            Ok(()) => Ok(CandidateCurrency::Estimate),
            Err(MemoryEvidenceVerdict::Unverified) => Ok(CandidateCurrency::Estimate),
            Err(reason) => Err(reason),
        };
    }
    match candidate.finding.eligibility {
        Ok(()) => {
            if same_text(candidate.closure_digest, request.expected_closure_digest) {
                Ok(CandidateCurrency::Current)
            } else {
                Ok(CandidateCurrency::StaleClosure)
            }
        },
        Err(reason) => {
            if reason == MemoryEvidenceVerdict::Unverified && candidate.evidence.conformance
                != MemoryConformanceState::Verified {
                Err(specific_unverified_reason(candidate.evidence))
            } else {
                Err(reason)
            }
        },
    }
}

} // verus!
