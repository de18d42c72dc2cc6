//! What a provider declares: its backend, its cleanup guarantees and the strategies it supports.

use crate::ladder::MemoryStrategy;
use vstd::prelude::*;

verus! {

/// A backend family.
#[derive(Clone, Copy, Debug, PartialEq, Eq, Structural)]
pub enum MemoryBackend {
    Candle,
    Mlx,
}

impl MemoryBackend {
    /// The label of the family.
    pub open spec fn label(self) -> Seq<char> {
        match self {
            MemoryBackend::Candle => "candle"@,
            MemoryBackend::Mlx => "mlx"@,
        }
    }

    /// The canonical label of the family.
    pub fn as_key(self) -> (result: &'static str)
        ensures
            result@ == self.label(),
    {
        match self {
            MemoryBackend::Candle => "candle",
            MemoryBackend::Mlx => "mlx",
        }
    }
}

/// What a provider does with its memory when a run ends early.
#[derive(Clone, Copy, Debug, PartialEq, Eq, Structural)]
pub enum MemoryCleanupSemantics {
    SynchronizeAndReleaseActivePhasesAndWindows,
    /// Any weaker guarantee.
    Weaker,
}

/// How far a provider supports one strategy.
#[derive(Clone, Copy, Debug, PartialEq, Eq, Structural)]
pub enum MemoryStrategySupport {
    Implemented,
    StructurallyNotApplicable,
    Missing,
}

/// The declared support for each strategy, where there is a declaration.
#[derive(Clone, Copy, Debug, PartialEq, Eq, Structural)]
pub struct LadderSupport {
    pub resident: Option<MemoryStrategySupport>,
    pub staged_residency: Option<MemoryStrategySupport>,
    pub bounded_decode: Option<MemoryStrategySupport>,
    pub bounded_attention: Option<MemoryStrategySupport>,
    pub bounded_transformer_residency: Option<MemoryStrategySupport>,
}

impl LadderSupport {
    pub open spec fn of(self, strategy: MemoryStrategy) -> Option<MemoryStrategySupport> {
        match strategy {
            MemoryStrategy::Resident => self.resident,
            MemoryStrategy::StagedResidency => self.staged_residency,
            MemoryStrategy::BoundedDecode => self.bounded_decode,
            MemoryStrategy::BoundedAttention => self.bounded_attention,
            MemoryStrategy::BoundedTransformerResidency => self.bounded_transformer_residency,
        }
    }
}

/// A provider's declaration, with the errors that its own validator found in it.
#[derive(Clone, Debug)]
pub struct MemoryProviderContract {
    pub provider_id: String,
    pub backend_id: String,
    pub backend_kind: MemoryBackend,
    pub conformance_errors: Vec<String>,
    pub cancellation: MemoryCleanupSemantics,
    pub error: MemoryCleanupSemantics,
    pub support: LadderSupport,
}

impl MemoryProviderContract {
    pub open spec fn implements(self, strategy: MemoryStrategy) -> bool {
        self.support.of(strategy) == Some(MemoryStrategySupport::Implemented)
    }

    /// The declaration is free of errors, and an early end of a run, by cancellation or by an error,
    /// synchronizes and releases everything that was active.
    pub open spec fn trustworthy(self) -> bool {
        &&& self.conformance_errors@.len() == 0
        &&& self.cancellation == MemoryCleanupSemantics::SynchronizeAndReleaseActivePhasesAndWindows
        &&& self.error == MemoryCleanupSemantics::SynchronizeAndReleaseActivePhasesAndWindows
    }

    /// The declared support for a strategy.
    pub fn capability(&self, strategy: MemoryStrategy) -> (result: Option<MemoryStrategySupport>)
        ensures
            result == self.support.of(strategy),
    {
        match strategy {
            MemoryStrategy::Resident => self.support.resident,
            MemoryStrategy::StagedResidency => self.support.staged_residency,
            MemoryStrategy::BoundedDecode => self.support.bounded_decode,
            MemoryStrategy::BoundedAttention => self.support.bounded_attention,
            MemoryStrategy::BoundedTransformerResidency => {
                self.support.bounded_transformer_residency
            },
        }
    }

    /// The strategy is implemented.
    pub fn is_implemented(&self, strategy: MemoryStrategy) -> (result: bool)
        ensures
            result == self.implements(strategy),
    {
        match self.capability(strategy) {
            Some(MemoryStrategySupport::Implemented) => true,
            _ => false,
        }
    }

    /// The declaration can be relied on at all.
    pub fn is_trustworthy(&self) -> (result: bool)
        ensures
            result == self.trustworthy(),
    {
        self.conformance_errors.len() == 0 && self.cancellation
            == MemoryCleanupSemantics::SynchronizeAndReleaseActivePhasesAndWindows && self.error
            == MemoryCleanupSemantics::SynchronizeAndReleaseActivePhasesAndWindows
    }
}

} // verus!
