//! The residency ladder: its strategies and rungs, their labels, and the compositions that a selected
//! rung engages.

use crate::text::same_text;
use vstd::prelude::*;
use vstd::string::*;

verus! {

/// A memory strategy, from the most resident to the most bounded.
#[derive(Clone, Copy, Debug, PartialEq, Eq, Structural)]
pub enum MemoryStrategy {
    Resident,
    StagedResidency,
    BoundedDecode,
    BoundedAttention,
    BoundedTransformerResidency,
}

/// A rung as calibration receipts spell it.
#[derive(Clone, Copy, Debug, PartialEq, Eq, Structural)]
pub enum StrategyRung {
    Resident,
    StagedResidency,
    BoundedDecode,
    BoundedAttention,
    BoundedTransformerResidency,
}

/// How a provider materializes its weights at load time, as calibration receipts spell it.
#[derive(Clone, Copy, Debug, PartialEq, Eq, Structural)]
pub enum LoadShapeKey {
    EagerMaterialization,
    DeferredMaterialization,
}

/// How a provider materializes its weights at load time.
#[derive(Clone, Copy, Debug, PartialEq, Eq, Structural)]
pub enum LoadShape {
    EagerMaterialization,
    DeferredMaterialization,
}

/// What one selected strategy engages: an answer for each strategy of the ladder.
#[derive(Clone, Copy, Debug, PartialEq, Eq, Structural)]
pub struct Engagement {
    pub resident: bool,
    pub staged_residency: bool,
    pub bounded_decode: bool,
    pub bounded_attention: bool,
    pub bounded_transformer_residency: bool,
}

/// What each strategy engages when it is selected.
#[derive(Clone, Copy, Debug, PartialEq, Eq, Structural)]
pub struct EngagementPolicy {
    pub resident: Engagement,
    pub staged_residency: Engagement,
    pub bounded_decode: Engagement,
    pub bounded_attention: Engagement,
    pub bounded_transformer_residency: Engagement,
}

/// The normative order in which strategies are tried.
pub open spec fn strategy_order() -> Seq<MemoryStrategy> {
    seq![
        MemoryStrategy::Resident,
        MemoryStrategy::StagedResidency,
        MemoryStrategy::BoundedDecode,
        MemoryStrategy::BoundedAttention,
        MemoryStrategy::BoundedTransformerResidency,
    ]
}

/// The canonical order of rungs, from the cheapest to the costliest.
pub open spec fn rung_order() -> Seq<StrategyRung> {
    seq![
        StrategyRung::Resident,
        StrategyRung::StagedResidency,
        StrategyRung::BoundedDecode,
        StrategyRung::BoundedAttention,
        StrategyRung::BoundedTransformerResidency,
    ]
}

impl MemoryStrategy {
    /// The place of the strategy in the normative order.
    pub open spec fn depth(self) -> int {
        match self {
            MemoryStrategy::Resident => 0,
            MemoryStrategy::StagedResidency => 1,
            MemoryStrategy::BoundedDecode => 2,
            MemoryStrategy::BoundedAttention => 3,
            MemoryStrategy::BoundedTransformerResidency => 4,
        }
    }

    /// Every strategy, in the normative order.
    pub fn all() -> (result: [MemoryStrategy; 5])
        ensures
            result@ == strategy_order(),
    {
        [
            MemoryStrategy::Resident,
            MemoryStrategy::StagedResidency,
            MemoryStrategy::BoundedDecode,
            MemoryStrategy::BoundedAttention,
            MemoryStrategy::BoundedTransformerResidency,
        ]
    }
}

impl StrategyRung {
    /// The place of the rung in the canonical order; a costlier rung has the greater cost.
    pub open spec fn cost(self) -> int {
        match self {
            StrategyRung::Resident => 0,
            StrategyRung::StagedResidency => 1,
            StrategyRung::BoundedDecode => 2,
            StrategyRung::BoundedAttention => 3,
            StrategyRung::BoundedTransformerResidency => 4,
        }
    }

    /// Every rung, in the canonical order.
    pub fn all() -> (result: [StrategyRung; 5])
        ensures
            result@ == rung_order(),
    {
        [
            StrategyRung::Resident,
            StrategyRung::StagedResidency,
            StrategyRung::BoundedDecode,
            StrategyRung::BoundedAttention,
            StrategyRung::BoundedTransformerResidency,
        ]
    }

    fn ordinal(self) -> (result: u8)
        ensures
            result == self.cost(),
    {
        match self {
            StrategyRung::Resident => 0,
            StrategyRung::StagedResidency => 1,
            StrategyRung::BoundedDecode => 2,
            StrategyRung::BoundedAttention => 3,
            StrategyRung::BoundedTransformerResidency => 4,
        }
    }
}

impl Engagement {
    pub open spec fn engages(self, strategy: MemoryStrategy) -> bool {
        match strategy {
            MemoryStrategy::Resident => self.resident,
            MemoryStrategy::StagedResidency => self.staged_residency,
            MemoryStrategy::BoundedDecode => self.bounded_decode,
            MemoryStrategy::BoundedAttention => self.bounded_attention,
            MemoryStrategy::BoundedTransformerResidency => self.bounded_transformer_residency,
        }
    }
}

impl EngagementPolicy {
    pub open spec fn of(self, selected: MemoryStrategy) -> Engagement {
        match selected {
            MemoryStrategy::Resident => self.resident,
            MemoryStrategy::StagedResidency => self.staged_residency,
            MemoryStrategy::BoundedDecode => self.bounded_decode,
            MemoryStrategy::BoundedAttention => self.bounded_attention,
            MemoryStrategy::BoundedTransformerResidency => self.bounded_transformer_residency,
        }
    }

    /// Selecting `selected` engages `strategy`.
    pub fn engages(&self, selected: MemoryStrategy, strategy: MemoryStrategy) -> (result: bool)
        ensures
            result == self.of(selected).engages(strategy),
    {
        let engagement = match selected {
            MemoryStrategy::Resident => self.resident,
            MemoryStrategy::StagedResidency => self.staged_residency,
            MemoryStrategy::BoundedDecode => self.bounded_decode,
            MemoryStrategy::BoundedAttention => self.bounded_attention,
            MemoryStrategy::BoundedTransformerResidency => self.bounded_transformer_residency,
        };
        match strategy {
            MemoryStrategy::Resident => engagement.resident,
            MemoryStrategy::StagedResidency => engagement.staged_residency,
            MemoryStrategy::BoundedDecode => engagement.bounded_decode,
            MemoryStrategy::BoundedAttention => engagement.bounded_attention,
            MemoryStrategy::BoundedTransformerResidency => engagement.bounded_transformer_residency,
        }
    }
}

/// The materialization shape that a receipt's key names.
pub fn load_shape_from_receipt(key: LoadShapeKey) -> (result: LoadShape)
    ensures
        result == match key {
            LoadShapeKey::EagerMaterialization => LoadShape::EagerMaterialization,
            LoadShapeKey::DeferredMaterialization => LoadShape::DeferredMaterialization,
        },
{
    match key {
        LoadShapeKey::EagerMaterialization => LoadShape::EagerMaterialization,
        LoadShapeKey::DeferredMaterialization => LoadShape::DeferredMaterialization,
    }
}

/// The strategy that a rung names.
pub open spec fn strategy_of(rung: StrategyRung) -> MemoryStrategy {
    match rung {
        StrategyRung::Resident => MemoryStrategy::Resident,
        StrategyRung::StagedResidency => MemoryStrategy::StagedResidency,
        StrategyRung::BoundedDecode => MemoryStrategy::BoundedDecode,
        StrategyRung::BoundedAttention => MemoryStrategy::BoundedAttention,
        StrategyRung::BoundedTransformerResidency => MemoryStrategy::BoundedTransformerResidency,
    }
}

/// The strategy that a receipt's rung names.
pub fn strategy_from_rung(rung: StrategyRung) -> (result: MemoryStrategy)
    ensures
        result == strategy_of(rung),
{
    match rung {
        StrategyRung::Resident => MemoryStrategy::Resident,
        StrategyRung::StagedResidency => MemoryStrategy::StagedResidency,
        StrategyRung::BoundedDecode => MemoryStrategy::BoundedDecode,
        StrategyRung::BoundedAttention => MemoryStrategy::BoundedAttention,
        StrategyRung::BoundedTransformerResidency => MemoryStrategy::BoundedTransformerResidency,
    }
}

/// The label of a rung.
pub open spec fn rung_label(rung: StrategyRung) -> Seq<char> {
    match rung {
        StrategyRung::Resident => "resident"@,
        StrategyRung::StagedResidency => "staged_residency"@,
        StrategyRung::BoundedDecode => "bounded_decode"@,
        StrategyRung::BoundedAttention => "bounded_attention"@,
        StrategyRung::BoundedTransformerResidency => "bounded_transformer_residency"@,
    }
}

/// The canonical label with which bindings and receipts spell a rung.
pub fn rung_key(rung: StrategyRung) -> (result: &'static str)
    ensures
        result@ == rung_label(rung),
{
    match rung {
        StrategyRung::Resident => "resident",
        StrategyRung::StagedResidency => "staged_residency",
        StrategyRung::BoundedDecode => "bounded_decode",
        StrategyRung::BoundedAttention => "bounded_attention",
        StrategyRung::BoundedTransformerResidency => "bounded_transformer_residency",
    }
}

/// No two rungs share a label, so a label names its rung.
pub proof fn law_rung_labels_are_distinct(a: StrategyRung, b: StrategyRung)
    ensures
        rung_label(a) == rung_label(b) <==> a == b,
{
    reveal_strlit("resident");
    reveal_strlit("staged_residency");
    reveal_strlit("bounded_decode");
    reveal_strlit("bounded_attention");
    reveal_strlit("bounded_transformer_residency");
    assert("resident"@.len() == 8);
    assert("staged_residency"@.len() == 16);
    assert("bounded_decode"@.len() == 14);
    assert("bounded_attention"@.len() == 17);
    assert("bounded_transformer_residency"@.len() == 29);
}

/// The rung with the label `value`; the inverse of [`rung_key`].
pub fn rung_from_key(value: &str) -> (result: Option<StrategyRung>)
    ensures
        forall|rung: StrategyRung| #[trigger]
            rung_label(rung) == value@ <==> result == Some(rung),
{
    let rungs = StrategyRung::all();
    let mut i: usize = 0;
    while i < 5
        invariant
            i <= 5,
            rungs@ == rung_order(),
            forall|k: int| 0 <= k < i ==> #[trigger] rung_label(rungs@[k]) != value@,
        decreases 5 - i,
    {
        if same_text(rung_key(rungs[i]), value) {
            let found = rungs[i];
            proof {
                assert forall|rung: StrategyRung| #[trigger] rung_label(rung) == value@ implies rung
                    == found by {
                    law_rung_labels_are_distinct(rung, found);
                }
            }
            return Some(found);
        }
        i = i + 1;
    }
    proof {
        assert forall|rung: StrategyRung| #[trigger] rung_label(rung) != value@ by {
            assert(rungs@[rung.cost()] == rung);
            assert(rung_label(rungs@[rung.cost()]) != value@);
        }
    }
    None
}

/// The rungs that a selection of `rung` engages by default, in canonical order.
pub open spec fn default_composition(
    rung: StrategyRung,
    policy: EngagementPolicy,
) -> Seq<StrategyRung> {
    rung_order().filter(
        |candidate: StrategyRung| policy.of(strategy_of(rung)).engages(strategy_of(candidate)),
    )
}

/// The composition that a selection engages when its binding declares none, read off the
/// engagement policy.
pub fn default_engaged_composition(rung: StrategyRung, policy: &EngagementPolicy) -> (result: Vec<
    StrategyRung,
>)
    ensures
        result@ == default_composition(rung, *policy),
{
    let selection = strategy_from_rung(rung);
    let rungs = StrategyRung::all();
    let mut result: Vec<StrategyRung> = Vec::new();
    let ghost engaged = |candidate: StrategyRung|
        policy.of(strategy_of(rung)).engages(strategy_of(candidate));
    let mut i: usize = 0;
    proof {
        assert(rungs@.take(0) =~= Seq::<StrategyRung>::empty());
        reveal(Seq::filter);
    }
    while i < 5
        invariant
            i <= 5,
            rungs@ == rung_order(),
            selection == strategy_of(rung),
            engaged == (|candidate: StrategyRung|
                policy.of(strategy_of(rung)).engages(strategy_of(candidate))),
            result@ == rungs@.take(i as int).filter(engaged),
        decreases 5 - i,
    {
        proof {
            reveal(Seq::filter);
            assert(rungs@.take(i + 1).drop_last() =~= rungs@.take(i as int));
        }
        if policy.engages(selection, strategy_from_rung(rungs[i])) {
            result.push(rungs[i]);
        }
        i = i + 1;
    }
    assert(rungs@.take(5) =~= rung_order());
    result
}

/// Each rung stands before the costlier ones, and none is repeated.
pub open spec fn canonical(rungs: Seq<StrategyRung>) -> bool {
    forall|i: int, j: int| 0 <= i < j < rungs.len() ==> rungs[i].cost() < rungs[j].cost()
}

/// `costlier` is the first rung of `declared` that costs more than `rung`.
pub open spec fn first_costlier(
    declared: Seq<StrategyRung>,
    rung: StrategyRung,
    costlier: StrategyRung,
) -> bool {
    exists|i: int|
        {
            &&& 0 <= i < declared.len()
            &&& #[trigger] declared[i] == costlier
            &&& costlier.cost() > rung.cost()
            &&& forall|j: int| 0 <= j < i ==> declared[j].cost() <= rung.cost()
        }
}

/// Why a declared composition is refused.
pub open spec fn composition_refusal(
    rung: StrategyRung,
    declared: Seq<StrategyRung>,
    message: Seq<char>,
) -> bool {
    if !canonical(declared) {
        message == "engagedRungs must be a unique set in canonical ladder order"@
    } else if !declared.contains(StrategyRung::Resident) || !declared.contains(rung) {
        message == "engagedRungs must contain resident and the selected rung "@ + rung_label(rung)
    } else {
        exists|costlier: StrategyRung|
            {
                &&& #[trigger] first_costlier(declared, rung, costlier)
                &&& message == "engagedRungs cannot engage "@ + rung_label(costlier)
                    + ", which is costlier than the selected rung "@ + rung_label(rung)
            }
    }
}

/// A declared composition that a binding of `rung` may publish: canonical, with the resident rung and
/// the selected one, and with nothing costlier than the selected one.
pub open spec fn publishable(rung: StrategyRung, declared: Seq<StrategyRung>) -> bool {
    &&& canonical(declared)
    &&& declared.contains(StrategyRung::Resident)
    &&& declared.contains(rung)
    &&& forall|i: int| 0 <= i < declared.len() ==> declared[i].cost() <= rung.cost()
}

fn contains_rung(rungs: &[StrategyRung], rung: StrategyRung) -> (result: bool)
    ensures
        result == rungs@.contains(rung),
{
    let mut i: usize = 0;
    while i < rungs.len()
        invariant
            i <= rungs@.len(),
            forall|k: int| 0 <= k < i ==> rungs@[k] != rung,
        decreases rungs@.len() - i,
    {
        if rungs[i] == rung {
            return true;
        }
        i = i + 1;
    }
    false
}

fn is_canonical(rungs: &[StrategyRung]) -> (result: bool)
    ensures
        result == canonical(rungs@),
{
    let mut i: usize = 1;
    while i < rungs.len()
        invariant
            1 <= i,
            i <= rungs@.len() || rungs@.len() == 0,
            forall|a: int, b: int| 0 <= a < b < i && b < rungs@.len() ==> rungs@[a].cost()
                < rungs@[b].cost(),
        decreases rungs@.len() - i,
    {
        if rungs[i - 1].ordinal() >= rungs[i].ordinal() {
            assert(!(rungs@[i - 1].cost() < rungs@[i as int].cost()));
            return false;
        }
        i = i + 1;
    }
    true
}

/// Checks a binding's declared composition and returns the composition to validate against. Without
/// a declaration the default applies; a declaration is authoritative, but it must be publishable.
pub fn engaged_composition(
    rung: StrategyRung,
    declared: Option<&[StrategyRung]>,
    policy: &EngagementPolicy,
) -> (result: Result<Vec<StrategyRung>, String>)
    ensures
        declared is None ==> {
            &&& result is Ok
            &&& result->Ok_0@ == default_composition(rung, *policy)
        },
        declared matches Some(rungs) ==> {
            &&& result is Ok <==> publishable(rung, rungs@)
            &&& result matches Ok(composition) ==> composition@ == rungs@
            &&& result matches Err(message) ==> composition_refusal(rung, rungs@, message@)
        },
{
    let rungs = match declared {
        Some(rungs) => rungs,
        None => {
            return Ok(default_engaged_composition(rung, policy));
        },
    };
    if !is_canonical(rungs) {
        return Err("engagedRungs must be a unique set in canonical ladder order".to_owned());
    }
    if !contains_rung(rungs, StrategyRung::Resident) || !contains_rung(rungs, rung) {
        return Err(
            "engagedRungs must contain resident and the selected rung ".to_owned().concat(
                rung_key(rung),
            ),
        );
    }
    let mut composition: Vec<StrategyRung> = Vec::new();
    let mut i: usize = 0;
    while i < rungs.len()
        invariant
            i <= rungs@.len(),
            declared == Some(rungs),
            canonical(rungs@),
            rungs@.contains(StrategyRung::Resident),
            rungs@.contains(rung),
            composition@ == rungs@.take(i as int),
            forall|k: int| 0 <= k < i ==> rungs@[k].cost() <= rung.cost(),
        decreases rungs@.len() - i,
    {
        let candidate = rungs[i];
        if candidate.ordinal() > rung.ordinal() {
            proof {
                assert(rungs@[i as int] == candidate);
                assert(first_costlier(rungs@, rung, candidate));
            }
            return Err(
                "engagedRungs cannot engage ".to_owned().concat(rung_key(candidate)).concat(
                    ", which is costlier than the selected rung ",
                ).concat(rung_key(rung)),
            );
        }
        composition.push(candidate);
        assert(rungs@.take(i + 1) =~= rungs@.take(i as int).push(candidate));
        i = i + 1;
    }
    assert(rungs@.take(i as int) =~= rungs@);
    Ok(composition)
}

/// The numeric parameters that an engaged composition must name, each with its minimum.
pub open spec fn required_parameters(engaged: Seq<StrategyRung>) -> Seq<(Seq<char>, u32)> {
    let decode = if engaged.contains(StrategyRung::BoundedDecode) {
        seq![("decodeTileEdge"@, 1u32), ("decodeOverlap"@, 0u32)]
    } else {
        seq![]
    };
    let attention = if engaged.contains(StrategyRung::BoundedAttention) {
        seq![("attentionChunkSize"@, 1u32)]
    } else {
        seq![]
    };
    let transformer = if engaged.contains(StrategyRung::BoundedTransformerResidency) {
        seq![("transformerWindowSize"@, 1u32)]
    } else {
        seq![]
    };
    decode + attention + transformer
}

/// Parameters with their names as characters.
pub open spec fn named_minimums(parameters: Seq<(&'static str, u32)>) -> Seq<(Seq<char>, u32)> {
    parameters.map_values(|parameter: (&'static str, u32)| (parameter.0@, parameter.1))
}

/// The numeric parameters that an engaged composition must name, with their minimums. A rung that is
/// not engaged owns no parameter.
pub fn required_numeric_parameters(engaged: &[StrategyRung]) -> (result: Vec<(&'static str, u32)>)
    ensures
        named_minimums(result@) == required_parameters(engaged@),
{
    let mut required: Vec<(&'static str, u32)> = Vec::new();
    if contains_rung(engaged, StrategyRung::BoundedDecode) {
        required.push(("decodeTileEdge", 1));
        required.push(("decodeOverlap", 0));
    }
    if contains_rung(engaged, StrategyRung::BoundedAttention) {
        required.push(("attentionChunkSize", 1));
    }
    if contains_rung(engaged, StrategyRung::BoundedTransformerResidency) {
        required.push(("transformerWindowSize", 1));
    }
    assert(named_minimums(required@) =~= required_parameters(engaged@));
    required
}

/// The policy by which a selected strategy engages itself and every cheaper one.
pub open spec fn cost_order(policy: EngagementPolicy) -> bool {
    forall|selected: MemoryStrategy, strategy: MemoryStrategy| #[trigger]
        policy.of(selected).engages(strategy) == (strategy.depth() <= selected.depth())
}

/// The default composition is in canonical order, whatever the engagement policy.
pub proof fn law_default_composition_is_canonical(rung: StrategyRung, policy: EngagementPolicy)
    ensures
        canonical(default_composition(rung, policy)),
{
    let engaged = |candidate: StrategyRung|
        policy.of(strategy_of(rung)).engages(strategy_of(candidate));
    lemma_filter_keeps_canonical(rung_order(), engaged);
}

proof fn lemma_filter_keeps_canonical(rungs: Seq<StrategyRung>, keep: spec_fn(StrategyRung) -> bool)
    requires
        canonical(rungs),
    ensures
        canonical(rungs.filter(keep)),
        forall|rung: StrategyRung| #[trigger]
            rungs.filter(keep).contains(rung) <==> rungs.contains(rung) && keep(rung),
    decreases rungs.len(),
{
    reveal(Seq::filter);
    if rungs.len() > 0 {
        let shorter = rungs.drop_last();
        let last = rungs.last();
        let kept = shorter.filter(keep);
        lemma_filter_keeps_canonical(shorter, keep);
        assert forall|rung: StrategyRung| #[trigger] rungs.contains(rung) <==> shorter.contains(rung)
            || rung == last by {
            if rungs.contains(rung) {
                let i = choose|i: int| 0 <= i < rungs.len() && rungs[i] == rung;
                if i < shorter.len() {
                    assert(shorter[i] == rung);
                }
            }
            if shorter.contains(rung) {
                let i = choose|i: int| 0 <= i < shorter.len() && shorter[i] == rung;
                assert(rungs[i] == rung);
            }
            assert(rungs[rungs.len() - 1] == last);
        }
        assert forall|i: int| 0 <= i < kept.len() implies (#[trigger] kept[i]).cost()
            < last.cost() by {
            assert(kept.contains(kept[i]));
            let k = choose|k: int| 0 <= k < shorter.len() && shorter[k] == kept[i];
            assert(rungs[k] == kept[i]);
        }
        if keep(last) {
            assert(rungs.filter(keep) =~= kept.push(last));
            assert forall|rung: StrategyRung| #[trigger]
                kept.push(last).contains(rung) <==> kept.contains(rung) || rung == last by {
                if kept.push(last).contains(rung) {
                    let i = choose|i: int|
                        0 <= i < kept.push(last).len() && kept.push(last)[i] == rung;
                    if i < kept.len() {
                        assert(kept[i] == rung);
                    }
                }
                if kept.contains(rung) {
                    let i = choose|i: int| 0 <= i < kept.len() && kept[i] == rung;
                    assert(kept.push(last)[i] == rung);
                }
                assert(kept.push(last)[kept.len() as int] == last);
            }
        }
    }
}

/// Under the cost order the default composition is cumulative, every rung up to the selected one,
/// and a binding may publish it.
pub proof fn law_cost_order_default_is_publishable(rung: StrategyRung, policy: EngagementPolicy)
    requires
        cost_order(policy),
    ensures
        publishable(rung, default_composition(rung, policy)),
        forall|other: StrategyRung| #[trigger]
            default_composition(rung, policy).contains(other) <==> other.cost() <= rung.cost(),
{
    let engaged = |candidate: StrategyRung|
        policy.of(strategy_of(rung)).engages(strategy_of(candidate));
    let composition = default_composition(rung, policy);
    lemma_filter_keeps_canonical(rung_order(), engaged);
    assert forall|other: StrategyRung| #[trigger] composition.contains(other) <==> other.cost()
        <= rung.cost() by {
        assert(rung_order()[other.cost()] == other);
        assert(strategy_of(other).depth() == other.cost());
        assert(strategy_of(rung).depth() == rung.cost());
    }
    assert forall|i: int| 0 <= i < composition.len() implies composition[i].cost()
        <= rung.cost() by {
        assert(composition.contains(composition[i]));
    }
}

/// What is declared is authoritative only if it is closed: a composition that a binding may publish
/// is determined by the rungs in it.
pub proof fn law_publishable_composition_is_a_set(
    rung: StrategyRung,
    a: Seq<StrategyRung>,
    b: Seq<StrategyRung>,
)
    requires
        publishable(rung, a),
        publishable(rung, b),
        forall|other: StrategyRung| #[trigger] a.contains(other) <==> b.contains(other),
    ensures
        a == b,
{
    lemma_canonical_is_a_set(a, b);
}

proof fn lemma_canonical_is_a_set(a: Seq<StrategyRung>, b: Seq<StrategyRung>)
    requires
        canonical(a),
        canonical(b),
        forall|other: StrategyRung| #[trigger] a.contains(other) <==> b.contains(other),
    ensures
        a == b,
    decreases a.len(),
{
    if a.len() == 0 {
        if b.len() > 0 {
            assert(b.contains(b[0]));
            assert(a.contains(b[0]));
        }
        assert(a =~= b);
    } else {
        assert(a.contains(a[0]));
        assert(b.contains(a[0]));
        let x = a.last();
        let y = b.last();
        assert(a[a.len() - 1] == x && b[b.len() - 1] == y);
        assert(a.contains(x) && b.contains(y));
        assert(b.contains(x) && a.contains(y));
        let i = choose|i: int| 0 <= i < b.len() && b[i] == x;
        let j = choose|j: int| 0 <= j < a.len() && a[j] == y;
        assert(x.cost() <= y.cost() && y.cost() <= x.cost());
        assert(x == y);
        let c = a.drop_last();
        let d = b.drop_last();
        assert forall|other: StrategyRung| #[trigger] c.contains(other) <==> d.contains(other) by {
            lemma_canonical_drop_last(a, other);
            lemma_canonical_drop_last(b, other);
            assert(a.contains(other) <==> b.contains(other));
        }
        lemma_canonical_is_a_set(c, d);
        assert(a =~= c.push(x));
        assert(b =~= d.push(y));
    }
}

proof fn lemma_canonical_drop_last(rungs: Seq<StrategyRung>, rung: StrategyRung)
    requires
        canonical(rungs),
        rungs.len() > 0,
    ensures
        rungs.drop_last().contains(rung) <==> rungs.contains(rung) && rung != rungs.last(),
{
    let shorter = rungs.drop_last();
    if shorter.contains(rung) {
        let i = choose|i: int| 0 <= i < shorter.len() && shorter[i] == rung;
        assert(rungs[i] == rung);
        assert(rungs[i].cost() < rungs[rungs.len() - 1].cost());
    }
    if rungs.contains(rung) && rung != rungs.last() {
        let i = choose|i: int| 0 <= i < rungs.len() && rungs[i] == rung;
        assert(shorter[i] == rung);
    }
}

/// The ladder goes from resident over staged residency, bounded decode and bounded attention to
/// bounded transformer residency, for strategies and for the rungs that name them alike.
pub proof fn law_order_of_the_ladder(rung: StrategyRung)
    ensures
        MemoryStrategy::Resident.depth() < MemoryStrategy::StagedResidency.depth(),
        MemoryStrategy::StagedResidency.depth() < MemoryStrategy::BoundedDecode.depth(),
        MemoryStrategy::BoundedDecode.depth() < MemoryStrategy::BoundedAttention.depth(),
        MemoryStrategy::BoundedAttention.depth()
            < MemoryStrategy::BoundedTransformerResidency.depth(),
        strategy_of(rung).depth() == rung.cost(),
        strategy_of(StrategyRung::Resident) == MemoryStrategy::Resident,
        strategy_of(StrategyRung::StagedResidency) == MemoryStrategy::StagedResidency,
        strategy_of(StrategyRung::BoundedDecode) == MemoryStrategy::BoundedDecode,
        strategy_of(StrategyRung::BoundedAttention) == MemoryStrategy::BoundedAttention,
        strategy_of(StrategyRung::BoundedTransformerResidency)
            == MemoryStrategy::BoundedTransformerResidency,
        strategy_order()[strategy_of(rung).depth()] == strategy_of(rung),
        rung_order()[rung.cost()] == rung,
        strategy_order().len() == 5,
        rung_order().len() == 5,
{
}

/// What a selected strategy engages is read off its own row of the policy, each strategy off its own
/// entry.
pub proof fn law_engagement_is_read_off_the_policy(policy: EngagementPolicy, row: Engagement)
    ensures
        policy.of(MemoryStrategy::Resident) == policy.resident,
        policy.of(MemoryStrategy::StagedResidency) == policy.staged_residency,
        policy.of(MemoryStrategy::BoundedDecode) == policy.bounded_decode,
        policy.of(MemoryStrategy::BoundedAttention) == policy.bounded_attention,
        policy.of(MemoryStrategy::BoundedTransformerResidency)
            == policy.bounded_transformer_residency,
        row.engages(MemoryStrategy::Resident) == row.resident,
        row.engages(MemoryStrategy::StagedResidency) == row.staged_residency,
        row.engages(MemoryStrategy::BoundedDecode) == row.bounded_decode,
        row.engages(MemoryStrategy::BoundedAttention) == row.bounded_attention,
        row.engages(MemoryStrategy::BoundedTransformerResidency)
            == row.bounded_transformer_residency,
{
}

/// The default composition holds exactly the rungs that the policy engages for the selected one.
pub proof fn law_default_composition_holds_what_is_engaged(
    rung: StrategyRung,
    policy: EngagementPolicy,
    engaged: StrategyRung,
)
    ensures
        default_composition(rung, policy).contains(engaged) <==> policy.of(
            strategy_of(rung),
        ).engages(strategy_of(engaged)),
{
    let keep = |candidate: StrategyRung|
        policy.of(strategy_of(rung)).engages(strategy_of(candidate));
    let order = rung_order();
    let kept = order.filter(keep);
    assert(order[engaged.cost()] == engaged);
    if keep(engaged) {
        order.lemma_filter_contains(keep, engaged.cost());
    }
    if kept.contains(engaged) {
        let k = choose|k: int| 0 <= k < kept.len() && kept[k] == engaged;
        order.lemma_filter_pred(keep, k);
    }
}

/// A declared composition may be published exactly where its rungs are in canonical order without
/// repetition, the resident rung and the selected one are among them, and none is costlier than the
/// selected one.
pub proof fn law_publishable_compositions(rung: StrategyRung, declared: Seq<StrategyRung>)
    ensures
        publishable(rung, declared) <==> {
            &&& forall|i: int, j: int|
                #![trigger declared[i], declared[j]]
                0 <= i < j < declared.len() ==> strategy_of(declared[i]).depth() < strategy_of(
                    declared[j],
                ).depth()
            &&& exists|i: int|
                0 <= i < declared.len() && #[trigger] declared[i] == StrategyRung::Resident
            &&& exists|i: int| 0 <= i < declared.len() && #[trigger] declared[i] == rung
            &&& forall|i: int|
                0 <= i < declared.len() ==> strategy_of(#[trigger] declared[i]).depth()
                    <= strategy_of(rung).depth()
        },
{
    assert forall|r: StrategyRung| strategy_of(r).depth() == #[trigger] r.cost() by {}
    if publishable(rung, declared) {
        assert(declared.contains(StrategyRung::Resident));
        assert(declared.contains(rung));
    }
}

/// A declared composition that is out of order or repeats a rung is refused for that, whatever else
/// is wrong with it.
pub proof fn law_disorder_is_reported_first(
    rung: StrategyRung,
    declared: Seq<StrategyRung>,
    message: Seq<char>,
    i: int,
    j: int,
)
    requires
        composition_refusal(rung, declared, message),
        0 <= i < j < declared.len(),
        strategy_of(declared[i]).depth() >= strategy_of(declared[j]).depth(),
    ensures
        message == "engagedRungs must be a unique set in canonical ladder order"@,
{
    assert(declared[i].cost() >= declared[j].cost());
}

/// An ordered composition without the resident rung or the selected one is refused for that, whatever
/// it engages besides.
pub proof fn law_missing_rung_is_reported_next(
    rung: StrategyRung,
    declared: Seq<StrategyRung>,
    message: Seq<char>,
)
    requires
        composition_refusal(rung, declared, message),
        forall|i: int, j: int|
            #![trigger declared[i], declared[j]]
            0 <= i < j < declared.len() ==> strategy_of(declared[i]).depth() < strategy_of(
                declared[j],
            ).depth(),
        !declared.contains(StrategyRung::Resident) || !declared.contains(rung),
    ensures
        message == "engagedRungs must contain resident and the selected rung "@ + rung_label(rung),
{
    lemma_ordered(declared);
}

proof fn lemma_ordered(declared: Seq<StrategyRung>)
    requires
        forall|i: int, j: int|
            #![trigger declared[i], declared[j]]
            0 <= i < j < declared.len() ==> strategy_of(declared[i]).depth() < strategy_of(
                declared[j],
            ).depth(),
    ensures
        canonical(declared),
{
    assert forall|i: int, j: int| 0 <= i < j < declared.len() implies declared[i].cost()
        < declared[j].cost() by {
        assert(strategy_of(declared[i]).depth() < strategy_of(declared[j]).depth());
    }
}

/// An ordered composition with the resident rung and the selected one is refused for the first rung in
/// it that is costlier than the selected one, and the message names both.
pub proof fn law_costlier_rung_is_reported_last(
    rung: StrategyRung,
    declared: Seq<StrategyRung>,
    message: Seq<char>,
) -> (i: int)
    requires
        composition_refusal(rung, declared, message),
        forall|i: int, j: int|
            #![trigger declared[i], declared[j]]
            0 <= i < j < declared.len() ==> strategy_of(declared[i]).depth() < strategy_of(
                declared[j],
            ).depth(),
        declared.contains(StrategyRung::Resident),
        declared.contains(rung),
    ensures
        0 <= i < declared.len(),
        strategy_of(declared[i]).depth() > strategy_of(rung).depth(),
        forall|j: int|
            0 <= j < i ==> strategy_of(#[trigger] declared[j]).depth() <= strategy_of(rung).depth(),
        message == "engagedRungs cannot engage "@ + rung_label(declared[i])
            + ", which is costlier than the selected rung "@ + rung_label(rung),
{
    lemma_ordered(declared);
    let costlier = choose|costlier: StrategyRung|
        {
            &&& #[trigger] first_costlier(declared, rung, costlier)
            &&& message == "engagedRungs cannot engage "@ + rung_label(costlier)
                + ", which is costlier than the selected rung "@ + rung_label(rung)
        };
    let i = choose|i: int|
        {
            &&& 0 <= i < declared.len()
            &&& #[trigger] declared[i] == costlier
            &&& costlier.cost() > rung.cost()
            &&& forall|j: int| 0 <= j < i ==> declared[j].cost() <= rung.cost()
        };
    assert forall|j: int| 0 <= j < i implies strategy_of(#[trigger] declared[j]).depth()
        <= strategy_of(rung).depth() by {
        assert(declared[j].cost() <= rung.cost());
    }
    i
}

/// A composition must name a parameter exactly where it engages the rung that owns it, tiles and
/// overlap with bounded decode, a chunk with bounded attention and a window with bounded transformer
/// residency, each once and in this order; only the overlap may be zero.
pub proof fn law_engaged_rungs_own_their_parameters(engaged: Seq<StrategyRung>)
    ensures
        ({
            let required = required_parameters(engaged);
            &&& required.contains(("decodeTileEdge"@, 1u32)) <==> engaged.contains(
                StrategyRung::BoundedDecode,
            )
            &&& required.contains(("decodeOverlap"@, 0u32)) <==> engaged.contains(
                StrategyRung::BoundedDecode,
            )
            &&& required.contains(("attentionChunkSize"@, 1u32)) <==> engaged.contains(
                StrategyRung::BoundedAttention,
            )
            &&& required.contains(("transformerWindowSize"@, 1u32)) <==> engaged.contains(
                StrategyRung::BoundedTransformerResidency,
            )
            &&& required.len() == (if engaged.contains(StrategyRung::BoundedDecode) {
                2int
            } else {
                0
            }) + (if engaged.contains(StrategyRung::BoundedAttention) {
                1int
            } else {
                0
            }) + (if engaged.contains(StrategyRung::BoundedTransformerResidency) {
                1int
            } else {
                0
            })
            &&& engaged.contains(StrategyRung::BoundedDecode) ==> required[0] == (
                "decodeTileEdge"@,
                1u32,
            ) && required[1] == ("decodeOverlap"@, 0u32)
            &&& engaged.contains(StrategyRung::BoundedTransformerResidency) ==> required.last() == (
                "transformerWindowSize"@,
                1u32,
            )
        }),
{
    reveal_strlit("decodeTileEdge");
    reveal_strlit("decodeOverlap");
    reveal_strlit("attentionChunkSize");
    reveal_strlit("transformerWindowSize");
    assert("decodeTileEdge"@.len() == 14 && "decodeOverlap"@.len() == 13);
    assert("attentionChunkSize"@.len() == 18 && "transformerWindowSize"@.len() == 21);
    let required = required_parameters(engaged);
    let decode = engaged.contains(StrategyRung::BoundedDecode);
    let attention = engaged.contains(StrategyRung::BoundedAttention);
    let d: int = if decode {
        2
    } else {
        0
    };
    let a: int = if attention {
        1
    } else {
        0
    };
    if decode {
        assert(required[0] == ("decodeTileEdge"@, 1u32));
        assert(required[1] == ("decodeOverlap"@, 0u32));
    }
    if attention {
        assert(required[d] == ("attentionChunkSize"@, 1u32));
    }
    if engaged.contains(StrategyRung::BoundedTransformerResidency) {
        assert(required[d + a] == ("transformerWindowSize"@, 1u32));
    }
}

} // verus!
