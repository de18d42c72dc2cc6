use memory_strategy::evidence::{memory_mode_from_mode_key, CandidateBasis, CandidateCurrency, MemoryMode};
use memory_strategy::ladder::{
    default_engaged_composition, engaged_composition, load_shape_from_receipt,
    required_numeric_parameters, rung_from_key, rung_key, strategy_from_rung, Engagement,
    EngagementPolicy, LoadShape, LoadShapeKey, MemoryStrategy, StrategyRung,
};

/// Each strategy engages itself and the cheaper ones.
fn cumulative() -> EngagementPolicy {
    let up_to = |depth: usize| Engagement {
        resident: true,
        staged_residency: depth >= 1,
        bounded_decode: depth >= 2,
        bounded_attention: depth >= 3,
        bounded_transformer_residency: depth >= 4,
    };
    EngagementPolicy {
        resident: up_to(0),
        staged_residency: up_to(1),
        bounded_decode: up_to(2),
        bounded_attention: up_to(3),
        bounded_transformer_residency: up_to(4),
    }
}

#[test]
fn labels_name_their_rungs() {
    let labels = [
        "resident",
        "staged_residency",
        "bounded_decode",
        "bounded_attention",
        "bounded_transformer_residency",
    ];
    for (rung, label) in StrategyRung::all().into_iter().zip(labels) {
        assert_eq!(rung_key(rung), label);
        assert_eq!(rung_from_key(label), Some(rung));
    }
    assert_eq!(rung_from_key("Resident"), None);
    assert_eq!(rung_from_key(""), None);
}

#[test]
fn rungs_and_load_shapes_bridge_one_to_one() {
    for (rung, strategy) in StrategyRung::all().into_iter().zip(MemoryStrategy::all()) {
        assert_eq!(strategy_from_rung(rung), strategy);
    }
    assert_eq!(
        load_shape_from_receipt(LoadShapeKey::EagerMaterialization),
        LoadShape::EagerMaterialization
    );
    assert_eq!(
        load_shape_from_receipt(LoadShapeKey::DeferredMaterialization),
        LoadShape::DeferredMaterialization
    );
}

#[test]
fn the_default_composition_follows_the_engagement_policy() {
    let policy = cumulative();
    for (index, rung) in StrategyRung::all().into_iter().enumerate() {
        let expected: Vec<StrategyRung> = StrategyRung::all()[..=index].to_vec();
        assert_eq!(default_engaged_composition(rung, &policy), expected);
        assert_eq!(engaged_composition(rung, None, &policy), Ok(expected.clone()));
        assert_eq!(engaged_composition(rung, Some(&expected), &policy), Ok(expected.clone()));
    }
    let mut sparse = cumulative();
    sparse.bounded_transformer_residency.bounded_decode = false;
    assert_eq!(
        default_engaged_composition(StrategyRung::BoundedTransformerResidency, &sparse),
        vec![
            StrategyRung::Resident,
            StrategyRung::StagedResidency,
            StrategyRung::BoundedAttention,
            StrategyRung::BoundedTransformerResidency,
        ]
    );
}

#[test]
fn a_declared_composition_is_authoritative_but_closed() {
    let policy = cumulative();
    let declared = [StrategyRung::Resident, StrategyRung::BoundedTransformerResidency];
    assert_eq!(
        engaged_composition(
            StrategyRung::BoundedTransformerResidency,
            Some(&declared),
            &policy
        ),
        Ok(declared.to_vec())
    );
    let unordered = [StrategyRung::BoundedDecode, StrategyRung::Resident];
    let repeated = [StrategyRung::Resident, StrategyRung::Resident, StrategyRung::BoundedDecode];
    for rungs in [&unordered[..], &repeated[..]] {
        assert_eq!(
            engaged_composition(StrategyRung::BoundedDecode, Some(rungs), &policy),
            Err("engagedRungs must be a unique set in canonical ladder order".to_owned())
        );
    }
    for rungs in [&[][..], &[StrategyRung::Resident][..], &[StrategyRung::BoundedDecode][..]] {
        assert_eq!(
            engaged_composition(StrategyRung::BoundedDecode, Some(rungs), &policy),
            Err("engagedRungs must contain resident and the selected rung bounded_decode"
                .to_owned())
        );
    }
    assert_eq!(
        engaged_composition(
            StrategyRung::StagedResidency,
            Some(&StrategyRung::all()),
            &policy
        ),
        Err("engagedRungs cannot engage bounded_decode, which is costlier than the selected rung staged_residency"
            .to_owned())
    );
}

#[test]
fn engaged_rungs_own_their_parameters() {
    assert_eq!(required_numeric_parameters(&[StrategyRung::Resident]), vec![]);
    assert_eq!(
        required_numeric_parameters(&StrategyRung::all()),
        vec![
            ("decodeTileEdge", 1),
            ("decodeOverlap", 0),
            ("attentionChunkSize", 1),
            ("transformerWindowSize", 1),
        ]
    );
    assert_eq!(
        required_numeric_parameters(&[
            StrategyRung::BoundedTransformerResidency,
            StrategyRung::BoundedDecode
        ]),
        vec![("decodeTileEdge", 1), ("decodeOverlap", 0), ("transformerWindowSize", 1)]
    );
}

#[test]
fn mode_labels_survive_the_round_trip() {
    for key in ["text_to_image", "image_to_image", "edit", "character_image", "", "Edit"] {
        assert_eq!(memory_mode_from_mode_key(key).as_key(), key);
    }
    assert_eq!(memory_mode_from_mode_key("text_to_image"), MemoryMode::TextToImage);
    assert_eq!(memory_mode_from_mode_key("image_to_image"), MemoryMode::ImageToImage);
    assert_eq!(memory_mode_from_mode_key("edit"), MemoryMode::Edit);
    assert_eq!(memory_mode_from_mode_key("inpaint"), MemoryMode::Other("inpaint".to_owned()));
}

#[test]
fn bases_and_currencies_are_ranked() {
    assert!(!CandidateBasis::Measured.is_estimate());
    assert!(CandidateBasis::EstimateFittedCurve.is_estimate());
    assert!(CandidateBasis::EstimateFloor.is_estimate());
    assert_eq!(CandidateBasis::Measured.as_key(), "measured");
    assert_eq!(CandidateBasis::EstimateFittedCurve.as_key(), "fitted_curve");
    assert_eq!(CandidateBasis::EstimateFloor.as_key(), "floor");
    assert_eq!(CandidateCurrency::Current.precedence(), 2);
    assert_eq!(CandidateCurrency::StaleClosure.precedence(), 1);
    assert_eq!(CandidateCurrency::Estimate.precedence(), 0);
}
