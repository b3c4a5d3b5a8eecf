use nucleide::drift::{DriftEntry, DriftScope, DriftTable};
use nucleide::plasma::{Error, FusionReaction, ProfileMode};
use nucleide::screening::{ClearanceClass, FoldMetric, Theta};

#[test]
fn drift_table_helpers() {
    let table = DriftTable::default();
    assert!(table.is_empty());
    assert_eq!(table.len(), 0);
    assert!(table.for_scope(DriftScope::Cell).is_empty());
}

#[test]
fn drift_entries_filter_by_scope_in_order() {
    let entry = |scope, target: u32, action: &str| DriftEntry {
        scope,
        target,
        action: action.to_string(),
        reason: format!("reason {target}"),
    };
    let table = DriftTable {
        entries: vec![
            entry(DriftScope::Surface, 3, "macrobody-expansion"),
            entry(DriftScope::Cell, 1, "complement-expansion"),
            entry(DriftScope::Cell, 2, "fill-applied"),
            entry(DriftScope::Deck, 0, "dropped-data-card"),
        ],
    };
    assert_eq!(table.len(), 4);
    assert!(!table.is_empty());
    let cells = table.for_scope(DriftScope::Cell);
    assert_eq!(cells.len(), 2);
    assert_eq!(cells[0].target, 1);
    assert_eq!(cells[1].target, 2);
    assert_eq!(table.for_scope(DriftScope::Deck)[0].action, "dropped-data-card");
    assert_eq!(DriftScope::Surface.as_str(), "surface");
    assert_eq!(DriftScope::Cell.as_str(), "cell");
    assert_eq!(DriftScope::Deck.as_str(), "deck");
}

#[test]
fn profile_modes_parse_case_insensitively() {
    assert_eq!(ProfileMode::parse("L"), Ok(ProfileMode::L));
    assert_eq!(ProfileMode::parse("h"), Ok(ProfileMode::H));
    assert_eq!(ProfileMode::parse("a"), Ok(ProfileMode::A));
    assert_eq!(
        ProfileMode::parse("X"),
        Err(Error::InvalidProfile("mode must be one of L, H, A"))
    );
    assert_eq!(
        ProfileMode::parse("LH"),
        Err(Error::InvalidProfile("mode must be one of L, H, A"))
    );
    assert_eq!(
        Error::InvalidProfile("mode must be one of L, H, A").to_string(),
        "plasma-source: invalid plasma profile: mode must be one of L, H, A"
    );
    assert_eq!(
        Error::UnsupportedMcnpVersion(4).to_string(),
        "plasma-source: unsupported MCNP version 4 (supported: 5, 6)"
    );
}

#[test]
fn labels_and_names() {
    assert_eq!(FusionReaction::Dt.label(), "D-T");
    assert_eq!(FusionReaction::Dd.label(), "D-D");
    assert_eq!(FoldMetric::NrtDpa.name(), "nrt_dpa");
    assert_eq!(FoldMetric::ArcDpa.name(), "arc_dpa");
    assert_eq!(FoldMetric::GasAppm.name(), "gas_appm");
    assert_eq!(FoldMetric::HeDpaRatio.name(), "he_dpa_ratio");
    assert_eq!(ClearanceClass::Satisfied.as_str(), "satisfied");
    assert_eq!(ClearanceClass::Exceeded.as_str(), "exceeded");
    assert_eq!(Theta::default(), Theta::CrankNicolson);
    assert_eq!(Theta::CrankNicolson.fraction(), (1, 2));
    assert_eq!(Theta::BackwardEuler.fraction(), (1, 1));
}

#[test]
fn profile_labels_are_single_letters_in_either_case() {
    for (label, mode) in [("l", ProfileMode::L), ("H", ProfileMode::H), ("a", ProfileMode::A)] {
        assert_eq!(ProfileMode::parse(label), Ok(mode));
    }
    for label in ["q", "", "LH", " L"] {
        assert_eq!(ProfileMode::parse(label), Err(Error::InvalidProfile("mode must be one of L, H, A")));
    }
}
