use nucleide::drift::{DriftScope, DriftTable};
use nucleide::expand::{expand_rcc, expand_rpp, plan_surfaces, DeckSurface, Facet};
use nucleide::surface::{Coef, SurfKind, SurfaceCard};
use nucleide::xlate::Error;

fn deck_surface(num: u32, kind: SurfKind, keyword: &str) -> DeckSurface {
    DeckSurface {
        card: SurfaceCard { num, kind, keyword: keyword.to_string() },
        transform: None,
        rcc_nonzero: [false, false, false],
        rcc_ascending: true,
        box_nonzero: [[false; 3]; 3],
        periodic: None,
        reflecting: false,
    }
}

#[test]
fn rpp_expands_to_six_planes_above_the_deck() {
    let mut drift = DriftTable::default();
    let plan = plan_surfaces(&vec![deck_surface(1, SurfKind::Rpp, "rpp")], &mut drift).unwrap();
    assert!(plan.direct.is_empty());
    assert_eq!(plan.macros.len(), 1);
    let (num, exp) = &plan.macros[0];
    assert_eq!(*num, 1);
    assert_eq!(exp.interior, vec![2, -3, 4, -5, 6, -7]);
    assert_eq!(exp.facets[0], Facet { id: 2, stype: "x-plane", coeffs: vec![Coef::Card(0)] });
    assert_eq!(exp.facets[3], Facet { id: 5, stype: "y-plane", coeffs: vec![Coef::Card(3)] });
    assert_eq!(exp.facets[5], Facet { id: 7, stype: "z-plane", coeffs: vec![Coef::Card(5)] });
    assert_eq!(plan.next_id, 8);
    assert_eq!(plan.emitted_ids(), vec![2, 3, 4, 5, 6, 7]);
    assert_eq!(plan.interiors(), vec![(1, vec![2, -3, 4, -5, 6, -7])]);
    let notes = drift.for_scope(DriftScope::Surface);
    assert_eq!(notes.len(), 1);
    assert_eq!(notes[0].action, "macrobody-expansion");
    assert_eq!(notes[0].reason, "RPP 1 expanded to 6 axis planes 2 3 4 5 6 7");
}

#[test]
fn rcc_axis_aligned_expands() {
    let mut s = deck_surface(1, SurfKind::Rcc, "rcc");
    s.rcc_nonzero = [false, false, true];
    let mut drift = DriftTable::default();
    let plan = plan_surfaces(&vec![s], &mut drift).unwrap();
    let exp = &plan.macros[0].1;
    assert_eq!(exp.interior, vec![-2, 3, -4]);
    assert_eq!(
        exp.facets,
        vec![
            Facet { id: 2, stype: "z-cylinder", coeffs: vec![Coef::Card(0), Coef::Card(1), Coef::Card(6)] },
            Facet { id: 3, stype: "z-plane", coeffs: vec![Coef::CapLow(2)] },
            Facet { id: 4, stype: "z-plane", coeffs: vec![Coef::CapHigh(2)] },
        ]
    );
    assert_eq!(drift.entries[0].reason, "RCC 1 expanded to z-cylinder 2 and 2 cap planes (3 4)");
}

#[test]
fn rcc_canted_is_out_of_scope() {
    let mut next_id = 2;
    let mut drift = DriftTable::default();
    let err = expand_rcc(&mut next_id, &mut drift, 1, &"rcc".to_string(), [true, true, true]).unwrap_err();
    assert!(matches!(err, Error::MacrobodyOutOfScope { surf: 1, .. }));
    assert_eq!(next_id, 2);
    assert!(drift.is_empty());
}

#[test]
fn direct_surfaces_keep_deck_order_and_ids() {
    let mut drift = DriftTable::default();
    let cards = vec![
        deck_surface(5, SurfKind::So, "so"),
        deck_surface(2, SurfKind::Px, "px"),
        deck_surface(9, SurfKind::Rpp, "rpp"),
    ];
    let plan = plan_surfaces(&cards, &mut drift).unwrap();
    assert_eq!(plan.emitted_ids(), vec![5, 2, 10, 11, 12, 13, 14, 15]);
}

#[test]
fn transforms_refuse_the_deck() {
    let mut s = deck_surface(1, SurfKind::Pz, "pz");
    s.transform = Some(3);
    let mut drift = DriftTable::default();
    assert_eq!(
        plan_surfaces(&vec![s], &mut drift).unwrap_err(),
        Error::TransformOutOfScope { detail: "surface 1 links transform 3".to_string() }
    );
}

#[test]
fn unmapped_kind_stops_the_pass() {
    let mut drift = DriftTable::default();
    let cards = vec![deck_surface(1, SurfKind::Rpp, "rpp"), deck_surface(2, SurfKind::Gq, "gq")];
    assert!(matches!(
        plan_surfaces(&cards, &mut drift).unwrap_err(),
        Error::UnsupportedSurface { surf: 2, .. }
    ));
}

#[test]
fn rpp_ids_follow_next_id() {
    let mut next_id = 10;
    let mut drift = DriftTable::default();
    let exp = expand_rpp(&mut next_id, &mut drift, 4);
    assert_eq!(next_id, 16);
    assert_eq!(exp.interior, vec![10, -11, 12, -13, 14, -15]);
}
