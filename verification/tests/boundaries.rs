use nucleide::boundary::{plan_boundaries, Boundary, SurfaceBoundary, SurfaceFlags};
use nucleide::drift::{DriftScope, DriftTable};
use nucleide::xlate::Error;

fn flags(num: u32, periodic: Option<u32>, reflecting: bool) -> SurfaceFlags {
    SurfaceFlags { num, periodic, reflecting }
}

#[test]
fn reflecting_surface_card_sets_boundary() {
    let mut drift = DriftTable::default();
    let out = plan_boundaries(&vec![flags(1, None, true)], &vec![1], &vec![], &mut drift).unwrap();
    assert_eq!(out, vec![SurfaceBoundary { id: 1, boundary: Some(Boundary::Reflective), periodic_id: None }]);
    assert!(drift.is_empty());
}

#[test]
fn forced_reflective_facets_are_reflective() {
    let mut drift = DriftTable::default();
    let out = plan_boundaries(&vec![flags(1, None, false)], &vec![2, 3, 4], &vec![3], &mut drift).unwrap();
    assert_eq!(out[0].boundary, None);
    assert_eq!(out[1].boundary, Some(Boundary::Reflective));
    assert_eq!(out[2].boundary, None);
}

#[test]
fn forced_reflective_must_be_emitted() {
    let mut drift = DriftTable::default();
    let err = plan_boundaries(&vec![flags(1, None, false)], &vec![1], &vec![7, 5, 1], &mut drift).unwrap_err();
    assert_eq!(err, Error::UnknownSurface { cell: 0, surf: 5 });
}

#[test]
fn reflective_periodic_conflict_errors() {
    let mut drift = DriftTable::default();
    let err = plan_boundaries(&vec![flags(1, Some(2), true), flags(2, None, false)], &vec![1, 2], &vec![], &mut drift)
        .unwrap_err();
    assert_eq!(
        err,
        Error::ReflectiveConflict { surf: 1, detail: "surface 1 is both reflective and periodic".to_string() }
    );
    let err = plan_boundaries(&vec![flags(1, Some(2), false), flags(2, None, false)], &vec![1, 2], &vec![2], &mut drift)
        .unwrap_err();
    assert_eq!(err, Error::ReflectiveConflict { surf: 2, detail: "periodic partner 2 is reflective".to_string() });
    assert!(drift.is_empty());
}

#[test]
fn periodic_pair_links() {
    let mut drift = DriftTable::default();
    let out = plan_boundaries(&vec![flags(1, Some(2), false), flags(2, None, false)], &vec![1, 2], &vec![], &mut drift)
        .unwrap();
    assert_eq!(
        out,
        vec![
            SurfaceBoundary { id: 1, boundary: Some(Boundary::Periodic), periodic_id: Some(2) },
            SurfaceBoundary { id: 2, boundary: Some(Boundary::Periodic), periodic_id: Some(1) },
        ]
    );
    let links = drift.for_scope(DriftScope::Surface);
    assert_eq!(links.len(), 1);
    assert_eq!(links[0].target, 1);
    assert_eq!(links[0].action, "periodic-link");
    assert_eq!(links[0].reason, "surface 1 paired periodic with surface 2");
}

#[test]
fn periodic_divergent_partner_is_ambiguous() {
    let mut drift = DriftTable::default();
    let cards = vec![flags(1, Some(2), false), flags(2, Some(3), false), flags(3, None, false)];
    let err = plan_boundaries(&cards, &vec![1, 2, 3], &vec![], &mut drift).unwrap_err();
    assert_eq!(
        err,
        Error::PeriodicAmbiguous { surf: 1, partner: 2, detail: "partner 2 points at surface 3 instead".to_string() }
    );
}

#[test]
fn periodic_partner_outside_deck_is_ambiguous() {
    let mut drift = DriftTable::default();
    let err = plan_boundaries(&vec![flags(1, Some(9), false)], &vec![1], &vec![], &mut drift).unwrap_err();
    assert_eq!(
        err,
        Error::PeriodicAmbiguous { surf: 1, partner: 9, detail: "partner surface 9 is absent from the deck".to_string() }
    );
}

use nucleide::boundary::{find_reflecting, reject_serpent_boundaries};
use nucleide::region::{GeomExpr, HalfSpace};

fn lit(surf: i32, reflecting: bool) -> GeomExpr {
    GeomExpr::HalfSpace(HalfSpace { surf, reflecting })
}

#[test]
fn serpent_boundaries_are_loud() {
    let plain = vec![(1, lit(-1, false))];
    assert!(reject_serpent_boundaries(&vec![flags(1, None, false)], &plain).is_ok());
    assert_eq!(
        reject_serpent_boundaries(&vec![flags(1, None, true)], &plain).unwrap_err(),
        Error::SerpentBoundaryOutOfScope { surf: 1, detail: "reflective surface card has no serpent spelling".to_string() }
    );
    assert_eq!(
        reject_serpent_boundaries(&vec![flags(1, Some(2), false), flags(2, None, false)], &plain).unwrap_err(),
        Error::SerpentBoundaryOutOfScope { surf: 1, detail: "periodic surface pointer has no serpent spelling".to_string() }
    );
    let starred = vec![(3, GeomExpr::Intersect(vec![lit(2, false), lit(-1, true)]))];
    assert_eq!(
        reject_serpent_boundaries(&vec![flags(1, None, false), flags(2, None, false)], &starred).unwrap_err(),
        Error::SerpentBoundaryOutOfScope { surf: 1, detail: "cell 3 `*` marker has no serpent spelling".to_string() }
    );
    let kz = SurfaceCard { num: 1, kind: SurfKind::Kz, keyword: "kz".to_string() };
    assert!(matches!(
        nucleide::surface::map_serpent_surface(&kz, [false; 3]).unwrap_err(),
        Error::UnsupportedSurface { .. }
    ));
}

#[test]
fn complements_hide_reflecting_markers() {
    let e = GeomExpr::Union(
        Box::new(GeomExpr::Complement(Box::new(lit(4, true)))),
        Box::new(GeomExpr::Intersect(vec![lit(5, false), lit(-6, true), lit(7, true)])),
    );
    assert_eq!(find_reflecting(&e), Some(6));
    assert_eq!(find_reflecting(&lit(3, false)), None);
}

use nucleide::boundary::phits_reflective;
use nucleide::expand::DeckSurface;
use nucleide::surface::{SurfKind, SurfaceCard};

fn deck_surface(num: u32, transform: Option<u32>, periodic: Option<u32>, reflecting: bool) -> DeckSurface {
    DeckSurface {
        card: SurfaceCard { num, kind: SurfKind::So, keyword: "so".to_string() },
        transform,
        rcc_nonzero: [false; 3],
        rcc_ascending: true,
        box_nonzero: [[false; 3]; 3],
        periodic,
        reflecting,
    }
}

#[test]
fn errors_are_non_exhaustive_and_display() {
    let err = Error::ComplementTooComplex { cell: 2, target: 1 };
    assert!(err.to_string().contains("cell 2 complement #1"));
    let err = Error::UniverseOutOfScope { detail: "x".to_string() };
    assert!(err.to_string().contains("universes/lattices/fills"));
    let err = Error::SerpentBoundaryOutOfScope { surf: 1, detail: "x".to_string() };
    assert!(err.to_string().contains("no verified serpent mapping"));
    let err = Error::PhitsBoundaryOutOfScope { surf: 1, detail: "x".to_string() };
    assert!(err.to_string().contains("no phits spelling"));
}

#[test]
fn error_messages_name_their_subjects() {
    assert_eq!(
        Error::ComplementTooComplex { cell: 4, target: -1 }.to_string(),
        "cell 4 complement #-1 is too complex for v1 (unions and nested complements cannot inline)"
    );
    assert_eq!(Error::UnknownSurface { cell: 2, surf: 9 }.to_string(), "cell 2 references unknown surface 9");
    assert_eq!(
        Error::UnsupportedSurface { surf: 3, kind: "gq".to_string(), detail: "d".to_string() }.to_string(),
        "surface 3 (gq) has no v1 mapping: d"
    );
    assert_eq!(
        Error::PeriodicAmbiguous { surf: 1, partner: 2, detail: "d".to_string() }.to_string(),
        "surface 1 periodic partner 2 is ambiguous: d"
    );
}

#[test]
fn phits_reflective_surfaces_and_loud_periodic() {
    let cells = vec![(1, GeomExpr::Intersect(vec![lit(-2, true), lit(3, false)])), (2, lit(-1, false))];
    let surfs = vec![deck_surface(1, None, None, true), deck_surface(2, None, None, false)];
    assert_eq!(phits_reflective(&surfs, &cells).unwrap(), vec![1, 2]);
    let surfs = vec![deck_surface(1, None, Some(2), false), deck_surface(2, None, None, false)];
    assert_eq!(
        phits_reflective(&surfs, &cells).unwrap_err(),
        Error::PhitsBoundaryOutOfScope { surf: 1, detail: "periodic surface pointer has no phits spelling".to_string() }
    );
    let surfs = vec![deck_surface(1, Some(5), None, false)];
    assert_eq!(
        phits_reflective(&surfs, &cells).unwrap_err(),
        Error::TransformOutOfScope { detail: "surface 1 links transform 5".to_string() }
    );
}
