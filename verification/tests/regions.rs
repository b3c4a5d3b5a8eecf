use nucleide::drift::{DriftScope, DriftTable};
use nucleide::region::{
    cell_regions, is_flat, resolve_expr, GeomExpr, HalfSpace, RegionEnv, RegionState, Resolved,
};
use nucleide::xlate::Error;

fn hs(surf: i32) -> GeomExpr {
    GeomExpr::HalfSpace(HalfSpace { surf, reflecting: false })
}

fn hs_star(surf: i32) -> GeomExpr {
    GeomExpr::HalfSpace(HalfSpace { surf, reflecting: true })
}

fn complement(cell: i32) -> GeomExpr {
    GeomExpr::Complement(Box::new(hs(cell)))
}

fn state() -> RegionState {
    RegionState { forced_reflective: Vec::new(), drift: DriftTable::default() }
}

fn regions(env: &RegionEnv) -> (Result<Vec<(u32, String)>, Error>, RegionState) {
    let mut st = state();
    let r = cell_regions(env, &mut st);
    (r, st)
}

#[test]
fn plain_regions_render_unchanged() {
    let env = RegionEnv {
        surfs: vec![1, 2, 3, 4],
        macros: vec![],
        cells: vec![(1, hs(-1)), (2, GeomExpr::Intersect(vec![hs(1), hs(2), hs(-3), hs(4)]))],
    };
    let (r, st) = regions(&env);
    assert_eq!(r.unwrap(), vec![(1, "-1".to_string()), (2, "1 2 -3 4".to_string())]);
    assert!(st.drift.is_empty());
    assert!(st.forced_reflective.is_empty());
}

#[test]
fn rpp_facets_expand_by_sense() {
    let env = RegionEnv {
        surfs: vec![1],
        macros: vec![(1, vec![2, -3, 4, -5, 6, -7])],
        cells: vec![(1, hs(-1)), (2, hs(1))],
    };
    let (r, _) = regions(&env);
    assert_eq!(
        r.unwrap(),
        vec![(1, "2 -3 4 -5 6 -7".to_string()), (2, "-2 | 3 | -4 | 5 | -6 | 7".to_string())]
    );
}

#[test]
fn rcc_interior_intersection() {
    let env = RegionEnv {
        surfs: vec![1],
        macros: vec![(1, vec![-2, 3, -4])],
        cells: vec![(1, hs(-1)), (2, hs(1))],
    };
    let (r, _) = regions(&env);
    assert_eq!(r.unwrap(), vec![(1, "-2 3 -4".to_string()), (2, "2 | -3 | 4".to_string())]);
}

#[test]
fn simple_complement_inlines_negated_region() {
    let env = RegionEnv {
        surfs: vec![1, 2],
        macros: vec![],
        cells: vec![(1, hs(-1)), (2, GeomExpr::Intersect(vec![complement(1), hs(-2)]))],
    };
    let (r, st) = regions(&env);
    assert_eq!(r.unwrap(), vec![(1, "-1".to_string()), (2, "1 -2".to_string())]);
    let cells = st.drift.for_scope(DriftScope::Cell);
    assert_eq!(cells.len(), 1);
    assert_eq!(cells[0].target, 2);
    assert_eq!(cells[0].action, "complement-expansion");
    assert_eq!(cells[0].reason, "#1 inlined as the negated region of cell 1");
}

#[test]
fn complement_of_intersection_becomes_union() {
    let env = RegionEnv {
        surfs: vec![1, 2],
        macros: vec![],
        cells: vec![(1, GeomExpr::Intersect(vec![hs(-1), hs(2)])), (2, GeomExpr::Intersect(vec![complement(1), hs(-5)]))],
    };
    let mut st = state();
    let r = resolve_expr(&env, &mut st, 3, &complement(1)).unwrap();
    assert_eq!(r.render(), "1 | -2");
    let mut st = state();
    let r = resolve_expr(&env, &mut st, 3, &GeomExpr::Intersect(vec![complement(1), hs(2)])).unwrap();
    assert_eq!(r.render(), "(1 | -2) 2");
}

#[test]
fn union_complement_is_too_complex() {
    let env = RegionEnv {
        surfs: vec![1, 2],
        macros: vec![],
        cells: vec![(1, GeomExpr::Union(Box::new(hs(-1)), Box::new(hs(-2)))), (2, complement(1))],
    };
    let (r, _) = regions(&env);
    assert_eq!(r.unwrap_err(), Error::ComplementTooComplex { cell: 2, target: 1 });
}

#[test]
fn nested_complement_is_too_complex() {
    let env = RegionEnv {
        surfs: vec![1, 2],
        macros: vec![],
        cells: vec![
            (1, hs(-1)),
            (2, GeomExpr::Intersect(vec![complement(1), hs(-2)])),
            (3, complement(2)),
        ],
    };
    let (r, _) = regions(&env);
    assert_eq!(r.unwrap_err(), Error::ComplementTooComplex { cell: 3, target: 2 });
}

#[test]
fn complement_of_non_cell_is_too_complex() {
    let env = RegionEnv { surfs: vec![1, 2], macros: vec![], cells: vec![(1, hs(-1))] };
    let mut st = state();
    let e = GeomExpr::Complement(Box::new(GeomExpr::Intersect(vec![hs(1), hs(2)])));
    assert_eq!(
        resolve_expr(&env, &mut st, 4, &e).unwrap_err(),
        Error::ComplementTooComplex { cell: 4, target: -1 }
    );
}

#[test]
fn complement_of_absent_cell_is_unknown() {
    let env = RegionEnv { surfs: vec![1], macros: vec![], cells: vec![(1, complement(9))] };
    let (r, _) = regions(&env);
    assert_eq!(r.unwrap_err(), Error::UnknownCell { cell: 1, target: 9 });
    let env = RegionEnv { surfs: vec![1], macros: vec![], cells: vec![(1, complement(-1))] };
    let (r, _) = regions(&env);
    assert_eq!(r.unwrap_err(), Error::UnknownCell { cell: 1, target: -1 });
}

#[test]
fn unresolved_surface_is_unknown() {
    let env = RegionEnv { surfs: vec![1], macros: vec![], cells: vec![(1, hs(1)), (2, hs(-9))] };
    let (r, st) = regions(&env);
    assert_eq!(r.unwrap_err(), Error::UnknownSurface { cell: 2, surf: 9 });
    assert!(st.drift.is_empty());
}

#[test]
fn cell_level_reflecting_forces_surface() {
    let env = RegionEnv {
        surfs: vec![1, 2],
        macros: vec![],
        cells: vec![(1, GeomExpr::Intersect(vec![hs_star(-1), hs(2)]))],
    };
    let (r, st) = regions(&env);
    assert_eq!(r.unwrap(), vec![(1, "-1 2".to_string())]);
    assert_eq!(st.forced_reflective, vec![1]);
    assert_eq!(st.drift.len(), 1);
    assert_eq!(st.drift.entries[0].scope, DriftScope::Cell);
    assert_eq!(st.drift.entries[0].action, "reflective-applied");
    assert_eq!(st.drift.entries[0].reason, "cell-level *1 stripped; surface 1 forced reflective");
}

#[test]
fn reflecting_macrobody_forces_every_facet() {
    let env = RegionEnv {
        surfs: vec![1],
        macros: vec![(1, vec![-2, 3, -4])],
        cells: vec![(1, hs_star(-1))],
    };
    let (r, st) = regions(&env);
    assert_eq!(r.unwrap(), vec![(1, "-2 3 -4".to_string())]);
    assert_eq!(st.forced_reflective, vec![1, 2, 3, 4]);
}

#[test]
fn render_parenthesizes_unions_in_intersections() {
    let r = Resolved::And(vec![
        Resolved::Or(Box::new(Resolved::Lit(1)), Box::new(Resolved::Lit(-2))),
        Resolved::Lit(3),
    ]);
    assert_eq!(r.render(), "(1 | -2) 3");
    let r = Resolved::Or(
        Box::new(Resolved::And(vec![Resolved::Lit(1), Resolved::Lit(2)])),
        Box::new(Resolved::Lit(-2147483648)),
    );
    assert_eq!(r.render(), "1 2 | -2147483648");
    assert_eq!(Resolved::And(vec![]).render(), "");
}

#[test]
fn flat_regions() {
    assert!(is_flat(&hs(1)));
    assert!(is_flat(&GeomExpr::Intersect(vec![hs(1), GeomExpr::Intersect(vec![hs(-2)])])));
    assert!(!is_flat(&GeomExpr::Intersect(vec![hs(1), complement(2)])));
    assert!(!is_flat(&GeomExpr::Union(Box::new(hs(1)), Box::new(hs(2)))));
}

use nucleide::surface::{map_surface, Coef, SurfKind, SurfaceCard, SurfaceMap};

fn card(num: u32, kind: SurfKind, keyword: &str) -> SurfaceCard {
    SurfaceCard { num, kind, keyword: keyword.to_string() }
}

#[test]
fn planes_spheres_cylinders_map_directly() {
    assert_eq!(
        map_surface(&card(1, SurfKind::So, "so")).unwrap(),
        SurfaceMap::Direct { stype: "sphere", coeffs: vec![Coef::Zero, Coef::Zero, Coef::Zero, Coef::Card(0)] }
    );
    assert_eq!(
        map_surface(&card(2, SurfKind::Px, "px")).unwrap(),
        SurfaceMap::Direct { stype: "x-plane", coeffs: vec![Coef::Card(0)] }
    );
    assert_eq!(
        map_surface(&card(1, SurfKind::Sx, "sx")).unwrap(),
        SurfaceMap::Direct { stype: "sphere", coeffs: vec![Coef::Card(0), Coef::Zero, Coef::Zero, Coef::Card(1)] }
    );
    assert_eq!(
        map_surface(&card(2, SurfKind::Cy, "cy")).unwrap(),
        SurfaceMap::Direct { stype: "y-cylinder", coeffs: vec![Coef::Zero, Coef::Zero, Coef::Card(0)] }
    );
    assert_eq!(map_surface(&card(3, SurfKind::Rpp, "rpp")).unwrap(), SurfaceMap::Rpp);
    assert_eq!(map_surface(&card(3, SurfKind::Rcc, "rcc")).unwrap(), SurfaceMap::Rcc);
}

#[test]
fn cones_quadrics_tori_planes_have_no_mapping() {
    for (kind, keyword) in [
        (SurfKind::Kx, "kx"),
        (SurfKind::Sq, "sq"),
        (SurfKind::Gq, "gq"),
        (SurfKind::Tx, "tx"),
        (SurfKind::P, "p"),
    ] {
        match map_surface(&card(1, kind, keyword)).unwrap_err() {
            Error::UnsupportedSurface { surf, kind, .. } => {
                assert_eq!(surf, 1);
                assert_eq!(kind, keyword);
            },
            e => panic!("{keyword}: {e:?}"),
        }
    }
    for (kind, keyword) in [(SurfKind::McBox, "box"), (SurfKind::Arb, "arb")] {
        assert_eq!(
            map_surface(&card(7, kind, keyword)).unwrap_err(),
            Error::MacrobodyOutOfScope {
                surf: 7,
                kind: keyword.to_string(),
                detail: "v1 expands RPP/SPH/axis-aligned RCC only".to_string(),
            }
        );
    }
}

use nucleide::params::check_cell_params;

fn params(list: &[&str]) -> Vec<String> {
    list.iter().map(|p| p.to_string()).collect()
}

#[test]
fn universe_fill_and_rectangular_lattice_params_are_carried() {
    let mut drift = DriftTable::default();
    assert!(check_cell_params(&mut drift, 4, &params(&["u=1", "FILL=2", "*fill=3", "lat=1", "lat= 1 "])).is_ok());
    assert!(drift.is_empty());
}

#[test]
fn other_params_are_dropped_with_notes() {
    let mut drift = DriftTable::default();
    assert!(check_cell_params(&mut drift, 4, &params(&["imp:n=1", "vol", "LAT =1"])).is_ok());
    assert_eq!(drift.len(), 3);
    assert_eq!(drift.entries[0].scope, DriftScope::Cell);
    assert_eq!(drift.entries[0].target, 4);
    assert_eq!(drift.entries[0].action, "dropped-cell-param");
    assert_eq!(drift.entries[0].reason, "cell parameter `imp:n=1` not represented in OpenMC geometry");
    assert_eq!(drift.entries[1].reason, "bare cell parameter `vol` not represented in OpenMC geometry");
    assert_eq!(drift.entries[2].reason, "cell parameter `LAT =1` not represented in OpenMC geometry");
}

#[test]
fn lattices_and_transforms_refuse_the_deck() {
    let mut drift = DriftTable::default();
    assert_eq!(
        check_cell_params(&mut drift, 1, &params(&["vol", "lat=2", "trcl=1"])).unwrap_err(),
        Error::UniverseOutOfScope {
            detail: "cell 1 parameter `lat=2` needs lattice translation (rectangular LAT=1 only)".to_string()
        }
    );
    assert_eq!(drift.len(), 1);
    let mut drift = DriftTable::default();
    assert_eq!(
        check_cell_params(&mut drift, 1, &params(&["*TRCL=(0 0 5)"])).unwrap_err(),
        Error::TransformOutOfScope { detail: "cell 1 parameter `*TRCL=(0 0 5)` needs transform translation".to_string() }
    );
}

use nucleide::params::{check_data_cards, DataCard};

fn data(name: &str, prefix: &str, number: Option<u32>, classifier: &str) -> DataCard {
    DataCard { name: name.to_string(), prefix: prefix.to_string(), number, classifier: classifier.to_string() }
}

#[test]
fn materials_pass_and_other_data_cards_drop() {
    let mut drift = DriftTable::default();
    let cards = vec![data("", "", None, ""), data("m1", "M", Some(1), ""), data("mode", "MODE", None, ""), data("u", "U", None, "")];
    assert!(check_data_cards(&mut drift, &cards).is_ok());
    assert_eq!(drift.len(), 2);
    assert_eq!(drift.entries[0].scope, DriftScope::Deck);
    assert_eq!(drift.entries[0].target, 0);
    assert_eq!(drift.entries[0].action, "dropped-data-card");
    assert_eq!(drift.entries[0].reason, "mode card not represented in OpenMC geometry");
    assert_eq!(drift.entries[1].action, "universe-data-card");
    assert_eq!(drift.entries[1].reason, "u card honored as universe assignment");
}

#[test]
fn tallies_sources_transforms_error() {
    let mut drift = DriftTable::default();
    assert_eq!(
        check_data_cards(&mut drift, &vec![data("sdef", "SDEF", None, "")]).unwrap_err(),
        Error::TallySourceOutOfScope { detail: "sdef card needs tally/source translation".to_string() }
    );
    assert_eq!(
        check_data_cards(&mut drift, &vec![data("f4:n", "F", Some(4), ":n")]).unwrap_err(),
        Error::TallySourceOutOfScope { detail: "f4:n card needs tally/source translation".to_string() }
    );
    assert_eq!(
        check_data_cards(&mut drift, &vec![data("kcode", "KCODE", None, "")]).unwrap_err(),
        Error::TallySourceOutOfScope { detail: "kcode card needs tally/source translation".to_string() }
    );
    assert_eq!(
        check_data_cards(&mut drift, &vec![data("tr1", "TR", Some(1), "")]).unwrap_err(),
        Error::TransformOutOfScope { detail: "tr1 card needs transform translation".to_string() }
    );
    assert_eq!(
        check_data_cards(&mut drift, &vec![data("lat", "LAT", None, "")]).unwrap_err(),
        Error::UniverseOutOfScope { detail: "lat card needs lattice translation".to_string() }
    );
    assert_eq!(
        check_data_cards(&mut drift, &vec![data("Read", "READ", None, "")]).unwrap_err(),
        Error::UniverseOutOfScope { detail: "read includes are never followed, so the deck is incomplete".to_string() }
    );
    assert!(drift.is_empty());
}

use nucleide::surface::{map_phits_surface, map_serpent_surface};

#[test]
fn phits_symbols_pass_parameters_through() {
    assert_eq!(map_phits_surface(&card(1, SurfKind::Sx, "sx")).unwrap(), ("SX", vec![Coef::Card(0), Coef::Card(1)]));
    let (t, c) = map_phits_surface(&card(1, SurfKind::McBox, "box")).unwrap();
    assert_eq!(t, "BOX");
    assert_eq!(c.len(), 12);
    assert_eq!(c[11], Coef::Card(11));
    assert!(matches!(map_phits_surface(&card(2, SurfKind::Wed, "wed")).unwrap_err(), Error::MacrobodyOutOfScope { surf: 2, .. }));
    assert!(matches!(map_phits_surface(&card(2, SurfKind::Gq, "gq")).unwrap_err(), Error::UnsupportedSurface { surf: 2, .. }));
}

#[test]
fn serpent_rpp_is_native_cuboid_and_rcc_truncated() {
    let (t, c) = map_serpent_surface(&card(1, SurfKind::Rpp, "rpp"), [false; 3]).unwrap();
    assert_eq!(t, "cuboid");
    assert_eq!(c, (0..6).map(Coef::Card).collect::<Vec<_>>());
    assert_eq!(
        map_serpent_surface(&card(1, SurfKind::Rcc, "rcc"), [false, true, false]).unwrap(),
        ("cyly", vec![Coef::Card(0), Coef::Card(2), Coef::Card(6), Coef::Card(1), Coef::CardSum(1, 4)])
    );
    assert_eq!(
        map_serpent_surface(&card(1, SurfKind::Rcc, "rcc"), [true, false, true]).unwrap_err(),
        Error::MacrobodyOutOfScope {
            surf: 1,
            kind: "rcc".to_string(),
            detail: "only axis-aligned RCC maps to Serpent truncated cylinders".to_string(),
        }
    );
    assert_eq!(
        map_serpent_surface(&card(4, SurfKind::So, "so"), [false; 3]).unwrap(),
        ("sph", vec![Coef::Zero, Coef::Zero, Coef::Zero, Coef::Card(0)])
    );
}
