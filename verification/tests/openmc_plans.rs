use nucleide::boundary::Boundary;
use nucleide::drift::DriftScope;
use nucleide::expand::DeckSurface;
use nucleide::openmc::{plan_openmc, DeckCell, OpenmcDeck, OutCell};
use nucleide::params::DataCard;
use nucleide::region::{GeomExpr, HalfSpace};
use nucleide::surface::{SurfKind, SurfaceCard};
use nucleide::universe::{FillMatrix, FillTarget, FillView, LatticeView, UniverseView};
use nucleide::xlate::Error;

fn hs(surf: i32) -> GeomExpr {
    GeomExpr::HalfSpace(HalfSpace { surf, reflecting: false })
}

fn cell(num: u32, mat: u32, geom: GeomExpr, params: &[&str]) -> DeckCell {
    DeckCell { num, mat, params: params.iter().map(|p| p.to_string()).collect(), geom }
}

fn surf(num: u32, kind: SurfKind, keyword: &str) -> DeckSurface {
    DeckSurface {
        card: SurfaceCard { num, kind, keyword: keyword.to_string() },
        transform: None,
        rcc_nonzero: [false, false, false],
        rcc_ascending: true,
        box_nonzero: [[false; 3]; 3],
        periodic: None,
        reflecting: false,
    }
}

fn data(name: &str, prefix: &str, number: Option<u32>) -> DataCard {
    DataCard { name: name.to_string(), prefix: prefix.to_string(), number, classifier: String::new() }
}

fn deck(cells: Vec<DeckCell>, surfs: Vec<DeckSurface>, data: Vec<DataCard>) -> OpenmcDeck {
    OpenmcDeck { cells, surfs, data, lattices: vec![], universes: vec![], fills: vec![] }
}

fn regions(cells: &[OutCell]) -> Vec<&str> {
    cells.iter().map(|c| c.region.as_str()).collect()
}

#[test]
fn sphere_and_planes_plan_lossless() {
    let d = deck(
        vec![cell(1, 1, hs(-1), &[]), cell(2, 0, GeomExpr::Intersect(vec![hs(1), hs(2), hs(-3), hs(4)]), &[])],
        vec![
            surf(1, SurfKind::So, "so"),
            surf(2, SurfKind::Px, "px"),
            surf(3, SurfKind::Px, "px"),
            surf(4, SurfKind::Py, "py"),
        ],
        vec![data("mode", "MODE", None), data("m1", "M", Some(1))],
    );
    let plan = plan_openmc(&d, &vec![]).unwrap();
    assert_eq!(regions(&plan.cells), vec!["-1", "1 2 -3 4"]);
    assert_eq!(plan.cells[0].mat, 1);
    assert_eq!(plan.cells[1].universe, 0);
    assert_eq!(plan.drift.len(), 1);
    assert_eq!(plan.drift.entries[0].action, "dropped-data-card");
    assert_eq!(plan.surfaces.emitted_ids(), vec![1, 2, 3, 4]);
    assert!(plan.boundaries.iter().all(|b| b.boundary.is_none()));
}

#[test]
fn rpp_plan_expands_to_six_planes() {
    let d = deck(vec![cell(1, 1, hs(-1), &[]), cell(2, 0, hs(1), &[])], vec![surf(1, SurfKind::Rpp, "rpp")], vec![]);
    let plan = plan_openmc(&d, &vec![]).unwrap();
    assert_eq!(regions(&plan.cells), vec!["2 -3 4 -5 6 -7", "-2 | 3 | -4 | 5 | -6 | 7"]);
    assert_eq!(plan.surfaces.emitted_ids(), vec![2, 3, 4, 5, 6, 7]);
    assert!(plan.drift.for_scope(DriftScope::Surface).iter().any(|e| e.action == "macrobody-expansion"));
}

#[test]
fn complement_and_reflecting_marker_plan() {
    let d = deck(
        vec![
            cell(1, 1, hs(-1), &[]),
            cell(2, 0, GeomExpr::Intersect(vec![GeomExpr::Complement(Box::new(hs(1))), GeomExpr::HalfSpace(HalfSpace { surf: -2, reflecting: true })]), &[]),
        ],
        vec![surf(1, SurfKind::So, "so"), surf(2, SurfKind::Pz, "pz")],
        vec![],
    );
    let plan = plan_openmc(&d, &vec![]).unwrap();
    assert_eq!(regions(&plan.cells), vec!["-1", "1 -2"]);
    assert_eq!(plan.boundaries[1].boundary, Some(Boundary::Reflective));
    let actions: Vec<&str> = plan.drift.entries.iter().map(|e| e.action.as_str()).collect();
    assert_eq!(actions, vec!["complement-expansion", "reflective-applied"]);
}

#[test]
fn nested_universe_fill_plans() {
    let mut d = deck(
        vec![cell(1, 1, hs(-1), &["u=1"]), cell(2, 0, hs(-2), &["fill=1"])],
        vec![surf(1, SurfKind::So, "so"), surf(2, SurfKind::So, "so")],
        vec![],
    );
    d.universes = vec![UniverseView { number: 1, cells: vec![1], not_truncated: vec![] }];
    d.fills = vec![FillView { cell: 2, has_transform: false, in_degrees: false, target: FillTarget::Single(1) }];
    let plan = plan_openmc(&d, &vec![]).unwrap();
    assert_eq!(plan.cells[0].universe, 1);
    assert_eq!(plan.cells[1].fill, Some(1));
    assert_eq!(plan.cells[1].lattice, None);
    let actions: Vec<&str> = plan.drift.entries.iter().map(|e| e.action.as_str()).collect();
    assert_eq!(actions, vec!["universe-assigned", "fill-applied"]);
}

#[test]
fn lattice_plan_and_refused_bounds() {
    let mut d = deck(
        vec![cell(1, 0, hs(-1), &["lat=1"]), cell(2, 1, hs(-2), &[])],
        vec![surf(1, SurfKind::Rpp, "rpp"), surf(2, SurfKind::So, "so")],
        vec![],
    );
    d.lattices = vec![LatticeView { cell: 1, lattice: 1 }];
    d.fills = vec![FillView {
        cell: 1,
        has_transform: false,
        in_degrees: false,
        target: FillTarget::Matrix(FillMatrix { min_index: [0, 0, 0], max_index: [1, 0, 0], universes: vec![Some(2), Some(2)] }),
    }];
    d.universes = vec![UniverseView { number: 2, cells: vec![2], not_truncated: vec![] }];
    let plan = plan_openmc(&d, &vec![]).unwrap();
    assert_eq!(plan.cells[0].lattice, Some(3));
    assert_eq!(plan.drift.entries[0].action, "lattice-emitted");
    let refusal = Error::UniverseOutOfScope { detail: "cell 1 lattice bounds need an RPP interior".to_string() };
    assert_eq!(plan_openmc(&d, &vec![(1, refusal.clone())]).unwrap_err(), refusal);
}

#[test]
fn first_refusal_wins() {
    let mut s = surf(2, SurfKind::Gq, "gq");
    s.transform = None;
    let d = deck(
        vec![cell(1, 0, hs(-1), &["trcl=1"])],
        vec![surf(1, SurfKind::So, "so"), s],
        vec![data("sdef", "SDEF", None)],
    );
    assert!(matches!(plan_openmc(&d, &vec![]).unwrap_err(), Error::TransformOutOfScope { .. }));
    let d = deck(vec![cell(1, 0, hs(-1), &[])], vec![surf(1, SurfKind::So, "so"), surf(2, SurfKind::Gq, "gq")], vec![data("sdef", "SDEF", None)]);
    assert!(matches!(plan_openmc(&d, &vec![]).unwrap_err(), Error::TallySourceOutOfScope { .. }));
    let d = deck(vec![cell(1, 0, hs(-1), &[])], vec![surf(1, SurfKind::So, "so"), surf(2, SurfKind::Gq, "gq")], vec![]);
    assert!(matches!(plan_openmc(&d, &vec![]).unwrap_err(), Error::UnsupportedSurface { surf: 2, .. }));
}

#[test]
fn periodic_pair_plans_both_sides() {
    let mut a = surf(1, SurfKind::Pz, "pz");
    a.periodic = Some(2);
    let d = deck(vec![cell(1, 0, GeomExpr::Intersect(vec![hs(-1), hs(2)]), &[])], vec![a, surf(2, SurfKind::Pz, "pz")], vec![]);
    let plan = plan_openmc(&d, &vec![]).unwrap();
    assert_eq!(plan.boundaries[0].periodic_id, Some(2));
    assert_eq!(plan.boundaries[1].periodic_id, Some(1));
    assert_eq!(plan.drift.entries.last().unwrap().action, "periodic-link");
}
