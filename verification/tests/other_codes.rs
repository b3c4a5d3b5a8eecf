use nucleide::expand::DeckSurface;
use nucleide::gdml::{map_gdml_surface, plan_gdml, GdmlRotation, GdmlSolidMap};
use nucleide::openmc::{check_numbers_fit, CellContent, DeckCell, OpenmcDeck};
use nucleide::order::ascending_positions;
use nucleide::phits::{plan_phits, PhitsMaterial};
use nucleide::region::{GeomExpr, HalfSpace};
use nucleide::serpent::plan_serpent;
use nucleide::surface::{Coef, SurfKind, SurfaceCard};
use nucleide::universe::{FillMatrix, FillTarget, FillView, LatticeView, UniverseView};
use nucleide::xlate::Error;

fn hs(surf: i32) -> GeomExpr {
    GeomExpr::HalfSpace(HalfSpace { surf, reflecting: false })
}

fn marked(surf: i32) -> GeomExpr {
    GeomExpr::HalfSpace(HalfSpace { surf, reflecting: true })
}

fn and(parts: Vec<GeomExpr>) -> GeomExpr {
    GeomExpr::Intersect(parts)
}

fn not_cell(n: i32) -> GeomExpr {
    GeomExpr::Complement(Box::new(hs(n)))
}

fn cell(num: u32, mat: u32, geom: GeomExpr, params: &[&str]) -> DeckCell {
    DeckCell { num, mat, params: params.iter().map(|p| p.to_string()).collect(), geom }
}

fn surf(num: u32, kind: SurfKind, keyword: &str) -> DeckSurface {
    DeckSurface {
        card: SurfaceCard { num, kind, keyword: keyword.to_string() },
        transform: None,
        rcc_nonzero: [false, false, false],
        rcc_ascending: true,
        box_nonzero: [[false; 3]; 3],
        periodic: None,
        reflecting: false,
    }
}

fn deck(cells: Vec<DeckCell>, surfs: Vec<DeckSurface>) -> OpenmcDeck {
    OpenmcDeck { cells, surfs, data: vec![], lattices: vec![], universes: vec![], fills: vec![] }
}

fn card_seq(n: usize) -> Vec<Coef> {
    (0..n).map(Coef::Card).collect()
}

/// Spheres in universes 1..4 filling a 2x2x1 lattice cell 10 bounded by
/// RPP 100, and cell 20 outside it.
fn lattice_deck_2x2x1() -> OpenmcDeck {
    let mut cells: Vec<DeckCell> = (1..=4).map(|k| cell(k, 1, hs(-(k as i32)), &[])).collect();
    cells[0].params = vec!["u=1".to_string()];
    cells[1].params = vec!["u=2".to_string()];
    cells[2].params = vec!["u=3".to_string()];
    cells[3].params = vec!["u=4".to_string()];
    cells.push(cell(10, 0, hs(-100), &["lat=1"]));
    cells.push(cell(20, 0, not_cell(10), &[]));
    let mut surfs: Vec<DeckSurface> = (1..=4).map(|k| surf(k, SurfKind::Sph, "sph")).collect();
    surfs.push(surf(100, SurfKind::Rpp, "rpp"));
    let mut d = deck(cells, surfs);
    d.lattices = vec![LatticeView { cell: 10, lattice: 1 }];
    d.universes = (1..=4).map(|k| UniverseView { number: k, cells: vec![k], not_truncated: vec![] }).collect();
    d.fills = vec![FillView {
        cell: 10,
        has_transform: false,
        in_degrees: false,
        target: FillTarget::Matrix(FillMatrix {
            min_index: [0, 0, 0],
            max_index: [1, 1, 0],
            universes: vec![Some(1), Some(2), Some(3), Some(4)],
        }),
    }];
    d
}

fn two_spheres() -> OpenmcDeck {
    deck(
        vec![cell(1, 1, hs(-1), &[]), cell(2, 0, hs(-2), &[])],
        vec![surf(1, SurfKind::So, "so"), surf(2, SurfKind::So, "so")],
    )
}

#[test]
fn serpent_sphere_box_cards() {
    let plan = plan_serpent(&two_spheres(), &vec![]).unwrap();
    assert_eq!(plan.surfaces.len(), 2);
    assert_eq!((plan.surfaces[0].num, plan.surfaces[0].stype), (1, "sph"));
    assert_eq!(plan.surfaces[0].coeffs, vec![Coef::Zero, Coef::Zero, Coef::Zero, Coef::Card(0)]);
    assert_eq!((plan.cells[0].id, plan.cells[0].universe, plan.cells[0].content), (1, 0, CellContent::Material(1)));
    assert_eq!(plan.cells[0].region, "-1");
    assert_eq!((plan.cells[1].id, plan.cells[1].universe, plan.cells[1].content), (2, 0, CellContent::Void));
    assert_eq!(plan.cells[1].region, "-2");
    assert_eq!(plan.inf_surface, None);
}

#[test]
fn serpent_rpp_is_native_cuboid() {
    let d = deck(vec![cell(1, 1, hs(-1), &[])], vec![surf(1, SurfKind::Rpp, "rpp")]);
    let plan = plan_serpent(&d, &vec![]).unwrap();
    assert_eq!(plan.surfaces[0].stype, "cuboid");
    assert_eq!(plan.surfaces[0].coeffs, card_seq(6));
    assert!(!plan.drift.entries.iter().any(|e| e.action == "macrobody-expansion"));
}

#[test]
fn serpent_universe_fill_cards() {
    let mut d = deck(
        vec![cell(1, 1, hs(-1), &["u=1"]), cell(2, 0, hs(-2), &["fill=1"])],
        vec![surf(1, SurfKind::So, "so"), surf(2, SurfKind::So, "so")],
    );
    d.universes = vec![UniverseView { number: 1, cells: vec![1], not_truncated: vec![] }];
    d.fills = vec![FillView { cell: 2, has_transform: false, in_degrees: false, target: FillTarget::Single(1) }];
    let plan = plan_serpent(&d, &vec![]).unwrap();
    assert_eq!((plan.cells[0].universe, plan.cells[0].content), (1, CellContent::Material(1)));
    assert_eq!((plan.cells[1].universe, plan.cells[1].content), (0, CellContent::Fill(1)));
    assert_eq!(plan.cells[1].region, "-2");
    assert!(plan.drift.entries.iter().any(|e| e.action == "fill-applied"));
}

#[test]
fn serpent_complement_passes_through() {
    let d = deck(
        vec![cell(1, 1, hs(-1), &[]), cell(2, 0, and(vec![not_cell(1), hs(-2)]), &[])],
        vec![surf(1, SurfKind::So, "so"), surf(2, SurfKind::So, "so")],
    );
    let plan = plan_serpent(&d, &vec![]).unwrap();
    assert_eq!(plan.cells[1].region, "#1 -2");
    assert_eq!(plan.cells[1].content, CellContent::Void);
}

#[test]
fn serpent_plan_refuses_boundaries() {
    let mut s = surf(1, SurfKind::So, "so");
    s.reflecting = true;
    let err = plan_serpent(&deck(vec![cell(1, 0, hs(-1), &[])], vec![s]), &vec![]).unwrap_err();
    assert!(matches!(err, Error::SerpentBoundaryOutOfScope { surf: 1, .. }));
    let err = plan_serpent(&deck(vec![cell(1, 0, marked(-1), &[])], vec![surf(1, SurfKind::So, "so")]), &vec![]).unwrap_err();
    assert_eq!(
        err,
        Error::SerpentBoundaryOutOfScope { surf: 1, detail: "cell 1 `*` marker has no serpent spelling".to_string() }
    );
    let mut p = surf(1, SurfKind::Pz, "pz");
    p.periodic = Some(2);
    let err = plan_serpent(&deck(vec![cell(1, 0, and(vec![hs(-1), hs(2)]), &[])], vec![p, surf(2, SurfKind::Pz, "pz")]), &vec![])
        .unwrap_err();
    assert!(matches!(err, Error::SerpentBoundaryOutOfScope { surf: 1, .. }));
    let err = plan_serpent(&deck(vec![cell(1, 0, hs(-1), &[])], vec![surf(1, SurfKind::Kz, "kz")]), &vec![]).unwrap_err();
    assert!(matches!(err, Error::UnsupportedSurface { surf: 1, .. }));
}

#[test]
fn serpent_empty_region_names_inf_surface() {
    let d = deck(vec![cell(1, 0, and(vec![]), &[]), cell(2, 1, hs(-7), &[])], vec![surf(7, SurfKind::So, "so")]);
    let plan = plan_serpent(&d, &vec![]).unwrap();
    assert_eq!(plan.inf_surface, Some(8));
    assert_eq!(plan.cells[0].region, "-8");
    assert_eq!(plan.cells[1].region, "-7");
}

#[test]
fn serpent_transform_and_canted_rcc_refused() {
    let mut s = surf(1, SurfKind::So, "so");
    s.transform = Some(3);
    let err = plan_serpent(&deck(vec![cell(1, 0, hs(-1), &[])], vec![s]), &vec![]).unwrap_err();
    assert_eq!(err, Error::TransformOutOfScope { detail: "surface 1 links transform 3".to_string() });
    let mut r = surf(1, SurfKind::Rcc, "rcc");
    r.rcc_nonzero = [true, true, false];
    let err = plan_serpent(&deck(vec![cell(1, 0, hs(-1), &[])], vec![r.clone()]), &vec![]).unwrap_err();
    assert!(matches!(err, Error::MacrobodyOutOfScope { surf: 1, .. }));
    r.rcc_nonzero = [false, false, true];
    let plan = plan_serpent(&deck(vec![cell(1, 0, hs(-1), &[])], vec![r]), &vec![]).unwrap();
    assert_eq!(plan.surfaces[0].stype, "cylz");
    assert_eq!(plan.surfaces[0].coeffs, vec![Coef::Card(0), Coef::Card(1), Coef::Card(6), Coef::Card(2), Coef::CardSum(2, 5)]);
}

#[test]
fn serpent_rect_lattice_pins_order() {
    let plan = plan_serpent(&lattice_deck_2x2x1(), &vec![]).unwrap();
    let lat = plan.universes.lattices[0].as_ref().unwrap();
    assert_eq!((lat.cell, lat.id, lat.counts), (10, 21, [2, 2, 1]));
    assert_eq!(lat.ordered(), vec![3, 4, 1, 2]);
    let c10 = plan.cells.iter().find(|c| c.id == 10).unwrap();
    assert_eq!((c10.universe, c10.content), (0, CellContent::Fill(21)));
    assert_eq!(c10.region, "-100");
    assert!(plan.drift.entries.iter().any(|e| e.action == "lattice-emitted" && e.target == 10));
}

#[test]
fn phits_sphere_box_sections() {
    let plan = plan_phits(&two_spheres(), &vec![]).unwrap();
    assert_eq!((plan.surfaces[0].num, plan.surfaces[0].symbol, plan.surfaces[0].reflective), (1, "SO", false));
    assert_eq!(plan.surfaces[1].coeffs, vec![Coef::Card(0)]);
    assert_eq!((plan.cells[0].id, plan.cells[0].material), (1, PhitsMaterial::Material(1)));
    assert_eq!(plan.cells[0].region, "-1");
    assert_eq!((plan.cells[1].id, plan.cells[1].material), (2, PhitsMaterial::Void));
    assert_eq!(plan.cells[1].region, "-2");
}

#[test]
fn phits_outer_void_and_fill() {
    let mut d = deck(
        vec![cell(1, 1, hs(-1), &["u=1"]), cell(2, 0, hs(-2), &["fill=1"])],
        vec![surf(1, SurfKind::So, "so"), surf(2, SurfKind::So, "so")],
    );
    d.universes = vec![UniverseView { number: 1, cells: vec![1], not_truncated: vec![] }];
    d.fills = vec![FillView { cell: 2, has_transform: false, in_degrees: false, target: FillTarget::Single(1) }];
    let plan = plan_phits(&d, &vec![]).unwrap();
    assert_eq!((plan.cells[0].material, plan.cells[0].universe), (PhitsMaterial::Material(1), 1));
    assert_eq!((plan.cells[1].material, plan.cells[1].fill), (PhitsMaterial::Void, Some(1)));
    assert!(plan.drift.entries.iter().any(|e| e.action == "fill-applied"));
    let d = deck(
        vec![cell(1, 1, hs(-1), &[]), cell(2, 0, and(vec![not_cell(1), hs(-2)]), &[])],
        vec![surf(1, SurfKind::So, "so"), surf(2, SurfKind::So, "so")],
    );
    let plan = plan_phits(&d, &vec![]).unwrap();
    assert_eq!((plan.cells[1].material, plan.cells[1].region.as_str()), (PhitsMaterial::OuterVoid, "#1 -2"));
    let note = plan.drift.entries.last().unwrap();
    assert_eq!((note.action.as_str(), note.target), ("outer-void-assigned", 2));
    assert_eq!(note.reason, "cell 2 void union/complement emitted as outer void -1");
}

#[test]
fn phits_reflective_maps_and_periodic_is_loud() {
    let mut s = surf(1, SurfKind::So, "so");
    s.reflecting = true;
    let plan = plan_phits(&deck(vec![cell(1, 0, hs(-1), &[])], vec![s]), &vec![]).unwrap();
    assert!(plan.surfaces[0].reflective);
    let plan = plan_phits(&deck(vec![cell(1, 0, marked(-1), &[])], vec![surf(1, SurfKind::So, "so")]), &vec![]).unwrap();
    assert!(plan.surfaces[0].reflective);
    assert_eq!(plan.cells[0].region, "-1");
    let mut p = surf(1, SurfKind::Pz, "pz");
    p.periodic = Some(2);
    let err = plan_phits(&deck(vec![cell(1, 0, and(vec![hs(-1), hs(2)]), &[])], vec![p, surf(2, SurfKind::Pz, "pz")]), &vec![])
        .unwrap_err();
    assert_eq!(
        err,
        Error::PhitsBoundaryOutOfScope { surf: 1, detail: "periodic surface pointer has no phits spelling".to_string() }
    );
    let err = plan_phits(&deck(vec![cell(1, 0, hs(-1), &[])], vec![surf(1, SurfKind::Kz, "kz")]), &vec![]).unwrap_err();
    assert!(matches!(err, Error::UnsupportedSurface { surf: 1, .. }));
}

#[test]
fn phits_canted_rcc_maps() {
    let mut r = surf(1, SurfKind::Rcc, "rcc");
    r.rcc_nonzero = [true, true, true];
    let plan = plan_phits(&deck(vec![cell(1, 1, hs(-1), &[])], vec![r]), &vec![]).unwrap();
    assert_eq!((plan.surfaces[0].num, plan.surfaces[0].symbol), (1, "RCC"));
    assert_eq!(plan.surfaces[0].coeffs, card_seq(7));
}

#[test]
fn phits_empty_region_is_loud() {
    let d = deck(vec![cell(3, 0, and(vec![]), &[])], vec![surf(1, SurfKind::So, "so")]);
    let err = plan_phits(&d, &vec![]).unwrap_err();
    assert_eq!(err, Error::UniverseOutOfScope { detail: "cell 3 has an empty region (no phits inf spelling)".to_string() });
}

#[test]
fn phits_rect_lattice_keeps_matrix_fill() {
    let plan = plan_phits(&lattice_deck_2x2x1(), &vec![]).unwrap();
    let c10 = plan.cells.iter().find(|c| c.id == 10).unwrap();
    assert_eq!((c10.material, c10.lattice, c10.region.as_str()), (PhitsMaterial::Void, Some(21), "-100"));
    let lat = plan.universes.lattices[0].as_ref().unwrap();
    assert_eq!((lat.min_index, lat.max_index), ([0, 0, 0], [1, 1, 0]));
    assert_eq!(lat.universes, vec![1, 2, 3, 4]);
    assert!(plan.drift.entries.iter().any(|e| e.action == "lattice-emitted" && e.target == 10));
}

#[test]
fn gdml_surface_solids() {
    let c = |kind: SurfKind| SurfaceCard { num: 4, kind, keyword: "k".to_string() };
    let none = [[false; 3]; 3];
    assert_eq!(map_gdml_surface(&c(SurfKind::Py), [false; 3], true, none).unwrap(), GdmlSolidMap::HalfSpace { axis: 1 });
    assert_eq!(
        map_gdml_surface(&c(SurfKind::Sx), [false; 3], true, none).unwrap(),
        GdmlSolidMap::Orb { x: Coef::Card(0), y: Coef::Zero, z: Coef::Zero, radius: Coef::Card(1) }
    );
    assert_eq!(map_gdml_surface(&c(SurfKind::Cx), [false; 3], true, none).unwrap(), GdmlSolidMap::Tube { rotation: GdmlRotation::QuarterAboutY });
    assert_eq!(
        map_gdml_surface(&c(SurfKind::Cy), [false; 3], true, none).unwrap(),
        GdmlSolidMap::Tube { rotation: GdmlRotation::BackQuarterAboutX }
    );
    assert_eq!(
        map_gdml_surface(&c(SurfKind::Rcc), [false, true, false], false, none).unwrap(),
        GdmlSolidMap::FiniteTube { axis: 1, rotation: GdmlRotation::QuarterAboutX }
    );
    assert_eq!(
        map_gdml_surface(&c(SurfKind::Rcc), [false, false, true], false, none).unwrap(),
        GdmlSolidMap::FiniteTube { axis: 2, rotation: GdmlRotation::HalfAboutZ }
    );
    assert_eq!(map_gdml_surface(&c(SurfKind::Rpp), [false; 3], true, none).unwrap(), GdmlSolidMap::RppBox);
    let err = map_gdml_surface(&c(SurfKind::P), [false; 3], true, none).unwrap_err();
    assert!(matches!(err, Error::UnsupportedSurface { surf: 4, .. }));
    let err = map_gdml_surface(&c(SurfKind::Trc), [false; 3], true, none).unwrap_err();
    assert!(matches!(err, Error::MacrobodyOutOfScope { surf: 4, .. }));
}

#[test]
fn canted_rcc_and_cones_are_loud() {
    let mut r = surf(1, SurfKind::Rcc, "rcc");
    r.rcc_nonzero = [true, true, true];
    let err = plan_gdml(&deck(vec![cell(1, 1, hs(-1), &[])], vec![r]), &vec![], &String::new()).unwrap_err();
    assert!(matches!(err, Error::MacrobodyOutOfScope { .. }));
    let err = plan_gdml(&deck(vec![cell(1, 1, hs(-1), &[])], vec![surf(1, SurfKind::Kz, "kz")]), &vec![], &String::new()).unwrap_err();
    assert!(matches!(err, Error::UnsupportedSurface { .. }));
}

#[test]
fn box_axis_aligned_maps_and_canted_is_loud() {
    let mut b = surf(1, SurfKind::McBox, "box");
    b.box_nonzero = [[true, false, false], [false, true, false], [false, false, true]];
    let plan = plan_gdml(&deck(vec![cell(1, 1, hs(-1), &[])], vec![b.clone()]), &vec![], &String::new()).unwrap();
    assert_eq!(plan.solids, vec![(1, GdmlSolidMap::EdgeBox { first: 0, second: 1, third: 2 })]);
    b.box_nonzero = [[true, true, false], [false, true, false], [false, false, true]];
    let err = plan_gdml(&deck(vec![cell(1, 1, hs(-1), &[])], vec![b]), &vec![], &String::new()).unwrap_err();
    assert!(matches!(err, Error::MacrobodyOutOfScope { .. }));
}

#[test]
fn boundaries_are_loud() {
    let mut s = surf(1, SurfKind::So, "so");
    s.reflecting = true;
    let err = plan_gdml(&deck(vec![cell(1, 0, hs(-1), &[])], vec![s]), &vec![], &String::new()).unwrap_err();
    assert!(matches!(err, Error::GdmlBoundaryOutOfScope { .. }));
    let err = plan_gdml(&deck(vec![cell(1, 0, marked(-1), &[])], vec![surf(1, SurfKind::So, "so")]), &vec![], &String::new())
        .unwrap_err();
    assert!(matches!(err, Error::GdmlBoundaryOutOfScope { .. }));
    let mut p = surf(1, SurfKind::Pz, "pz");
    p.periodic = Some(2);
    let err = plan_gdml(&deck(vec![cell(1, 0, and(vec![hs(-1), hs(2)]), &[])], vec![p, surf(2, SurfKind::Pz, "pz")]), &vec![], &String::new())
        .unwrap_err();
    assert!(matches!(err, Error::GdmlBoundaryOutOfScope { .. }));
}

#[test]
fn rcc_emits_finite_tube_with_caps() {
    let mut r = surf(1, SurfKind::Rcc, "rcc");
    r.rcc_nonzero = [false, false, true];
    let d = deck(vec![cell(1, 1, hs(-1), &[]), cell(2, 0, hs(1), &[])], vec![r]);
    let plan = plan_gdml(&d, &vec![], &"bounded".to_string()).unwrap();
    assert_eq!(plan.solids, vec![(1, GdmlSolidMap::FiniteTube { axis: 2, rotation: GdmlRotation::Identity })]);
    let actions: Vec<&str> = plan.drift.entries.iter().map(|e| e.action.as_str()).collect();
    assert_eq!(actions, vec!["halfspace-bounded", "macrobody-expansion", "material-stub"]);
    assert_eq!(plan.drift.entries[0].reason, "bounded");
    assert_eq!(plan.drift.entries[1].reason, "RCC 1 emitted as named boolean solid sl1 (finite tube plus cap boxes)");
    assert_eq!(
        plan.drift.entries[2].reason,
        "material stubs (mat0 mat1) emitted with placeholder D/atom values; replace them with real definitions"
    );
}

#[test]
fn complement_of_sphere_is_cutoff_minus_orb() {
    let d = deck(
        vec![cell(1, 1, hs(-1), &[]), cell(2, 0, and(vec![not_cell(1), hs(-2)]), &[])],
        vec![surf(1, SurfKind::So, "so"), surf(2, SurfKind::Pz, "pz")],
    );
    let plan = plan_gdml(&d, &vec![], &String::new()).unwrap();
    let note = plan.drift.entries.iter().find(|e| e.action == "complement-expansion").unwrap();
    assert_eq!(note.target, 2);
    assert_eq!(note.reason, "#1 inlined as the negated region of cell 1");
    let d = deck(vec![cell(2, 0, not_cell(5), &[])], vec![surf(1, SurfKind::So, "so")]);
    assert_eq!(plan_gdml(&d, &vec![], &String::new()).unwrap_err(), Error::UnknownCell { cell: 2, target: 5 });
    let d = deck(vec![cell(2, 0, hs(-9), &[])], vec![surf(1, SurfKind::So, "so")]);
    assert_eq!(plan_gdml(&d, &vec![], &String::new()).unwrap_err(), Error::UnknownSurface { cell: 2, surf: 9 });
}

#[test]
fn cards_are_written_by_ascending_number() {
    assert_eq!(ascending_positions(&vec![7, 2, 9, 2, 1]), vec![4, 1, 3, 0, 2]);
    assert_eq!(ascending_positions(&vec![]), Vec::<usize>::new());
}

#[test]
fn lattice_expands_to_element_placements() {
    let plan = plan_gdml(&lattice_deck_2x2x1(), &vec![], &String::new()).unwrap();
    let expanded = plan.drift.entries.iter().find(|e| e.action == "lattice-expanded").unwrap();
    assert_eq!(expanded.target, 10);
    assert_eq!(expanded.reason, "cell 10 rectangular lattice expanded to 4 physvol placements of element assemblies");
    assert!(plan.drift.entries.iter().any(|e| e.action == "lattice-emitted" && e.target == 10));
    let stub = plan.drift.entries.last().unwrap();
    assert_eq!(stub.action, "material-stub");
    assert_eq!(stub.reason, "material stubs (mat0 mat1) emitted with placeholder D/atom values; replace them with real definitions");
}

#[test]
fn universes_become_assemblies() {
    let mut d = deck(
        vec![cell(1, 1, hs(-1), &["u=1"]), cell(2, 0, hs(-2), &["fill=1"])],
        vec![surf(1, SurfKind::So, "so"), surf(2, SurfKind::So, "so")],
    );
    d.universes = vec![UniverseView { number: 1, cells: vec![1], not_truncated: vec![] }];
    d.fills = vec![FillView { cell: 2, has_transform: false, in_degrees: false, target: FillTarget::Single(1) }];
    let plan = plan_gdml(&d, &vec![], &String::new()).unwrap();
    assert_eq!(plan.universes.universes, vec![(1, 1)]);
    assert_eq!(plan.universes.fills, vec![(2, 1)]);
    let actions: Vec<&str> = plan.drift.entries.iter().map(|e| e.action.as_str()).collect();
    assert!(actions.contains(&"fill-applied") && actions.contains(&"universe-assigned"));
    let stub = plan.drift.entries.last().unwrap();
    assert_eq!(stub.reason, "material stubs (mat0 mat1) emitted with placeholder D/atom values; replace them with real definitions");
}

fn refusal_in_every_direction(d: &OpenmcDeck, refusals: &Vec<(u32, Error)>) -> Error {
    let openmc = nucleide::openmc::plan_openmc(d, refusals).unwrap_err();
    assert_eq!(plan_serpent(d, refusals).unwrap_err(), openmc);
    assert_eq!(plan_phits(d, refusals).unwrap_err(), openmc);
    assert_eq!(plan_gdml(d, refusals, &String::new()).unwrap_err(), openmc);
    openmc
}

#[test]
fn rect_lattice_loud_cases_name_the_cell() {
    let mut hole = lattice_deck_2x2x1();
    if let FillTarget::Matrix(m) = &mut hole.fills[0].target {
        m.universes[1] = None;
    }
    let err = refusal_in_every_direction(&hole, &vec![]);
    assert!(matches!(&err, Error::UniverseOutOfScope { .. }) && err.to_string().contains("cell 10 FILL matrix has a 0-hole"));

    let mut moved = lattice_deck_2x2x1();
    moved.fills[0].has_transform = true;
    let err = refusal_in_every_direction(&moved, &vec![]);
    assert!(matches!(&err, Error::TransformOutOfScope { .. }) && err.to_string().contains("cell 10 FILL transform"));

    let bounds = Error::UniverseOutOfScope { detail: "cell 10 lattice bounds need an RPP interior".to_string() };
    let err = refusal_in_every_direction(&lattice_deck_2x2x1(), &vec![(10, bounds.clone())]);
    assert_eq!(err, bounds);

    let mut single = lattice_deck_2x2x1();
    single.fills[0].target = FillTarget::Single(1);
    let err = refusal_in_every_direction(&single, &vec![]);
    assert!(matches!(&err, Error::UniverseOutOfScope { .. }) && err.to_string().contains("cell 10 LAT=1 needs a full FILL matrix"));

    let mut degrees = deck(
        vec![cell(1, 0, hs(-2), &[]), cell(2, 0, hs(-1), &["u=1"])],
        vec![surf(1, SurfKind::So, "so"), surf(2, SurfKind::So, "so")],
    );
    degrees.universes = vec![UniverseView { number: 1, cells: vec![2], not_truncated: vec![] }];
    degrees.fills = vec![FillView { cell: 1, has_transform: false, in_degrees: true, target: FillTarget::Single(1) }];
    let err = refusal_in_every_direction(&degrees, &vec![]);
    assert!(matches!(&err, Error::TransformOutOfScope { .. }) && err.to_string().contains("cell 1 *FILL degrees"));
}

#[test]
fn numbers_up_to_the_lattice_id_limit_are_accepted() {
    let mut d = lattice_deck_2x2x1();
    d.cells[5].num = u32::MAX - 1;
    assert!(check_numbers_fit(&d));
    d.cells[5].num = u32::MAX;
    assert!(!check_numbers_fit(&d));
}
