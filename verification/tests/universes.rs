use nucleide::drift::DriftScope;
use nucleide::universe::{
    resolve_universes, Error, FillMatrix, FillTarget, FillView, LatticeView, UniverseView,
};

fn universe(number: u32, cells: &[u32]) -> UniverseView {
    UniverseView { number, cells: cells.to_vec(), not_truncated: vec![] }
}

fn single(cell: u32, u: u32) -> FillView {
    FillView { cell, has_transform: false, in_degrees: false, target: FillTarget::Single(u) }
}

fn matrix(cell: u32, max: [i32; 3], universes: Vec<Option<u32>>) -> FillView {
    FillView {
        cell,
        has_transform: false,
        in_degrees: false,
        target: FillTarget::Matrix(FillMatrix { min_index: [0, 0, 0], max_index: max, universes }),
    }
}

fn out_of_scope(detail: &str) -> Error {
    Error::UniverseOutOfScope { detail: detail.to_string() }
}

#[test]
fn nested_universe_fill_resolves_with_notes() {
    let plan = resolve_universes(
        &vec![],
        &vec![universe(1, &[3, 2]), universe(0, &[1])],
        &vec![single(1, 1)],
        &vec![1, 2, 3],
    )
    .unwrap();
    assert_eq!(plan.universes, vec![(1, 0), (2, 1), (3, 1)]);
    assert_eq!(plan.fills, vec![(1, 1)]);
    assert!(plan.lattices.is_empty());
    let reasons: Vec<&str> = plan.notes.iter().map(|n| n.reason.as_str()).collect();
    assert_eq!(
        reasons,
        vec![
            "cell 2 assigned to universe 1",
            "cell 3 assigned to universe 1",
            "cell 1 filled with universe 1"
        ]
    );
    assert!(plan.notes.iter().all(|n| n.scope == DriftScope::Cell));
    assert_eq!(plan.notes[2].action, "fill-applied");
}

#[test]
fn later_cards_win_for_the_same_cell() {
    let plan = resolve_universes(
        &vec![],
        &vec![universe(4, &[7]), universe(5, &[7])],
        &vec![single(9, 4), single(9, 5)],
        &vec![7, 9],
    )
    .unwrap();
    assert_eq!(plan.universes, vec![(7, 5)]);
    assert_eq!(plan.fills, vec![(9, 5)]);
}

#[test]
fn loud_universe_and_fill_cases() {
    let flagged = UniverseView { number: 5, cells: vec![2, 3], not_truncated: vec![2, 3] };
    assert_eq!(
        resolve_universes(&vec![], &vec![flagged], &vec![], &vec![2, 3]).err().unwrap(),
        out_of_scope("cells [2, 3] use U=-5 with no OpenMC equivalent")
    );
    let transformed = FillView { has_transform: true, ..single(4, 1) };
    assert_eq!(
        resolve_universes(&vec![], &vec![], &vec![transformed], &vec![4]).err().unwrap(),
        Error::TransformOutOfScope { detail: "cell 4 FILL transform needs transform translation".to_string() }
    );
    let degrees = FillView { in_degrees: true, ..single(4, 1) };
    assert_eq!(
        resolve_universes(&vec![], &vec![], &vec![degrees], &vec![4]).err().unwrap(),
        Error::TransformOutOfScope { detail: "cell 4 *FILL degrees need transform translation".to_string() }
    );
    let m = matrix(6, [0, 0, 0], vec![Some(1)]);
    assert_eq!(
        resolve_universes(&vec![], &vec![], &vec![m.clone()], &vec![6]).err().unwrap(),
        out_of_scope("cell 6 FILL matrix without LAT=1 needs lattice translation")
    );
    let hex = LatticeView { cell: 6, lattice: 2 };
    assert_eq!(
        resolve_universes(&vec![hex], &vec![], &vec![m], &vec![6]).err().unwrap(),
        out_of_scope("cell 6 LAT=2 hexagonal lattices stay out of scope (rectangular LAT=1 only)")
    );
    let rect = LatticeView { cell: 6, lattice: 1 };
    assert_eq!(
        resolve_universes(&vec![rect], &vec![], &vec![single(6, 2)], &vec![6]).err().unwrap(),
        out_of_scope("cell 6 LAT=1 needs a full FILL matrix (single-universe lattice fills stay out of scope)")
    );
}

#[test]
fn rectangular_lattices_get_ids_above_every_number() {
    let plan = resolve_universes(
        &vec![LatticeView { cell: 10, lattice: 1 }, LatticeView { cell: 12, lattice: 1 }],
        &vec![universe(3, &[20])],
        &vec![
            matrix(12, [0, 0, 0], vec![None]),
            matrix(10, [1, 1, 0], vec![Some(1), Some(2), Some(3), Some(4)]),
        ],
        &vec![10, 12, 20],
    )
    .unwrap();
    assert_eq!(plan.lattices.len(), 2);
    let lat = plan.lattices[0].as_ref().unwrap();
    assert_eq!(lat.cell, 10);
    assert_eq!(lat.id, 21);
    assert_eq!(lat.counts, [2, 2, 1]);
    assert_eq!(lat.universes, vec![1, 2, 3, 4]);
    assert_eq!(
        lat.note.reason,
        "cell 10 rectangular lattice emitted as lattice 21 (2x2x1 elements)"
    );
    assert_eq!(
        plan.lattices[1].as_ref().err().unwrap(),
        &out_of_scope("cell 12 FILL matrix has a 0-hole (empty element) with no emitted spelling")
    );
}

#[test]
fn lattice_universes_emit_rows_top_down() {
    let plan = resolve_universes(
        &vec![LatticeView { cell: 1, lattice: 1 }],
        &vec![],
        &vec![matrix(1, [1, 1, 0], vec![Some(3), Some(4), Some(5), Some(6)])],
        &vec![1],
    )
    .unwrap();
    let lat = plan.lattices[0].as_ref().unwrap();
    assert_eq!(lat.counts, [2, 2, 1]);
    assert_eq!(lat.ordered(), vec![5, 6, 3, 4]);
}
