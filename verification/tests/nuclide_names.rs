use nucleide::fgr15::{has_name_shape, name_of, parse_nuclide_name};
use nucleide::nuclide::{NuclideError, NuclideId};

#[test]
fn nuclide_name_spellings() {
    assert_eq!(parse_nuclide_name("H-3").unwrap().nucid(), 10_030_000);
    assert_eq!(parse_nuclide_name("cs-137").unwrap().state(), 0);
    assert_eq!(parse_nuclide_name("SB-124N").unwrap().state(), 2);
    assert!(parse_nuclide_name("H3").is_none());
    assert!(parse_nuclide_name("H-").is_none());
    assert!(parse_nuclide_name("-3").is_none());
    assert!(parse_nuclide_name("Xx-3").is_none());
    assert!(parse_nuclide_name("U-2").is_none()); // A < Z
    assert!(parse_nuclide_name("H-3mn").is_none());
    assert!(parse_nuclide_name("H-3w").is_none()); // 'w' is not a designator
}

#[test]
fn names_spell_symbol_mass_and_isomer_letter() {
    let sb124n = parse_nuclide_name("Sb-124n").unwrap();
    assert_eq!(sb124n.z(), 51);
    assert_eq!(sb124n.a(), 124);
    assert_eq!(sb124n.state(), 2);
    assert_eq!(name_of(sb124n), "Sb-124n");
    assert_eq!(name_of(parse_nuclide_name("H-3").unwrap()), "H-3");
    assert_eq!(name_of(parse_nuclide_name("Ba-137m").unwrap()), "Ba-137m");
    assert_eq!(name_of(parse_nuclide_name("og-294").unwrap()), "Og-294");
}

#[test]
fn name_of_then_parse_gives_back_the_nuclide() {
    for (z, a, state) in [(1u32, 1u32, 0u32), (26, 56, 0), (92, 235, 1), (118, 294, 13), (27, 60, 12)] {
        let id = NuclideId::new(z, a, state).unwrap();
        let name = name_of(id);
        assert_eq!(parse_nuclide_name(&name), Some(id), "{name}");
    }
}

#[test]
fn mass_numbers_take_leading_zeros_and_stop_at_999() {
    assert_eq!(parse_nuclide_name("H-003").unwrap().a(), 3);
    assert_eq!(parse_nuclide_name("Og-999").unwrap().a(), 999);
    assert!(parse_nuclide_name("Og-1000").is_none());
    assert!(parse_nuclide_name("H-99999999999999999999").is_none());
}

#[test]
fn name_shape_is_surface_only() {
    assert!(has_name_shape("Xx-3"));
    assert!(has_name_shape("H-9999"));
    assert!(has_name_shape("Sb-124n"));
    assert!(!has_name_shape("H3"));
    assert!(!has_name_shape("H-3mn"));
    assert!(!has_name_shape("Abc-3"));
    assert!(!has_name_shape("H-x"));
}

#[test]
fn identities_are_validated() {
    assert_eq!(NuclideId::new(0, 1, 0), Err(NuclideError::UnknownElement(0)));
    assert_eq!(NuclideId::new(119, 300, 0), Err(NuclideError::UnknownElement(119)));
    assert_eq!(NuclideId::new(92, 91, 0), Err(NuclideError::BadMass { z: 92, a: 91 }));
    assert_eq!(NuclideId::new(92, 1000, 0), Err(NuclideError::BadMass { z: 92, a: 1000 }));
    assert_eq!(NuclideId::new(92, 235, 14), Err(NuclideError::BadState(14)));
    let u235m = NuclideId::new(92, 235, 1).unwrap();
    assert_eq!(u235m.nucid(), 922_350_001);
    assert_eq!(NuclideId::from_nucid(922_350_001), Ok(u235m));
    assert_eq!(NuclideId::from_nucid(5), Err(NuclideError::BadNucid(5)));
}

#[test]
fn nuclide_names_ignore_case() {
    for name in ["Cs-137", "Ba-137m", "Sb-124n", "H-3", "Xx-1", "cs-1370"] {
        assert_eq!(parse_nuclide_name(&name.to_ascii_uppercase()), parse_nuclide_name(name));
        assert_eq!(parse_nuclide_name(&name.to_ascii_lowercase()), parse_nuclide_name(name));
    }
    assert!(parse_nuclide_name("BA-137M").is_some());
}
