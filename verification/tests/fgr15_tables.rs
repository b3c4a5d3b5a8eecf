use std::collections::BTreeMap;

use nucleide::fgr15::{
    check_table, parse_nuclide_name, scan_table, Error, Fgr15Age, Fgr15Scenario,
};
use nucleide::nuclide::NuclideId;

/// A parsed table: the layout from the library, the coefficients read here.
struct Table {
    scenario: Fgr15Scenario,
    units: String,
    rows: BTreeMap<u32, Vec<f64>>,
}

impl Table {
    fn scenario(&self) -> Fgr15Scenario {
        self.scenario
    }
    fn units(&self) -> &str {
        &self.units
    }
    fn len(&self) -> usize {
        self.rows.len()
    }
    fn is_empty(&self) -> bool {
        self.rows.is_empty()
    }
    fn coefficient(&self, id: NuclideId, age: Fgr15Age) -> Option<f64> {
        self.rows.get(&id.nucid()).map(|row| row[age.index()])
    }
    fn coefficient_by_name(&self, name: &str, age: Fgr15Age) -> Option<f64> {
        let id = parse_nuclide_name(name)?;
        self.coefficient(id, age)
    }
}

fn parse_table(text: &str, expected_rows: usize) -> Result<Table, Error> {
    let scan = scan_table(text)?;
    let mut parsed = Vec::new();
    let mut values = Vec::new();
    for row in &scan.rows {
        let vals: Option<Vec<f64>> = row
            .coefficients
            .iter()
            .map(|t| t.parse::<f64>().ok().filter(|v| v.is_finite()))
            .collect();
        parsed.push(vals.is_some());
        values.push(vals.unwrap_or_default());
    }
    check_table(&scan, &parsed, expected_rows)?;
    let rows = scan.rows.iter().map(|r| r.nucid).zip(values).collect();
    Ok(Table { scenario: scan.scenario, units: scan.units, rows })
}

const SYNTHETIC: &str = "Table 4.1. Synthetic Ground Surface (3 mm)\r\n\r\n          ------- Reference Person Coefficients (Sv m2/Bq s) --------\r\n Nuclide  Newborn   1-yr-old  5-yr-old 10-yr-old 15-yr-old   Adult\r\n---------------------------------------------------------------------\r\n\u{feff}Hydrogen\r\n H-3       1.00e-01  2.00e-01  3.00e-01  4.00e-01  5.00e-01  6.00e-01\r\nBeryllium\r\n Be-7      1.10e-01  1.20e-01  1.30e-01  1.40e-01  1.50e-01  1.60e-01\r\nAntimony\r\n Sb-124n   2.10e-01  2.20e-01  2.30e-01  2.40e-01  2.50e-01  2.60e-01\r\nBarium\r\n Ba-137m   3.10e-01  3.20e-01  3.30e-01  3.40e-01  3.50e-01  3.60e-01\r\nCaesium\r\n Cs-137    4.10e-01  4.20e-01  4.30e-01  4.40e-01  4.50e-01  4.60e-01\r\n---------------------------------------------------------------------\r\n";

#[test]
fn parses_synthetic_table_exact_layout() {
    let table = parse_table(SYNTHETIC, 5).unwrap();
    assert_eq!(table.scenario(), Fgr15Scenario::GroundSurface);
    assert_eq!(table.units(), "Sv m2/Bq s");
    assert_eq!(table.len(), 5);
    assert!(!table.is_empty());

    let h3 = parse_nuclide_name("H-3").unwrap();
    assert_eq!(table.coefficient(h3, Fgr15Age::Newborn), Some(0.10));
    assert_eq!(table.coefficient(h3, Fgr15Age::Adult), Some(0.60));
    assert_eq!(
        table.coefficient_by_name("Cs-137", Fgr15Age::Year10),
        Some(0.44)
    );
    let sb124n = parse_nuclide_name("Sb-124n").unwrap();
    assert_eq!(sb124n.state(), 2);
    assert_eq!(table.coefficient(sb124n, Fgr15Age::Year5), Some(0.23));
    assert_eq!(nucleide::fgr15::name_of(sb124n), "Sb-124n");
    assert_eq!(nucleide::fgr15::name_of(h3), "H-3");
    assert_eq!(
        nucleide::fgr15::name_of(parse_nuclide_name("Ba-137m").unwrap()),
        "Ba-137m"
    );
    let u235 = parse_nuclide_name("U-235").unwrap();
    assert_eq!(table.coefficient(u235, Fgr15Age::Adult), None);
    assert_eq!(
        table.coefficient_by_name("Not-A-Nuclide", Fgr15Age::Adult),
        None
    );
}

#[test]
fn row_region_accepts_non_finite_rejected_and_misc_structure() {
    let lf_only = SYNTHETIC.replace("\r\n", "\n");
    assert_eq!(parse_table(&lf_only, 5).unwrap().len(), 5);
}

#[test]
fn row_count_mismatch_is_loud() {
    let short = SYNTHETIC.replace(
        " Cs-137    4.10e-01  4.20e-01  4.30e-01  4.40e-01  4.50e-01  4.60e-01\r\n",
        "",
    );
    match parse_table(&short, 5).err().unwrap() {
        Error::RowCount {
            scenario,
            expected,
            found,
        } => {
            assert_eq!(scenario, Fgr15Scenario::GroundSurface);
            assert_eq!(expected, 5);
            assert_eq!(found, 4);
        }
        other => panic!("{other:?}"),
    }
    match parse_table(SYNTHETIC, 1252).err().unwrap() {
        Error::RowCount {
            expected, found, ..
        } => {
            assert_eq!(expected, 1252);
            assert_eq!(found, 5);
        }
        other => panic!("{other:?}"),
    }
}

#[test]
fn malformed_rows_error() {
    let bad_float = SYNTHETIC.replace("2.00e-01", "not-a-float");
    assert!(matches!(
        parse_table(&bad_float, 5).err().unwrap(),
        Error::MalformedRow { .. }
    ));
    let short_row = SYNTHETIC.replace(
        " H-3       1.00e-01  2.00e-01  3.00e-01  4.00e-01  5.00e-01  6.00e-01\r\n",
        " H-3       1.00e-01  2.00e-01\r\n",
    );
    assert!(matches!(
        parse_table(&short_row, 5).err().unwrap(),
        Error::MalformedRow { .. }
    ));
    let non_finite = SYNTHETIC.replace("3.00e-01", "inf");
    assert!(matches!(
        parse_table(&non_finite, 5).err().unwrap(),
        Error::MalformedRow { .. }
    ));
    let bad_mass = SYNTHETIC.replace(" H-3 ", " H-9999 ");
    assert!(matches!(
        parse_table(&bad_mass, 5).err().unwrap(),
        Error::MalformedRow { .. }
    ));
}

#[test]
fn duplicate_row_errors() {
    let dup = SYNTHETIC.replace("Beryllium\r\n", "Beryllium\r\n Be-7      9.00e-01  9.00e-01  9.00e-01  9.00e-01  9.00e-01  9.00e-01\r\n");
    match parse_table(&dup, 5).err().unwrap() {
        Error::DuplicateRow { name, .. } => assert_eq!(name, "Be-7"),
        other => panic!("{other:?}"),
    }
}

#[test]
fn unexpected_line_errors() {
    let junk = SYNTHETIC.replace("Beryllium\r\n", "total garbage here\r\n");
    assert!(matches!(
        parse_table(&junk, 5).err().unwrap(),
        Error::UnexpectedLine { .. }
    ));
    let lowercase = SYNTHETIC.replace("Beryllium\r\n", "beryllium\r\n");
    assert!(matches!(
        parse_table(&lowercase, 5).err().unwrap(),
        Error::UnexpectedLine { .. }
    ));
}

#[test]
fn structural_errors() {
    match parse_table("", 0).err().unwrap() {
        Error::BadTitle(t) => assert!(t.is_empty()),
        other => panic!("{other:?}"),
    }
    let truncated: String = SYNTHETIC.lines().take(2).collect::<Vec<_>>().join("\n");
    assert_eq!(parse_table(&truncated, 5).err().unwrap(), Error::MissingUnits);
    let bad_header = SYNTHETIC.replace(" Nuclide  Newborn", " Nuclide  Infant");
    assert!(matches!(
        parse_table(&bad_header, 5).err().unwrap(),
        Error::MalformedHeader(_)
    ));
    let no_sep = SYNTHETIC.replace(
        "---------------------------------------------------------------------\r\n",
        "xxxxxxxxxxxxxxxxxxxxxxxxxxxxxxxxxxxxxxxxxxxxxxxxxxxxxxxxxxxxxxxxxxxx\r\n",
    );
    assert_eq!(
        parse_table(&no_sep, 5).err().unwrap(),
        Error::MissingSeparator
    );
    let bad_title = SYNTHETIC.replacen("Table 4.1.", "Table 4.8.", 1);
    assert!(matches!(
        parse_table(&bad_title, 5).err().unwrap(),
        Error::UnknownScenario(_)
    ));
    let not_a_title = SYNTHETIC.replacen("Table 4.1.", "Table 9.9.", 1);
    assert!(matches!(
        parse_table(&not_a_title, 5).err().unwrap(),
        Error::BadTitle(_)
    ));
}

#[test]
fn scenario_keys_round_trip() {
    for scenario in Fgr15Scenario::ALL {
        assert_eq!(Fgr15Scenario::parse(scenario.as_str()), Some(scenario));
        assert_eq!(
            Fgr15Scenario::parse(scenario.table_number()),
            Some(scenario)
        );
        let text = SYNTHETIC.replacen(
            "Table 4.1.",
            &format!("Table {}.", scenario.table_number()),
            1,
        );
        let table = parse_table(&text, 5).unwrap();
        assert_eq!(table.scenario(), scenario);
        assert_eq!(table.units(), "Sv m2/Bq s");
    }
    assert_eq!(
        Fgr15Scenario::parse("SOIL-15CM"),
        Some(Fgr15Scenario::Soil15cm)
    );
    assert_eq!(
        Fgr15Scenario::parse("table 4.7"),
        Some(Fgr15Scenario::WaterImmersion)
    );
    assert_eq!(Fgr15Scenario::parse("4.8"), None);
    assert_eq!(Fgr15Scenario::parse("moon"), None);
}

#[test]
fn age_keys_parse() {
    for (i, age) in Fgr15Age::ALL.iter().enumerate() {
        assert_eq!(age.index(), i);
        assert_eq!(Fgr15Age::parse(age.as_str()), Some(*age));
    }
    assert_eq!(Fgr15Age::parse("1"), Some(Fgr15Age::Year1));
    assert_eq!(Fgr15Age::parse("10-YR-OLD"), Some(Fgr15Age::Year10));
    assert_eq!(Fgr15Age::parse("5yr"), Some(Fgr15Age::Year5));
    assert_eq!(Fgr15Age::parse(" 15-yr "), Some(Fgr15Age::Year15));
    assert_eq!(Fgr15Age::parse("Adult"), Some(Fgr15Age::Adult));
    assert_eq!(Fgr15Age::parse("2"), None);
    assert_eq!(Fgr15Age::parse("newborns"), None);
    assert_eq!(Fgr15Age::parse("1 yr old"), None);
}

#[test]
fn scenario_titles_and_table_numbers() {
    assert_eq!(Fgr15Scenario::GroundSurface.title(), "Ground Surface (3 mm)");
    assert_eq!(Fgr15Scenario::WaterImmersion.table_number(), "4.7");
    assert_eq!(Fgr15Scenario::from_table_number(3), Some(Fgr15Scenario::Soil5cm));
    assert_eq!(Fgr15Scenario::from_table_number(8), None);
    assert_eq!(Fgr15Scenario::parse("  Table Table 4.2 "), Some(Fgr15Scenario::Soil1cm));
}

#[test]
fn scan_reports_rows_with_lines_and_tokens() {
    let scan = scan_table(SYNTHETIC).unwrap();
    assert_eq!(scan.rows.len(), 5);
    assert_eq!(scan.rows[0].line, 7);
    assert_eq!(scan.rows[0].name, "H-3");
    assert_eq!(scan.rows[0].nucid, 10_030_000);
    assert_eq!(scan.rows[0].coefficients.len(), 6);
    assert_eq!(scan.rows[0].coefficients[5], "6.00e-01");
    assert!(scan.stop.is_none());
}

#[test]
fn error_messages_quote_their_cause() {
    assert_eq!(
        Error::BadTitle("Table 9.9.".to_string()).to_string(),
        "first line is not a `Table 4.N.` title: `Table 9.9.`"
    );
    assert_eq!(
        Error::MissingUnits.to_string(),
        "missing `Reference Person Coefficients (...)` header"
    );
    assert_eq!(
        Error::UnexpectedLine { line: 8, text: "junk".to_string() }.to_string(),
        "unexpected content at line 8: `junk`"
    );
    assert_eq!(
        Error::DuplicateRow { line: 12, name: "Be-7".to_string() }.to_string(),
        "duplicate nuclide row `Be-7` at line 12"
    );
    assert_eq!(
        Error::RowCount { scenario: Fgr15Scenario::Soil5cm, expected: 1252, found: 5 }.to_string(),
        "table 4.3 (soil_5cm) holds 5 rows, expected 1252"
    );
}

#[test]
fn scenario_keys_in_every_spelling() {
    for scenario in Fgr15Scenario::ALL {
        let shouted = scenario.as_str().to_ascii_uppercase().replace('_', "-");
        assert_eq!(Fgr15Scenario::parse(&shouted), Some(scenario));
        assert_eq!(Fgr15Scenario::parse(&format!(" table {} ", scenario.table_number())), Some(scenario));
    }
    for (age, year) in [(Fgr15Age::Year1, "1"), (Fgr15Age::Year5, "5"), (Fgr15Age::Year10, "10"), (Fgr15Age::Year15, "15")] {
        for sfx in ["", "-yr", "-y", "-yr-old", "-y-old", "yr", "y"] {
            assert_eq!(Fgr15Age::parse(&format!("{year}{sfx}")), Some(age));
            assert_eq!(Fgr15Age::parse(&format!("{year}{sfx}").to_ascii_uppercase()), Some(age));
        }
    }
}
