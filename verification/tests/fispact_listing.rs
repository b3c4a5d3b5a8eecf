use nucleide::fgr15::parse_nuclide_name;
use nucleide::fispact::{
    check_not_blank, is_column_header, is_flags_token, is_refused_line, is_time_header,
    looks_like_data_row, read_line, step_unit_seconds, time_unit_to_seconds, Error, LineAction,
    ReaderState,
};

#[derive(Debug)]
struct Row {
    interval: i64,
    time_s: f64,
    time_label: String,
    cooling: bool,
    nuclide: String,
    flags: String,
    clearance_index: f64,
    half_life_s: f64,
}

/// The listing reader driven line by line, numbers read here.
fn parse_clearance(text: &str) -> Result<Vec<Row>, Error> {
    check_not_blank(text)?;
    let mut state = ReaderState::new();
    let mut step: Option<(i64, f64, String, bool)> = None;
    let mut rows = Vec::new();
    for (index, raw) in text.lines().enumerate() {
        let line_no = index + 1;
        assert!(!is_refused_line(raw));
        let (next, action) = read_line(state, raw, line_no);
        state = next;
        match action {
            LineAction::Skip => {}
            LineAction::TimeHeader(fields) => {
                let f = fields?;
                let value: f64 = f.value.parse().map_err(|_| Error::Parse {
                    line: line_no,
                    msg: format!("expected step time, found `{}`", f.value),
                })?;
                let factor = step_unit_seconds(&f.unit, line_no)?;
                step = Some((f.interval, value * factor as f64, f.label, f.cooling));
            }
            LineAction::Row(fields) => {
                let f = fields?;
                let mut floats = Vec::new();
                for token in &f.values {
                    floats.push(token.parse::<f64>().map_err(|_| Error::Parse {
                        line: line_no,
                        msg: format!("expected float, found `{token}`"),
                    })?);
                }
                let half_life_s = if f.half_life == "Stable" {
                    -1.0
                } else {
                    f.half_life.parse().map_err(|_| Error::Parse {
                        line: line_no,
                        msg: format!("expected half-life or `Stable`, found `{}`", f.half_life),
                    })?
                };
                if parse_nuclide_name(&f.nuclide).is_none() {
                    return Err(Error::Parse {
                        line: line_no,
                        msg: format!("unknown nuclide `{}`", f.nuclide),
                    });
                }
                let (interval, time_s, time_label, cooling) = step.clone().unwrap();
                rows.push(Row {
                    interval,
                    time_s,
                    time_label,
                    cooling,
                    nuclide: f.nuclide,
                    flags: f.flags,
                    clearance_index: floats[9],
                    half_life_s,
                });
            }
        }
    }
    Ok(rows)
}

#[test]
fn rejects_empty() {
    assert!(parse_clearance("  \n").is_err());
}

#[test]
fn no_clearance_table_yields_empty_scan() {
    let scan = parse_clearance("FISPACT-II RUN\nSOME PROSE LINE\n").unwrap();
    assert!(scan.is_empty());
}

#[test]
fn malformed_rows_and_headers_are_loud() {
    let header = "1 * * * TIME INTERVAL 1 * * * TIME IS 1.0 SECS\n\
                  \n  NUCLIDE ATOMS CLEARANCE HALF LIFE\n kW seconds\n";
    let bad =
        format!("{header}Co 60 > 1.0 1.0 notafloat 1.0 1.0 1.0 1.0 1.0 1.0 1.0 1.0 1.0 1.0\n");
    match parse_clearance(&bad) {
        Err(Error::Parse { line, msg }) => {
            assert_eq!(line, 5);
            assert!(msg.contains("notafloat"), "msg was `{msg}`");
        }
        other => panic!("expected parse error, got {other:?}"),
    }
    let short = format!("{header}Co 60 > 1.0 1.0 1.0 1.0 1.0 1.0 1.0 1.0 1.0 1.0 1.0\n");
    assert!(matches!(parse_clearance(&short), Err(Error::Parse { .. })));
    let badnuc = format!("{header}Xx 99 1.0 1.0 1.0 1.0 1.0 1.0 1.0 1.0 1.0 1.0 1.0 1.0\n");
    match parse_clearance(&badnuc) {
        Err(Error::Parse { line, msg }) => {
            assert_eq!(line, 5);
            assert!(msg.contains("Xx-99"), "msg was `{msg}`");
        }
        other => panic!("expected parse error, got {other:?}"),
    }
    let badtime = "1 * * * TIME INTERVAL 1 * * * TIME IS\n";
    assert!(matches!(
        parse_clearance(badtime),
        Err(Error::Parse { line: 1, .. })
    ));
    let badunit = "1 * * * TIME INTERVAL 1 * * * TIME IS 1.0 fortnights\n";
    match parse_clearance(badunit) {
        Err(Error::Parse { line: 1, msg }) => {
            assert!(msg.contains("fortnights"), "msg was `{msg}`");
        }
        other => panic!("expected parse error, got {other:?}"),
    }
}

#[test]
fn time_units_convert_with_documented_factors() {
    for (tag, expected) in [
        ("TIME IS 2.0 SECS", 2.0),
        ("TIME IS 2.0 MINS", 120.0),
        ("TIME IS 2.0 HOURS", 7_200.0),
        ("COOLING TIME IS 2.0 DAYS", 172_800.0),
        ("COOLING TIME IS 2.0 WEEKS", 1_209_600.0),
        ("COOLING TIME IS 2.0 YEARS", 63_072_000.0),
    ] {
        let text = format!(
            "1 * * * TIME INTERVAL 1 * * * {tag}\n\
             \n  NUCLIDE ATOMS GRAMS Bq b a g DOSE ING INH CLEARANCE Bq/A2 HALF LIFE\n\
             \n kW kW kW Sv/hr DOSE(Sv) DOSE(Sv) INDEX Ratio seconds\n\
             \nFe 56 # 1.0 1.0 1.0 1.0 1.0 1.0 1.0 1.0 1.0 2.0 1.0 1.0\n"
        );
        let scan = parse_clearance(&text).unwrap();
        assert_eq!(scan.len(), 1, "tag `{tag}`");
        assert_eq!(scan[0].time_s, expected, "tag `{tag}`");
        assert_eq!(scan[0].clearance_index, 2.0, "tag `{tag}`");
    }
    let text = "1 * * * TIME INTERVAL 9 * * * COOLING TIME IS 3.0 DAYS\n\
                \n  NUCLIDE ATOMS GRAMS Bq b a g DOSE ING INH CLEARANCE Bq/A2 HALF LIFE\n\
                \n kW kW kW Sv/hr DOSE(Sv) DOSE(Sv) INDEX Ratio seconds\n\
                \nFe 56 # 1.0 1.0 1.0 1.0 1.0 1.0 1.0 1.0 1.0 2.0 1.0 1.0\n\
                \n0 TOTAL NUMBER OF NUCLIDES PRINTED IN INVENTORY = 1\n";
    let scan = parse_clearance(text).unwrap();
    assert_eq!(scan.len(), 1);
    assert_eq!(scan[0].time_s, 259_200.0);
    assert!(scan[0].cooling);
    assert_eq!(scan[0].interval, 9);
}

#[test]
fn rows_keep_flags_labels_and_stable_half_lives() {
    let text = "1 * * * TIME INTERVAL 2 * * * COOLING TIME IS 8.6400E+04 SECS OR 1.0000E+00 DAYS * * *\n\
                NUCLIDE ATOMS GRAMS Bq b a g DOSE ING INH CLEARANCE Bq/A2 HALF LIFE\n\
                kW kW kW Sv/hr DOSE(Sv) DOSE(Sv) INDEX Ratio seconds\n\
                V 55 #> 1.0 1.0 0.0 1.0 1.0 1.0 1.0 1.0 1.0 0.0 1.0 Stable\n\
                Rb 86m & 1.0 1.0 1.0 1.0 1.0 1.0 1.0 1.0 1.0 4.0E9 1.0 6.1E1\n\
                0 TOTAL NUMBER OF NUCLIDES PRINTED IN INVENTORY = 2\n\
                V 55 1.0 1.0 0.0 1.0 1.0 1.0 1.0 1.0 1.0 0.0 1.0 Stable\n";
    let scan = parse_clearance(text).unwrap();
    assert_eq!(scan.len(), 2);
    assert_eq!(scan[0].nuclide, "V-55");
    assert_eq!(scan[0].flags, "#>");
    assert_eq!(scan[0].half_life_s, -1.0);
    assert_eq!(scan[0].time_label, "COOLING TIME IS 8.6400E+04 SECS OR 1.0000E+00 DAYS");
    assert_eq!(scan[1].nuclide, "Rb-86m");
    assert_eq!(scan[1].flags, "&");
    assert_eq!(scan[1].clearance_index, 4.0e9);
    assert!(scan.iter().all(|r| r.cooling && r.interval == 2));
}

#[test]
fn line_predicates() {
    assert!(is_time_header("1 * * * TIME INTERVAL 1 * * *"));
    assert!(!is_time_header("TIME IS 1.0 SECS"));
    assert!(is_column_header("NUCLIDE ATOMS CLEARANCE HALF LIFE"));
    assert!(!is_column_header("ATOMS NUCLIDE CLEARANCE HALF LIFE"));
    assert!(looks_like_data_row("Co 60 > 1.0"));
    assert!(looks_like_data_row("Rb 86m 1.0"));
    assert!(!looks_like_data_row("Abc 60 1.0"));
    assert!(!looks_like_data_row("0 TOTAL NUMBER"));
    assert!(!looks_like_data_row("Co"));
    assert!(is_flags_token("#>"));
    assert!(is_flags_token("?&"));
    assert!(!is_flags_token(""));
    assert!(!is_flags_token("#x"));
    assert_eq!(time_unit_to_seconds(" Years "), Some(31_536_000));
    assert_eq!(time_unit_to_seconds("w"), Some(604_800));
    assert_eq!(time_unit_to_seconds("fortnights"), None);
    assert!(is_refused_line("1 TIME INTERVAL 1 TIME IS 1.0 SECS OR 2.0"));
    assert!(!is_refused_line("1 TIME INTERVAL 1 TIME IS 1.0 SECS OR 2.0 DAYS"));
}
