use nucleide::linalg::{check_pair, validate_system, DecayError, PairFacts, TridiagError};

#[test]
fn error_display_strings() {
    assert_eq!(
        TridiagError::Empty.to_string(),
        "tridiag: no unknowns supplied"
    );
    assert_eq!(
        TridiagError::SubLength {
            expected: 3,
            got: 1
        }
        .to_string(),
        "tridiag: sub-diagonal length 1 does not match 3 unknowns"
    );
    assert_eq!(
        TridiagError::SuperLength {
            expected: 3,
            got: 1
        }
        .to_string(),
        "tridiag: super-diagonal length 1 does not match 3 unknowns"
    );
    assert_eq!(
        TridiagError::RhsLength {
            expected: 3,
            got: 2
        }
        .to_string(),
        "tridiag: right-hand side length 2 does not match 3 unknowns"
    );
    assert_eq!(
        TridiagError::NonFinite("c").to_string(),
        "tridiag: non-finite value in `c`"
    );
    assert_eq!(
        TridiagError::ZeroPivot { stage: 1 }.to_string(),
        "tridiag: zero pivot at elimination stage 1"
    );
}

#[test]
fn system_checks_run_in_order() {
    let ok = [true; 4];
    assert_eq!(validate_system(2, 3, 2, 3, ok), Ok(()));
    assert_eq!(validate_system(0, 0, 0, 0, ok), Err(TridiagError::Empty));
    assert_eq!(
        validate_system(1, 3, 2, 3, ok),
        Err(TridiagError::SubLength { expected: 3, got: 1 })
    );
    assert_eq!(
        validate_system(2, 3, 1, 3, ok),
        Err(TridiagError::SuperLength { expected: 3, got: 1 })
    );
    assert_eq!(
        validate_system(2, 3, 2, 2, ok),
        Err(TridiagError::RhsLength { expected: 3, got: 2 })
    );
    assert_eq!(
        validate_system(2, 3, 2, 3, [true, false, false, true]),
        Err(TridiagError::NonFinite("b"))
    );
    assert_eq!(validate_system(0, 1, 0, 1, ok), Ok(()));
}

#[test]
fn decay_messages_and_checks() {
    assert_eq!(DecayError::Empty.to_string(), "decay perturbation input is empty");
    assert_eq!(
        DecayError::LengthMismatch { expected: 3, got: 2 }.to_string(),
        "decay perturbation length mismatch: expected 3, got 2"
    );
    assert_eq!(
        DecayError::NonFinite("rel").to_string(),
        "decay perturbation input `rel` holds a non-finite value"
    );
    assert_eq!(
        DecayError::NegativeBase { index: 10 }.to_string(),
        "decay nominal value at index 10 is negative"
    );
    assert_eq!(
        DecayError::Degenerate.to_string(),
        "decay branch renormalisation is degenerate (zero kept sum)"
    );
    let clean = PairFacts { base_finite: true, delta_finite: true, first_negative: None };
    assert_eq!(check_pair(2, 2, clean, "rel"), Ok(()));
    assert_eq!(check_pair(0, 0, clean, "rel"), Err(DecayError::Empty));
    assert_eq!(
        check_pair(2, 3, clean, "rel"),
        Err(DecayError::LengthMismatch { expected: 2, got: 3 })
    );
    let bad_delta = PairFacts { delta_finite: false, ..clean };
    assert_eq!(check_pair(2, 2, bad_delta, "delta"), Err(DecayError::NonFinite("delta")));
    let both = PairFacts { base_finite: false, delta_finite: false, first_negative: Some(0) };
    assert_eq!(check_pair(2, 2, both, "rel"), Err(DecayError::NonFinite("base")));
    let negative = PairFacts { first_negative: Some(1), ..clean };
    assert_eq!(check_pair(2, 2, negative, "rel"), Err(DecayError::NegativeBase { index: 1 }));
}
