use nucleide::sweep::{check_axes, check_axis, sweep_indices, Error};

#[test]
fn axis_rejects_bad_inputs() {
    assert_eq!(
        check_axis("", 1, true),
        Err(Error::Invalid("sweep axis names an empty parameter".to_string()))
    );
    assert_eq!(
        check_axis("x", 0, true),
        Err(Error::Invalid("sweep axis `x` has no values".to_string()))
    );
    assert_eq!(
        check_axis("x", 1, false),
        Err(Error::Invalid("sweep axis `x` has non-finite values".to_string()))
    );
    assert_eq!(check_axis(" x ", 2, true), Ok(()));
}

#[test]
fn expansion_is_deterministic_cartesian() {
    let cases = sweep_indices(&vec![2, 3]);
    assert_eq!(
        cases,
        vec![
            vec![0, 0],
            vec![0, 1],
            vec![0, 2],
            vec![1, 0],
            vec![1, 1],
            vec![1, 2]
        ]
    );
    assert_eq!(sweep_indices(&vec![2, 3]), cases);
    assert_eq!(sweep_indices(&vec![]), vec![Vec::<usize>::new()]);
    assert!(sweep_indices(&vec![4, 0, 2]).is_empty());
    assert_eq!(sweep_indices(&vec![2, 2, 2]).len(), 8);
}

#[test]
fn duplicate_axes_rejected() {
    let names = vec!["x".to_string(), "x".to_string()];
    assert_eq!(
        check_axes(&names, &vec![1, 1], &vec![true, true]),
        Err(Error::Invalid("duplicate sweep axis `x`".to_string()))
    );
    let names = vec!["flux_scale".to_string(), "cooling_s".to_string()];
    assert_eq!(check_axes(&names, &vec![2, 3], &vec![true, true]), Ok(()));
    assert_eq!(
        check_axes(&names, &vec![2, 0], &vec![true, true]),
        Err(Error::Invalid("sweep axis `cooling_s` has no (finite) values".to_string()))
    );
}
