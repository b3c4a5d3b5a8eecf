use nucleide::mcpl::gzip::{maybe_gunzip, maybe_gzip};

#[test]
fn gzip_stored_bytes_read_back() {
    let data: Vec<u8> = (0u8..200).chain(0u8..200).collect();
    let stored = maybe_gzip(true, &data).unwrap();
    assert_ne!(stored, data);
    assert_eq!(&stored[..2], &[0x1f, 0x8b]);
    assert_eq!(maybe_gunzip(true, stored).unwrap(), data);
}

#[test]
fn plain_paths_pass_bytes_through() {
    let data = b"MCPL003L".to_vec();
    assert_eq!(maybe_gzip(false, &data).unwrap(), data);
    assert_eq!(maybe_gunzip(false, data.clone()).unwrap(), data);
}

#[test]
fn corrupt_gzip_is_an_error() {
    assert!(maybe_gunzip(true, b"not gzip at all".to_vec()).is_err());
}
