use nucleide::mcpl::header::{Blob, Error, Field, Header, MergeField, MergeValue, Region};
use nucleide::mcpl::read::{read_header_finish, read_header_front};
use nucleide::mcpl::region::{
    check_extract_range, check_particle_region, extract_header, merge_headers, repair,
};
use nucleide::mcpl::stats::pdg_histogram;
use nucleide::mcpl::statsum::{statsum_validate, statsum_value_text, StatSumFault, StatSumValue};

/// How each comment's `stat:sum:` value reads as a double.
fn judge(comments: &[String]) -> Vec<StatSumValue> {
    comments
        .iter()
        .map(|c| match statsum_value_text(c) {
            Some(t) => match t.parse::<f64>() {
                Err(_) => StatSumValue::Undecodable,
                Ok(v) if !v.is_finite() => StatSumValue::NonFinite,
                Ok(v) if v >= 0.0 || v == -1.0 => StatSumValue::Accepted,
                Ok(_) => StatSumValue::Negative,
            },
            None => StatSumValue::Accepted,
        })
        .collect()
}

fn block(h: &Header) -> Result<Vec<u8>, Error> {
    h.header_block(&judge(&h.comments))
}

fn read(bytes: &[u8]) -> Result<(Header, usize), Error> {
    let front = read_header_front(bytes)?;
    let values = judge(&front.comments);
    read_header_finish(bytes, front, &values)
}

fn statsum(key: &str, value: &str) -> String {
    format!("stat:sum:{key}:{value:>24}")
}

fn rich_header() -> Header {
    Header {
        has_userflags: true,
        has_polarisation: true,
        double_prec: true,
        universal_pdgcode: Some(2112),
        universal_weight_bits: Some(2.5f64.to_bits()),
        srcname: "probe source".to_string(),
        comments: vec!["first comment".to_string(), statsum("nps", "1000")],
        blobs: vec![Blob { key: "cfg".to_string(), data: vec![1, 2, 3, 0, 255] }],
        nparticles: 7,
        ..Header::default()
    }
}

#[test]
fn header_block_reads_back_as_written() {
    for h in [Header::default(), rich_header()] {
        let bytes = block(&h).unwrap();
        let (back, len) = read(&bytes).unwrap();
        assert_eq!(len, bytes.len());
        assert_eq!(back, h);
        assert_eq!(&bytes[..8], b"MCPL003L");
    }
}

#[test]
fn default_header_layout() {
    let h = Header::default();
    assert_eq!(h.version, 3);
    assert_eq!(h.srcname, "unknown");
    assert_eq!(h.particle_size(), 4 * 7 + 4 + 4);
    assert_eq!(rich_header().particle_size(), 8 * 10 + 4);
    let bytes = block(&h).unwrap();
    // magic+version+endianness, particle count, eight option words, srcname.
    assert_eq!(bytes.len(), 8 + 8 + 32 + 4 + 7);
}

#[test]
fn rejects_bad_magic() {
    let mut bytes = block(&Header::default()).unwrap();
    bytes[0] = b'X';
    assert_eq!(read(&bytes).unwrap_err(), Error::BadMagic);
}

#[test]
fn rejects_big_endian() {
    let mut bytes = block(&Header::default()).unwrap();
    bytes[7] = b'B';
    assert_eq!(read(&bytes).unwrap_err(), Error::UnsupportedEndianness('B'));
}

#[test]
fn rejects_unknown_version() {
    let mut bytes = block(&Header::default()).unwrap();
    bytes[4] = b'0';
    bytes[5] = b'0';
    bytes[6] = b'9';
    assert_eq!(read(&bytes).unwrap_err(), Error::UnsupportedVersion(9));
}

#[test]
fn rejects_truncation() {
    let bytes = block(&rich_header()).unwrap();
    for cut in [0, 3, 20, bytes.len() / 2, bytes.len() - 1] {
        assert!(matches!(read(&bytes[..cut]), Err(Error::Truncated(_))), "cut at {cut}");
    }
}

#[test]
fn writer_rejects_bad_universal_weight() {
    for bits in [0u64, (-1.0f64).to_bits(), f64::INFINITY.to_bits(), f64::NAN.to_bits()] {
        let h = Header { universal_weight_bits: Some(bits), ..Header::default() };
        assert_eq!(block(&h).unwrap_err(), Error::BadUniversalWeight(bits));
    }
    let h = Header { universal_pdgcode: Some(0), ..Header::default() };
    assert_eq!(block(&h).unwrap_err(), Error::BadUniversalPdg);
}

#[test]
fn rejects_duplicate_statsum() {
    let h = Header {
        comments: vec![statsum("nps", "1"), statsum("nps", "2")],
        ..Header::default()
    };
    assert_eq!(
        block(&h).unwrap_err(),
        Error::DuplicateStatSum(1, "nps".to_string())
    );
    let h = Header {
        comments: vec![statsum("nps", "1"), statsum("aaa", "2")],
        ..Header::default()
    };
    let mut bytes = block(&h).unwrap();
    let needle = b"stat:sum:aaa:";
    let pos = bytes
        .windows(needle.len())
        .position(|w| w == needle)
        .expect("spliced key must occur");
    bytes[pos + 9..pos + 12].copy_from_slice(b"nps");
    assert!(matches!(read(&bytes).unwrap_err(), Error::DuplicateStatSum(1, _)));
}

#[test]
fn rejects_malformed_statsum() {
    for bad in [
        "stat:sum:nps=1".to_string(),
        "stat:sum:1nps:                       1".to_string(),
        "stat:sum:nps:1".to_string(),
        format!("stat:sum:nps:{}1x", " ".repeat(22)),
        format!("stat:sum:{}:{}", "k".repeat(65), " ".repeat(23) + "1"),
    ] {
        assert!(
            statsum_validate(&bad, StatSumValue::Accepted).is_err(),
            "accepted malformed comment: {bad:?}"
        );
    }
    assert_eq!(
        statsum_validate("stat:sum:nps=1", StatSumValue::Accepted),
        Err(StatSumFault::MissingColon)
    );
    assert_eq!(
        statsum_validate(&statsum("nps", "-2"), StatSumValue::Negative),
        Err(StatSumFault::NegativeValue)
    );
    assert_eq!(
        statsum_validate(&statsum("nps", "1"), StatSumValue::Accepted),
        Ok("nps".to_string())
    );
    let h = Header {
        comments: vec!["stat:sum:nps=1".to_string()],
        ..Header::default()
    };
    assert!(matches!(block(&h).unwrap_err(), Error::BadStatSum { .. }));
    let h = Header {
        comments: vec!["stat:future-thing".to_string()],
        ..Header::default()
    };
    let (back, _) = read(&block(&h).unwrap()).unwrap();
    assert_eq!(back.comments, vec!["stat:future-thing".to_string()]);
    assert_eq!(StatSumFault::EmptyKey.reason(), "empty key");
}

#[test]
fn statsum_value_text_is_the_trimmed_field() {
    assert_eq!(statsum_value_text(&statsum("nps", "1.5e3")), Some("1.5e3".to_string()));
    assert_eq!(statsum_value_text("stat:sum:nps:1"), None);
}

#[test]
fn rejects_duplicate_blob_keys() {
    let h = Header {
        blobs: vec![
            Blob { key: "k".to_string(), data: vec![1] },
            Blob { key: "k".to_string(), data: vec![2] },
        ],
        ..Header::default()
    };
    assert_eq!(block(&h).unwrap_err(), Error::DuplicateBlobKey("k".to_string()));
}

#[test]
fn rejects_nul_and_oversized_strings() {
    let h = Header { srcname: "a\0b".to_string(), ..Header::default() };
    assert_eq!(block(&h).unwrap_err(), Error::EmbeddedNul(Field::Srcname));
    let h = Header { comments: vec!["x".repeat(65535)], ..Header::default() };
    assert_eq!(
        block(&h).unwrap_err(),
        Error::Truncated(Region::StringLimit(Field::Comment(0)))
    );
}

#[test]
fn merge_requires_inputs_and_compatible_options() {
    assert_eq!(merge_headers(&vec![]).unwrap_err(), Error::EmptyMerge);
    let a = Header::default();
    let b = Header { has_polarisation: true, ..Header::default() };
    assert_eq!(
        merge_headers(&vec![a.clone(), a.clone(), b]).unwrap_err(),
        Error::IncompatibleOption {
            index: 2,
            field: MergeField::HasPolarisation,
            expected: MergeValue::Flag(false),
            found: MergeValue::Flag(true),
        }
    );
    let c = Header { double_prec: true, nparticles: 3, ..Header::default() };
    let merged = merge_headers(&vec![a.clone(), c]).unwrap();
    assert!(merged.double_prec);
    assert_eq!(merged.version, 3);
    assert_eq!(
        merged.comments,
        vec!["Merged by nucleide-mcpl-io merge_mcpl from 2 files".to_string()]
    );
}

#[test]
fn extract_range_out_of_bounds() {
    assert_eq!(check_extract_range(0, 5, 5), Ok(()));
    assert_eq!(check_extract_range(2, 2, 5), Ok(()));
    assert_eq!(
        check_extract_range(3, 2, 5),
        Err(Error::ExtractOutOfRange { start: 3, stop: 2, nparticles: 5 })
    );
    assert_eq!(
        check_extract_range(0, 6, 5),
        Err(Error::ExtractOutOfRange { start: 0, stop: 6, nparticles: 5 })
    );
    let h = Header { version: 2, ..rich_header() };
    let e = extract_header(&h);
    assert_eq!(e.version, 3);
    assert_eq!(e.comments, h.comments);
}

#[test]
fn particle_region_is_checked_exactly() {
    assert_eq!(check_particle_region(100 + 3 * 36, 100, 36, 3), Ok(()));
    assert_eq!(
        check_particle_region(100 + 2 * 36 + 5, 100, 36, 3),
        Err(Error::Truncated(Region::Particle { index: 2, count: 3 }))
    );
    assert_eq!(
        check_particle_region(100 + 3 * 36 + 1, 100, 36, 3),
        Err(Error::TrailingBytes { expected: 208, found: 209, particle: 3 })
    );
}

#[test]
fn repair_patches_count_and_drops_partial_record() {
    let h = Header { nparticles: 0, ..Header::default() };
    let head = block(&h).unwrap();
    let size = h.particle_size();
    let mut bytes = head.clone();
    bytes.extend(std::iter::repeat(7u8).take(2 * size + 5));
    let fixed = repair(&bytes, head.len(), size);
    assert_eq!(fixed.len(), head.len() + 2 * size);
    assert_eq!(u64::from_le_bytes(fixed[8..16].try_into().unwrap()), 2);
    assert_eq!(repair(&fixed, head.len(), size), fixed);
    let (back, _) = read(&fixed).unwrap();
    assert_eq!(back.nparticles, 2);
}

#[test]
fn pdg_histogram_counts_sorted_codes() {
    assert_eq!(pdg_histogram(&vec![]), vec![]);
    assert_eq!(
        pdg_histogram(&vec![2112, 22, 2112, -11, 22, 2112]),
        vec![(-11, 1), (22, 2), (2112, 3)]
    );
}

#[test]
fn rejects_size_mismatch_and_bad_utf8() {
    let mut bytes = block(&Header::default()).unwrap();
    bytes[40..44].copy_from_slice(&99u32.to_le_bytes());
    assert_eq!(
        read(&bytes).unwrap_err(),
        Error::ParticleSizeMismatch { expected: 36, found: 99 }
    );
    let mut bytes = block(&Header::default()).unwrap();
    assert_eq!(&bytes[52..59], b"unknown");
    bytes[52] = 0xff;
    assert_eq!(read(&bytes).unwrap_err(), Error::InvalidUtf8(Field::Srcname));
    let mut bytes = block(&Header::default()).unwrap();
    bytes[53] = 0;
    assert_eq!(read(&bytes).unwrap_err(), Error::EmbeddedNul(Field::Srcname));
}

#[test]
fn merge_refusal_names_both_values() {
    let a = Header { universal_pdgcode: Some(2112), ..Header::default() };
    let b = Header::default();
    assert_eq!(
        merge_headers(&vec![a, b]).unwrap_err(),
        Error::IncompatibleOption {
            index: 1,
            field: MergeField::UniversalPdgcode,
            expected: MergeValue::Code(Some(2112)),
            found: MergeValue::Code(None),
        }
    );
}

#[test]
fn particle_region_holds_exactly_the_declared_records() {
    assert_eq!(check_particle_region(100 + 2 * 36, 100, 36, 2), Ok(()));
    assert!(matches!(check_particle_region(100 + 36 + 18, 100, 36, 2), Err(Error::Truncated(Region::Particle { index: 1, count: 2 }))));
    assert!(matches!(check_particle_region(100 + 2 * 36, 100, 36, 1), Err(Error::TrailingBytes { .. })));
}
