//! The MCPL header block: data model, byte layout, and validation on write.

use vstd::prelude::*;
use vstd::bytes::{spec_u32_to_le_bytes, spec_u64_to_le_bytes, u32_to_le_bytes, u64_to_le_bytes};
use vstd::utf8::encode_utf8;
use vstd::string::*;
use crate::mcpl::statsum::{
    StatSumFault, StatSumValue, statsum_outcome, statsum_prefix, bytes_as_chars, ascii_string,
    has_statsum_prefix, statsum_key, bytes_eq,
};

verus! {

/// Format version written by this crate.
pub const FORMAT_VERSION_WRITE: u16 = 3;

/// Lowest format version readable by this crate.
pub const FORMAT_VERSION_MIN: u16 = 2;

/// Which length-prefixed string field a message is about.
#[derive(Debug, Clone, Copy, PartialEq, Eq, Structural)]
pub enum Field {
    /// The source-name string.
    Srcname,
    /// Header comment number `i` (0-based).
    Comment(usize),
    /// Blob key number `i` (0-based), as read.
    BlobKey(usize),
    /// A blob key being written.
    BlobKeyWrite,
}

/// The byte region a truncation or size error is about.
#[derive(Debug, Clone, Copy, PartialEq, Eq, Structural)]
pub enum Region {
    Magic,
    Version,
    Endianness,
    NParticles,
    NComments,
    NBlobs,
    HasUserflags,
    HasPolarisation,
    SinglePrec,
    UniversalPdgcode,
    ParticleSize,
    HasUniversalWeight,
    UniversalWeight,
    /// A length-prefixed string field.
    Field(Field),
    /// The length word of blob `i`.
    BlobLength(usize),
    /// The data of blob `i`.
    BlobData(usize),
    /// A string longer than the 65534-byte header string limit.
    StringLimit(Field),
    /// A blob longer than a `u32` length word can hold.
    BlobTooLarge,
    /// The particle region stops inside record `index` of `count`.
    Particle { index: usize, count: usize },
    /// The particle region does not fit the address space.
    AddressSpace,
}

/// Header option on which two merged files disagree.
#[derive(Debug, Clone, Copy, PartialEq, Eq, Structural)]
pub enum MergeField {
    HasUserflags,
    HasPolarisation,
    UniversalPdgcode,
    UniversalWeight,
}

/// The value a header carries for one merge option.
#[derive(Debug, Clone, Copy, PartialEq, Eq, Structural)]
pub enum MergeValue {
    /// User flags or polarisation present.
    Flag(bool),
    /// The file-wide PDG code, if any.
    Code(Option<i32>),
    /// The file-wide weight's IEEE-754 bits, if any.
    WeightBits(Option<u64>),
}

/// Errors raised while reading or writing an MCPL header block.
#[derive(Debug, Clone, PartialEq)]
pub enum Error {
    /// First four bytes are not the `MCPL` magic (or the version digits or
    /// endianness byte are malformed).
    BadMagic,
    /// Three-digit format version is not 2 or 3.
    UnsupportedVersion(u16),
    /// Big-endian files are detected but not supported.
    UnsupportedEndianness(char),
    /// The byte stream ends inside the named region.
    Truncated(Region),
    /// A length-prefixed string field holds bytes that are not UTF-8.
    InvalidUtf8(Field),
    /// A length-prefixed string field contains a NUL byte.
    EmbeddedNul(Field),
    /// Stored `particle_size` disagrees with the size implied by the flags.
    ParticleSizeMismatch { expected: usize, found: usize },
    /// Bytes remain after the declared particle records.
    TrailingBytes { expected: usize, found: usize, particle: u64 },
    /// A file-wide weight must be positive and finite (IEEE-754 bits).
    BadUniversalWeight(u64),
    /// A file-wide PDG code must be non-zero.
    BadUniversalPdg,
    /// A `stat:sum:` comment breaks the upstream syntax.
    BadStatSum { index: usize, reason: StatSumFault },
    /// Two header blobs share a key.
    DuplicateBlobKey(String),
    /// Two `stat:sum:` comments carry the same key.
    DuplicateStatSum(usize, String),
    /// A merge was asked for without any input.
    EmptyMerge,
    /// Merge input `index` disagrees with the first input on `field`: the
    /// first input carries `expected`, input `index` carries `found`.
    IncompatibleOption { index: usize, field: MergeField, expected: MergeValue, found: MergeValue },
    /// An extraction range is inverted or extends past the particle count.
    ExtractOutOfRange { start: usize, stop: usize, nparticles: u64 },
}

/// Mathematical form of [`Error`]: strings as character sequences.
pub enum ErrorView {
    BadMagic,
    UnsupportedVersion(u16),
    UnsupportedEndianness(char),
    Truncated(Region),
    InvalidUtf8(Field),
    EmbeddedNul(Field),
    ParticleSizeMismatch { expected: usize, found: usize },
    TrailingBytes { expected: usize, found: usize, particle: u64 },
    BadUniversalWeight(u64),
    BadUniversalPdg,
    BadStatSum { index: usize, reason: StatSumFault },
    DuplicateBlobKey(Seq<char>),
    DuplicateStatSum(usize, Seq<char>),
    EmptyMerge,
    IncompatibleOption { index: usize, field: MergeField, expected: MergeValue, found: MergeValue },
    ExtractOutOfRange { start: usize, stop: usize, nparticles: u64 },
}

impl View for Error {
    type V = ErrorView;

    open spec fn view(&self) -> ErrorView {
        match self {
            Error::BadMagic => ErrorView::BadMagic,
            Error::UnsupportedVersion(v) => ErrorView::UnsupportedVersion(*v),
            Error::UnsupportedEndianness(c) => ErrorView::UnsupportedEndianness(*c),
            Error::Truncated(r) => ErrorView::Truncated(*r),
            Error::InvalidUtf8(f) => ErrorView::InvalidUtf8(*f),
            Error::EmbeddedNul(f) => ErrorView::EmbeddedNul(*f),
            Error::ParticleSizeMismatch { expected, found } => ErrorView::ParticleSizeMismatch {
                expected: *expected,
                found: *found,
            },
            Error::TrailingBytes { expected, found, particle } => ErrorView::TrailingBytes {
                expected: *expected,
                found: *found,
                particle: *particle,
            },
            Error::BadUniversalWeight(w) => ErrorView::BadUniversalWeight(*w),
            Error::BadUniversalPdg => ErrorView::BadUniversalPdg,
            Error::BadStatSum { index, reason } => ErrorView::BadStatSum {
                index: *index,
                reason: *reason,
            },
            Error::DuplicateBlobKey(k) => ErrorView::DuplicateBlobKey(k@),
            Error::DuplicateStatSum(i, k) => ErrorView::DuplicateStatSum(*i, k@),
            Error::EmptyMerge => ErrorView::EmptyMerge,
            Error::IncompatibleOption { index, field, expected, found } => ErrorView::IncompatibleOption {
                index: *index,
                field: *field,
                expected: *expected,
                found: *found,
            },
            Error::ExtractOutOfRange { start, stop, nparticles } => ErrorView::ExtractOutOfRange {
                start: *start,
                stop: *stop,
                nparticles: *nparticles,
            },
        }
    }
}

/// A named binary blob from the file header.
#[derive(Debug, Clone, PartialEq)]
pub struct Blob {
    /// Blob key string.
    pub key: String,
    /// Raw blob bytes.
    pub data: Vec<u8>,
}

/// Mathematical form of a [`Blob`].
pub struct BlobView {
    pub key: Seq<char>,
    pub data: Seq<u8>,
}

impl View for Blob {
    type V = BlobView;

    open spec fn view(&self) -> BlobView {
        BlobView { key: self.key@, data: self.data@ }
    }
}

/// Parsed MCPL header block.
///
/// `universal_weight_bits` holds the IEEE-754 binary64 bit pattern of the
/// file-wide weight (little-endian on disk), exactly as stored.
#[derive(Debug, Clone, PartialEq)]
pub struct Header {
    /// Format version: 2 or 3 on read; writers always emit 3.
    pub version: u16,
    /// Whether per-particle user flags are stored.
    pub has_userflags: bool,
    /// Whether per-particle polarisation vectors are stored.
    pub has_polarisation: bool,
    /// `false` = single precision, `true` = double precision.
    pub double_prec: bool,
    /// `None` = per-particle PDG codes; `Some(v)` = file-wide code.
    pub universal_pdgcode: Option<i32>,
    /// `None` = per-particle weights; `Some(bits)` = file-wide weight.
    pub universal_weight_bits: Option<u64>,
    /// Source-name string.
    pub srcname: String,
    /// Header comment strings (kept verbatim).
    pub comments: Vec<String>,
    /// Header binary blobs.
    pub blobs: Vec<Blob>,
    /// Stored particle count on read; the writer's record count on write.
    pub nparticles: u64,
}

/// Mathematical form of a [`Header`].
pub struct HeaderView {
    pub version: u16,
    pub has_userflags: bool,
    pub has_polarisation: bool,
    pub double_prec: bool,
    pub universal_pdgcode: Option<i32>,
    pub universal_weight_bits: Option<u64>,
    pub srcname: Seq<char>,
    pub comments: Seq<Seq<char>>,
    pub blobs: Seq<BlobView>,
    pub nparticles: u64,
}

impl View for Header {
    type V = HeaderView;

    open spec fn view(&self) -> HeaderView {
        HeaderView {
            version: self.version,
            has_userflags: self.has_userflags,
            has_polarisation: self.has_polarisation,
            double_prec: self.double_prec,
            universal_pdgcode: self.universal_pdgcode,
            universal_weight_bits: self.universal_weight_bits,
            srcname: self.srcname@,
            comments: self.comments@.map_values(|c: String| c@),
            blobs: self.blobs@.map_values(|b: Blob| b@),
            nparticles: self.nparticles,
        }
    }
}

/// Byte size of one particle record implied by the option flags.
pub open spec fn record_size(
    double_prec: bool,
    has_polarisation: bool,
    per_particle_pdg: bool,
    per_particle_weight: bool,
    has_userflags: bool,
) -> nat {
    let fp: nat = if double_prec { 8 } else { 4 };
    7 * fp + (if has_polarisation { 3 * fp } else { 0 }) + (if per_particle_pdg { 4nat } else { 0nat })
        + (if per_particle_weight { fp } else { 0 }) + (if has_userflags { 4nat } else { 0nat })
}

impl HeaderView {
    pub open spec fn particle_size(self) -> nat {
        record_size(
            self.double_prec,
            self.has_polarisation,
            self.universal_pdgcode is None,
            self.universal_weight_bits is None,
            self.has_userflags,
        )
    }
}

/// A positive, finite binary64 bit pattern.
pub open spec fn weight_bits_ok(w: u64) -> bool {
    &&& (w >> 52u64) & 0x7ffu64 != 0x7ffu64
    &&& w >> 63u64 == 0
    &&& w != 0
}

pub fn weight_ok(w: u64) -> (r: bool)
    ensures
        r == weight_bits_ok(w),
{
    (w >> 52u64) & 0x7ffu64 != 0x7ffu64 && w >> 63u64 == 0 && w != 0
}

impl Header {
    /// Byte size of one particle record implied by the option flags.
    pub fn particle_size(&self) -> (n: usize)
        ensures
            n == self@.particle_size(),
    {
        let fp: usize = if self.double_prec { 8 } else { 4 };
        let mut n: usize = 7 * fp;
        if self.has_polarisation {
            n = n + 3 * fp;
        }
        if self.universal_pdgcode.is_none() {
            n = n + 4;
        }
        if self.universal_weight_bits.is_none() {
            n = n + fp;
        }
        if self.has_userflags {
            n = n + 4;
        }
        n
    }
}

// ── Byte layout ────────────────────────────────────────────────────

/// The `MCPL` magic bytes.
pub open spec fn magic() -> Seq<u8> {
    seq![77u8, 67u8, 80u8, 76u8]
}

pub open spec fn enc_u32(x: u32) -> Seq<u8> {
    spec_u32_to_le_bytes(x)
}

pub open spec fn enc_u64(x: u64) -> Seq<u8> {
    spec_u64_to_le_bytes(x)
}

/// A length-prefixed string: `u32` byte count, then the UTF-8 bytes.
pub open spec fn enc_str(s: Seq<char>) -> Seq<u8> {
    enc_u32(encode_utf8(s).len() as u32) + encode_utf8(s)
}

/// Consecutive length-prefixed strings.
pub open spec fn enc_strs(ss: Seq<Seq<char>>) -> Seq<u8>
    decreases ss.len(),
{
    if ss.len() == 0 {
        seq![]
    } else {
        enc_strs(ss.drop_last()) + enc_str(ss.last())
    }
}

/// Consecutive length-prefixed blob payloads.
pub open spec fn enc_blob_data(bs: Seq<BlobView>) -> Seq<u8>
    decreases bs.len(),
{
    if bs.len() == 0 {
        seq![]
    } else {
        enc_blob_data(bs.drop_last()) + enc_u32(bs.last().data.len() as u32) + bs.last().data
    }
}

pub open spec fn blob_keys(bs: Seq<BlobView>) -> Seq<Seq<char>> {
    bs.map_values(|b: BlobView| b.key)
}

/// Consecutive little-endian `u32` words.
pub open spec fn enc_u32s(xs: Seq<u32>) -> Seq<u8>
    decreases xs.len(),
{
    if xs.len() == 0 {
        seq![]
    } else {
        enc_u32s(xs.drop_last()) + enc_u32(xs.last())
    }
}

pub open spec fn flag(b: bool) -> u32 {
    if b { 1 } else { 0 }
}

/// The eight option words written after the particle count.
pub open spec fn option_words(h: HeaderView) -> Seq<u32> {
    seq![
        h.comments.len() as u32,
        h.blobs.len() as u32,
        flag(h.has_userflags),
        flag(h.has_polarisation),
        flag(!h.double_prec),
        (match h.universal_pdgcode { Some(p) => p, None => 0i32 }) as u32,
        h.particle_size() as u32,
        flag(h.universal_weight_bits is Some),
    ]
}

/// The header block written for `h`: magic, version `003`, `L`, particle
/// count, option words, optional universal weight, source name, comments,
/// blob keys, and blob payloads.
pub open spec fn header_bytes(h: HeaderView) -> Seq<u8> {
    magic() + seq![48u8, 48u8, 51u8, 76u8] + enc_u64(h.nparticles) + enc_u32s(option_words(h))
        + (match h.universal_weight_bits { Some(w) => enc_u64(w), None => Seq::<u8>::empty() })
        + enc_str(h.srcname) + enc_strs(h.comments) + enc_strs(blob_keys(h.blobs)) + enc_blob_data(h.blobs)
}

// ── Validation on write ────────────────────────────────────────────

/// `b` starts with `stat:sum:`.
pub open spec fn is_statsum(b: Seq<u8>) -> bool {
    b.len() >= 9 && b.subrange(0, 9) == statsum_prefix()
}

/// Scan of the first `n` comments for `stat:sum:` syntax and duplicate keys,
/// in order; on success, the keys seen so far.
pub open spec fn statsum_scan(cs: Seq<Seq<char>>, vs: Seq<StatSumValue>, n: nat) -> Result<Seq<Seq<u8>>, ErrorView>
    decreases n,
{
    if n == 0 {
        Ok(seq![])
    } else {
        match statsum_scan(cs, vs, (n - 1) as nat) {
            Err(e) => Err(e),
            Ok(seen) => {
                let b = encode_utf8(cs[n - 1]);
                if !is_statsum(b) {
                    Ok(seen)
                } else {
                    match statsum_outcome(b, vs[n - 1]) {
                        Err(f) => Err(ErrorView::BadStatSum { index: (n - 1) as usize, reason: f }),
                        Ok(k) => if seen.contains(k) {
                            Err(ErrorView::DuplicateStatSum((n - 1) as usize, bytes_as_chars(k)))
                        } else {
                            Ok(seen.push(k))
                        },
                    }
                }
            },
        }
    }
}

/// All `stat:sum:` comments are valid and their keys distinct.
pub open spec fn statsum_check(cs: Seq<Seq<char>>, vs: Seq<StatSumValue>) -> Result<(), ErrorView> {
    match statsum_scan(cs, vs, cs.len()) {
        Ok(_) => Ok(()),
        Err(e) => Err(e),
    }
}

/// The first key (in order) that repeats an earlier one.
pub open spec fn first_duplicate(keys: Seq<Seq<char>>) -> Option<Seq<char>>
    decreases keys.len(),
{
    if keys.len() == 0 {
        None
    } else {
        match first_duplicate(keys.drop_last()) {
            Some(k) => Some(k),
            None => if keys.drop_last().contains(keys.last()) {
                Some(keys.last())
            } else {
                None
            },
        }
    }
}

/// Why a string cannot be written as a header string field.
pub open spec fn str_fault(s: Seq<char>, f: Field) -> Option<ErrorView> {
    let b = encode_utf8(s);
    if b.contains(0u8) {
        Some(ErrorView::EmbeddedNul(f))
    } else if b.len() > 65534 {
        Some(ErrorView::Truncated(Region::StringLimit(f)))
    } else {
        None
    }
}

pub open spec fn list_field(is_comment: bool, i: int) -> Field {
    if is_comment {
        Field::Comment(i as usize)
    } else {
        Field::BlobKeyWrite
    }
}

/// First fault among the first `n` strings of a list, in order.
pub open spec fn strs_fault(ss: Seq<Seq<char>>, is_comment: bool, n: nat) -> Option<ErrorView>
    decreases n,
{
    if n == 0 {
        None
    } else {
        match strs_fault(ss, is_comment, (n - 1) as nat) {
            Some(e) => Some(e),
            None => str_fault(ss[n - 1], list_field(is_comment, n - 1)),
        }
    }
}

/// Some blob among the first `n` is too large for a `u32` length word.
pub open spec fn blob_too_large(bs: Seq<BlobView>, n: nat) -> bool {
    exists|i: int| 0 <= i < n && #[trigger] bs[i].data.len() > u32::MAX
}

/// The first validation fault of `h` on write: universal weight, universal
/// PDG code, `stat:sum:` comments, then duplicate blob keys.
pub open spec fn write_fault(h: HeaderView, vs: Seq<StatSumValue>) -> Option<ErrorView> {
    if h.universal_weight_bits is Some && !weight_bits_ok(h.universal_weight_bits->0) {
        Some(ErrorView::BadUniversalWeight(h.universal_weight_bits->0))
    } else if h.universal_pdgcode == Some(0i32) {
        Some(ErrorView::BadUniversalPdg)
    } else if statsum_check(h.comments, vs) is Err {
        Some(statsum_check(h.comments, vs)->Err_0)
    } else if first_duplicate(blob_keys(h.blobs)) is Some {
        Some(ErrorView::DuplicateBlobKey(first_duplicate(blob_keys(h.blobs))->0))
    } else {
        None
    }
}

/// The first encoding fault of `h`: source name, comments, blob keys, then
/// oversized blobs.
pub open spec fn encode_fault(h: HeaderView) -> Option<ErrorView> {
    if str_fault(h.srcname, Field::Srcname) is Some {
        str_fault(h.srcname, Field::Srcname)
    } else if strs_fault(h.comments, true, h.comments.len()) is Some {
        strs_fault(h.comments, true, h.comments.len())
    } else if strs_fault(blob_keys(h.blobs), false, h.blobs.len()) is Some {
        strs_fault(blob_keys(h.blobs), false, h.blobs.len())
    } else if blob_too_large(h.blobs, h.blobs.len()) {
        Some(ErrorView::Truncated(Region::BlobTooLarge))
    } else {
        None
    }
}

/// Result of writing the header block of `h`, given how the value fields of
/// its comments read as doubles.
pub open spec fn spec_header_block(h: HeaderView, vs: Seq<StatSumValue>) -> Result<Seq<u8>, ErrorView> {
    if write_fault(h, vs) is Some {
        Err(write_fault(h, vs)->0)
    } else if encode_fault(h) is Some {
        Err(encode_fault(h)->0)
    } else {
        Ok(header_bytes(h))
    }
}

// ── Writing ────────────────────────────────────────────────────────

proof fn lemma_statsum_scan_step(cs: Seq<Seq<char>>, vs: Seq<StatSumValue>, n: nat)
    requires
        n < cs.len(),
    ensures
        statsum_scan(cs, vs, n + 1) == (match statsum_scan(cs, vs, n) {
            Err(e) => Err(e),
            Ok(seen) => {
                let b = encode_utf8(cs[n as int]);
                if !is_statsum(b) {
                    Ok(seen)
                } else {
                    match statsum_outcome(b, vs[n as int]) {
                        Err(f) => Err(ErrorView::BadStatSum { index: n as usize, reason: f }),
                        Ok(k) => if seen.contains(k) {
                            Err(ErrorView::DuplicateStatSum(n as usize, bytes_as_chars(k)))
                        } else {
                            Ok(seen.push(k))
                        },
                    }
                }
            },
        }),
{
}

/// `k` occurs among the byte strings of `seen`.
fn seen_contains(seen: &Vec<Vec<u8>>, k: &Vec<u8>) -> (r: bool)
    ensures
        r == seen@.map_values(|q: Vec<u8>| q@).contains(k@),
{
    let ghost sv = seen@.map_values(|q: Vec<u8>| q@);
    let mut j: usize = 0;
    while j < seen.len()
        invariant
            j <= seen@.len(),
            sv == seen@.map_values(|q: Vec<u8>| q@),
            forall|t: int| 0 <= t < j ==> seen@[t]@ != k@,
        decreases seen.len() - j,
    {
        if bytes_eq(seen[j].as_slice(), k.as_slice()) {
            assert(sv[j as int] == k@);
            return true;
        }
        j = j + 1;
    }
    proof {
        if sv.contains(k@) {
            let t = choose|t: int| 0 <= t < sv.len() && sv[t] == k@;
            assert(seen@[t]@ == k@);
        }
    }
    false
}

/// Once the scan fails on a prefix, it fails the same way on the whole list.
proof fn lemma_statsum_scan_settles(cs: Seq<Seq<char>>, vs: Seq<StatSumValue>, n: nat)
    requires
        n <= cs.len(),
        statsum_scan(cs, vs, n) is Err,
    ensures
        statsum_scan(cs, vs, cs.len()) == statsum_scan(cs, vs, n),
    decreases cs.len() - n,
{
    if n < cs.len() {
        lemma_statsum_scan_step(cs, vs, n);
        lemma_statsum_scan_settles(cs, vs, n + 1);
    }
}

/// Validate every `stat:sum:` comment (syntax, with `values[i]` saying how
/// the value field of comment `i` reads as a double) and reject duplicated
/// keys, in comment order.
pub fn validate_statsum_comments(comments: &Vec<String>, values: &[StatSumValue]) -> (r: Result<(), Error>)
    requires
        values@.len() == comments@.len(),
    ensures
        match (r, statsum_check(comments@.map_values(|c: String| c@), values@)) {
            (Ok(()), Ok(())) => true,
            (Err(e), Err(ev)) => e@ == ev,
            _ => false,
        },
{
    let ghost cs = comments@.map_values(|c: String| c@);
    let mut seen: Vec<Vec<u8>> = Vec::new();
    let mut i: usize = 0;
    while i < comments.len()
        invariant
            i <= comments@.len(),
            values@.len() == comments@.len(),
            cs == comments@.map_values(|c: String| c@),
            statsum_scan(cs, values@, i as nat) is Ok,
            statsum_scan(cs, values@, i as nat)->Ok_0 == seen@.map_values(|k: Vec<u8>| k@),
        decreases comments.len() - i,
    {
        proof {
            lemma_statsum_scan_step(cs, values@, i as nat);
        }
        let b = comments[i].as_str().as_bytes();
        assert(b@ == encode_utf8(cs[i as int]));
        if has_statsum_prefix(b) {
            match statsum_key(b, values[i]) {
                Err(f) => {
                    proof {
                        lemma_statsum_scan_settles(cs, values@, (i + 1) as nat);
                    }
                    return Err(Error::BadStatSum { index: i, reason: f });
                },
                Ok(k) => {
                    if seen_contains(&seen, &k) {
                        let name = ascii_string(&k);
                        proof {
                            lemma_statsum_scan_settles(cs, values@, (i + 1) as nat);
                        }
                        return Err(Error::DuplicateStatSum(i, name));
                    }
                    let ghost old_seen = seen@;
                    seen.push(k);
                    assert(seen@.map_values(|q: Vec<u8>| q@) =~= old_seen.map_values(|q: Vec<u8>| q@).push(k@));
                },
            }
        }
        i = i + 1;
    }
    Ok(())
}

proof fn lemma_first_duplicate_step(keys: Seq<Seq<char>>, n: int)
    requires
        0 <= n < keys.len(),
    ensures
        first_duplicate(keys.subrange(0, n + 1)) == (match first_duplicate(keys.subrange(0, n)) {
            Some(k) => Some(k),
            None => if keys.subrange(0, n).contains(keys[n]) {
                Some(keys[n])
            } else {
                None
            },
        }),
{
    let p = keys.subrange(0, n + 1);
    assert(p.drop_last() =~= keys.subrange(0, n));
}

/// Blob `j`'s key equals the key of an earlier blob.
fn key_repeats(blobs: &Vec<Blob>, j: usize) -> (r: bool)
    requires
        j < blobs@.len(),
    ensures
        r == blob_keys(blobs@.map_values(|b: Blob| b@)).subrange(0, j as int).contains(
            blobs@[j as int].key@,
        ),
{
    let ghost keys = blob_keys(blobs@.map_values(|b: Blob| b@));
    let ghost pre = keys.subrange(0, j as int);
    let mut i: usize = 0;
    while i < j
        invariant
            i <= j < blobs@.len(),
            keys == blob_keys(blobs@.map_values(|b: Blob| b@)),
            pre == keys.subrange(0, j as int),
            forall|t: int| 0 <= t < i ==> pre[t] != blobs@[j as int].key@,
        decreases j - i,
    {
        if blobs[i].key == blobs[j].key {
            assert(pre[i as int] == blobs@[j as int].key@);
            return true;
        }
        i = i + 1;
    }
    proof {
        if pre.contains(blobs@[j as int].key@) {
            let t = choose|t: int| 0 <= t < pre.len() && pre[t] == blobs@[j as int].key@;
            assert(pre[t] != blobs@[j as int].key@);
        }
    }
    false
}

/// The first blob key that repeats an earlier one.
fn first_duplicate_key(blobs: &Vec<Blob>) -> (r: Option<usize>)
    ensures
        match (r, first_duplicate(blob_keys(blobs@.map_values(|b: Blob| b@)))) {
            (Some(j), Some(k)) => j < blobs@.len() && blobs@[j as int].key@ == k,
            (None, None) => true,
            _ => false,
        },
{
    let ghost keys = blob_keys(blobs@.map_values(|b: Blob| b@));
    let mut j: usize = 0;
    assert(keys.subrange(0, 0) =~= Seq::<Seq<char>>::empty());
    while j < blobs.len()
        invariant
            j <= blobs@.len(),
            keys == blob_keys(blobs@.map_values(|b: Blob| b@)),
            keys.len() == blobs@.len(),
            first_duplicate(keys.subrange(0, j as int)) is None,
        decreases blobs.len() - j,
    {
        assert(keys[j as int] == blobs@[j as int].key@);
        proof {
            lemma_first_duplicate_step(keys, j as int);
        }
        if key_repeats(blobs, j) {
            proof {
                lemma_first_duplicate_step(keys, j as int);
                assert(keys.subrange(0, blobs@.len() as int) =~= keys);
                lemma_first_duplicate_prefix(keys, (j + 1) as int);
            }
            return Some(j);
        }
        j = j + 1;
    }
    assert(keys.subrange(0, blobs@.len() as int) =~= keys);
    None
}

/// Once a prefix has a duplicate, every longer prefix reports the same one.
proof fn lemma_first_duplicate_prefix(keys: Seq<Seq<char>>, n: int)
    requires
        0 <= n <= keys.len(),
        first_duplicate(keys.subrange(0, n)) is Some,
    ensures
        first_duplicate(keys) == first_duplicate(keys.subrange(0, n)),
    decreases keys.len() - n,
{
    if n == keys.len() {
        assert(keys.subrange(0, n) =~= keys);
    } else {
        lemma_first_duplicate_step(keys, n);
        lemma_first_duplicate_prefix(keys, n + 1);
    }
}

fn contains_zero(b: &[u8]) -> (r: bool)
    ensures
        r == b@.contains(0u8),
{
    let mut i: usize = 0;
    while i < b.len()
        invariant
            i <= b@.len(),
            forall|j: int| 0 <= j < i ==> b@[j] != 0u8,
        decreases b.len() - i,
    {
        if b[i] == 0 {
            assert(b@[i as int] == 0u8);
            return true;
        }
        i = i + 1;
    }
    false
}

/// Append one length-prefixed header string, refusing NUL bytes and
/// strings longer than 65534 bytes.
pub fn put_string(out: &mut Vec<u8>, s: &str, field: Field) -> (r: Result<(), Error>)
    ensures
        match str_fault(s@, field) {
            Some(e) => r is Err && r->Err_0@ == e && final(out)@ == old(out)@,
            None => r is Ok && final(out)@ == old(out)@ + enc_str(s@),
        },
{
    let b = s.as_bytes();
    if contains_zero(b) {
        return Err(Error::EmbeddedNul(field));
    }
    if b.len() > 65534 {
        return Err(Error::Truncated(Region::StringLimit(field)));
    }
    let len = u32_to_le_bytes(b.len() as u32);
    out.extend_from_slice(len.as_slice());
    out.extend_from_slice(b);
    Ok(())
}

proof fn lemma_enc_strs_step(ss: Seq<Seq<char>>, n: int)
    requires
        0 <= n < ss.len(),
    ensures
        enc_strs(ss.subrange(0, n + 1)) == enc_strs(ss.subrange(0, n)) + enc_str(ss[n]),
{
    assert(ss.subrange(0, n + 1).drop_last() =~= ss.subrange(0, n));
}

proof fn lemma_enc_blob_data_step(bs: Seq<BlobView>, n: int)
    requires
        0 <= n < bs.len(),
    ensures
        enc_blob_data(bs.subrange(0, n + 1)) == enc_blob_data(bs.subrange(0, n)) + enc_u32(
            bs[n].data.len() as u32,
        ) + bs[n].data,
{
    assert(bs.subrange(0, n + 1).drop_last() =~= bs.subrange(0, n));
}

proof fn lemma_strs_fault_step(ss: Seq<Seq<char>>, is_comment: bool, n: nat)
    ensures
        strs_fault(ss, is_comment, n + 1) == (match strs_fault(ss, is_comment, n) {
            Some(e) => Some(e),
            None => str_fault(ss[n as int], list_field(is_comment, n as int)),
        }),
{
}

proof fn lemma_enc_u32s_step(xs: Seq<u32>, n: int)
    requires
        0 <= n < xs.len(),
    ensures
        enc_u32s(xs.subrange(0, n + 1)) == enc_u32s(xs.subrange(0, n)) + enc_u32(xs[n]),
{
    assert(xs.subrange(0, n + 1).drop_last() =~= xs.subrange(0, n));
}

impl Header {
    /// Serialize the header block (everything up to the first particle),
    /// after validating it: a positive finite universal weight, a non-zero
    /// universal PDG code, well-formed and distinct `stat:sum:` comments
    /// (`values[i]` says how the value field of comment `i` reads as a
    /// double), distinct blob keys, NUL-free strings of at most 65534 bytes,
    /// and blobs whose length fits a `u32`. The version written is always 3.
    pub fn header_block(&self, values: &[StatSumValue]) -> (r: Result<Vec<u8>, Error>)
        requires
            values@.len() == self.comments@.len(),
        ensures
            match (r, spec_header_block(self@, values@)) {
                (Ok(b), Ok(s)) => b@ == s,
                (Err(e), Err(ev)) => e@ == ev,
                _ => false,
            },
    {
        if let Some(w) = self.universal_weight_bits {
            if !weight_ok(w) {
                return Err(Error::BadUniversalWeight(w));
            }
        }
        if let Some(p) = self.universal_pdgcode {
            if p == 0 {
                return Err(Error::BadUniversalPdg);
            }
        }
        match validate_statsum_comments(&self.comments, values) {
            Err(e) => {
                return Err(e);
            },
            Ok(()) => {},
        }
        match first_duplicate_key(&self.blobs) {
            Some(j) => {
                let k = self.blobs[j].key.clone();
                return Err(Error::DuplicateBlobKey(k));
            },
            None => {},
        }
        self.encode_block()
    }

    /// Encode the header block of a header that passed write validation.
    #[verifier::rlimit(100)]
    #[verifier::spinoff_prover]
    fn encode_block(&self) -> (r: Result<Vec<u8>, Error>)
        ensures
            match encode_fault(self@) {
                Some(e) => r is Err && r->Err_0@ == e,
                None => r is Ok && r->Ok_0@ == header_bytes(self@),
            },
    {
        let ghost h = self@;
        let mut out: Vec<u8> = Vec::new();
        out.push(77u8);
        out.push(67u8);
        out.push(80u8);
        out.push(76u8);
        out.push(48u8);
        out.push(48u8);
        out.push(51u8);
        out.push(76u8);
        let np = u64_to_le_bytes(self.nparticles);
        out.extend_from_slice(np.as_slice());
        let pdg: i32 = match self.universal_pdgcode {
            Some(p) => p,
            None => 0i32,
        };
        let words: [u32; 8] = [
            self.comments.len() as u32,
            self.blobs.len() as u32,
            if self.has_userflags { 1u32 } else { 0u32 },
            if self.has_polarisation { 1u32 } else { 0u32 },
            if !self.double_prec { 1u32 } else { 0u32 },
            pdg as u32,
            self.particle_size() as u32,
            if self.universal_weight_bits.is_some() { 1u32 } else { 0u32 },
        ];
        assert(words@ =~= option_words(h));
        let ghost base = out@;
        assert(words@.subrange(0, 0) =~= Seq::<u32>::empty());
        let mut i: usize = 0;
        while i < 8
            invariant
                i <= 8,
                words@.len() == 8,
                out@ == base + enc_u32s(words@.subrange(0, i as int)),
            decreases 8 - i,
        {
            proof {
                lemma_enc_u32s_step(words@, i as int);
            }
            let wb = u32_to_le_bytes(words[i]);
            out.extend_from_slice(wb.as_slice());
            i = i + 1;
        }
        assert(words@.subrange(0, 8) =~= words@);
        if let Some(w) = self.universal_weight_bits {
            let wb = u64_to_le_bytes(w);
            out.extend_from_slice(wb.as_slice());
        }
        let ghost pre_strings = out@;
        match put_string(&mut out, self.srcname.as_str(), Field::Srcname) {
            Err(e) => {
                return Err(e);
            },
            Ok(()) => {},
        }
        let ghost cs = h.comments;
        let ghost after_src = out@;
        assert(cs.subrange(0, 0) =~= Seq::<Seq<char>>::empty());
        let mut i: usize = 0;
        while i < self.comments.len()
            invariant
                i <= self.comments@.len(),
                cs == self@.comments,
                h == self@,
                cs.len() == self.comments@.len(),
                out@ == after_src + enc_strs(cs.subrange(0, i as int)),
                strs_fault(cs, true, i as nat) is None,
                str_fault(h.srcname, Field::Srcname) is None,
            decreases self.comments.len() - i,
        {
            proof {
                lemma_enc_strs_step(cs, i as int);
                lemma_strs_fault_step(cs, true, i as nat);
            }
            match put_string(&mut out, self.comments[i].as_str(), Field::Comment(i)) {
                Err(e) => {
                    proof {
                        lemma_strs_fault_settles(cs, true, (i + 1) as nat);
                    }
                    return Err(e);
                },
                Ok(()) => {},
            }
            i = i + 1;
        }
        assert(cs.subrange(0, cs.len() as int) =~= cs);
        let ghost keys = blob_keys(h.blobs);
        let ghost after_comments = out@;
        assert(keys.subrange(0, 0) =~= Seq::<Seq<char>>::empty());
        let mut j: usize = 0;
        while j < self.blobs.len()
            invariant
                j <= self.blobs@.len(),
                h == self@,
                keys == blob_keys(h.blobs),
                keys.len() == self.blobs@.len(),
                out@ == after_comments + enc_strs(keys.subrange(0, j as int)),
                strs_fault(keys, false, j as nat) is None,
                str_fault(h.srcname, Field::Srcname) is None,
                strs_fault(h.comments, true, h.comments.len()) is None,
            decreases self.blobs.len() - j,
        {
            proof {
                lemma_enc_strs_step(keys, j as int);
                lemma_strs_fault_step(keys, false, j as nat);
            }
            match put_string(&mut out, self.blobs[j].key.as_str(), Field::BlobKeyWrite) {
                Err(e) => {
                    proof {
                        lemma_strs_fault_settles(keys, false, (j + 1) as nat);
                    }
                    return Err(e);
                },
                Ok(()) => {},
            }
            j = j + 1;
        }
        assert(keys.subrange(0, keys.len() as int) =~= keys);
        let ghost bs = h.blobs;
        let ghost after_keys = out@;
        assert(bs.subrange(0, 0) =~= Seq::<BlobView>::empty());
        let mut j: usize = 0;
        while j < self.blobs.len()
            invariant
                j <= self.blobs@.len(),
                h == self@,
                bs == h.blobs,
                bs.len() == self.blobs@.len(),
                out@ == after_keys + enc_blob_data(bs.subrange(0, j as int)),
                !blob_too_large(bs, j as nat),
                str_fault(h.srcname, Field::Srcname) is None,
                strs_fault(h.comments, true, h.comments.len()) is None,
                strs_fault(blob_keys(h.blobs), false, h.blobs.len()) is None,
            decreases self.blobs.len() - j,
        {
            proof {
                lemma_enc_blob_data_step(bs, j as int);
            }
            let n = self.blobs[j].data.len();
            if n > 0xffff_ffffusize {
                assert(bs[j as int].data.len() > u32::MAX);
                assert(blob_too_large(bs, bs.len()));
                return Err(Error::Truncated(Region::BlobTooLarge));
            }
            let lb = u32_to_le_bytes(n as u32);
            out.extend_from_slice(lb.as_slice());
            out.extend_from_slice(self.blobs[j].data.as_slice());
            proof {
                assert forall|t: int| 0 <= t < j + 1 implies !(#[trigger] bs[t].data.len() > u32::MAX) by {
                    if t < j {
                        assert(!(bs[t].data.len() > u32::MAX));
                    }
                }
            }
            j = j + 1;
        }
        assert(bs.subrange(0, bs.len() as int) =~= bs);
        Ok(out)
    }
}

/// Once a fault is found in a prefix, the whole-list fault is that one.
proof fn lemma_strs_fault_settles(ss: Seq<Seq<char>>, is_comment: bool, n: nat)
    requires
        n <= ss.len(),
        strs_fault(ss, is_comment, n) is Some,
    ensures
        strs_fault(ss, is_comment, ss.len()) == strs_fault(ss, is_comment, n),
    decreases ss.len() - n,
{
    if n < ss.len() {
        lemma_strs_fault_step(ss, is_comment, n);
        lemma_strs_fault_settles(ss, is_comment, n + 1);
    }
}

} // verus!
