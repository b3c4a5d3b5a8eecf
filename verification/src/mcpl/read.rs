//! Reading the MCPL header block back from bytes.

use vstd::prelude::*;
use vstd::bytes::{spec_u32_from_le_bytes, spec_u64_from_le_bytes, u32_from_le_bytes, u64_from_le_bytes};
use vstd::utf8::{valid_utf8, decode_utf8};
use vstd::slice::{slice_subrange, slice_to_vec};
use crate::mcpl::statsum::StatSumValue;
use crate::mcpl::header::{
    Error, ErrorView, Field, Region, Header, HeaderView, Blob, BlobView, record_size, weight_bits_ok,
    weight_ok, statsum_check, validate_statsum_comments,
};

verus! {

/// The fixed 48-byte prefix of a header block, decoded.
#[derive(Debug, Clone, Copy, PartialEq, Eq, Structural)]
pub struct Fixed {
    pub version: u16,
    pub nparticles: u64,
    pub ncomments: u32,
    pub nblobs: u32,
    pub has_userflags: bool,
    pub has_polarisation: bool,
    pub double_prec: bool,
    pub pdg_raw: u32,
    pub stored_size: u32,
    pub has_uweight: bool,
}

/// Little-endian `u32` at byte offset `p`.
pub open spec fn u32_at(d: Seq<u8>, p: int) -> u32 {
    spec_u32_from_le_bytes(d.subrange(p, p + 4))
}

/// Little-endian `u64` at byte offset `p`.
pub open spec fn u64_at(d: Seq<u8>, p: int) -> u64 {
    spec_u64_from_le_bytes(d.subrange(p, p + 8))
}

/// Name of option word `k` (0-based) after the particle count.
pub open spec fn option_region(k: int) -> Region {
    if k == 0 {
        Region::NComments
    } else if k == 1 {
        Region::NBlobs
    } else if k == 2 {
        Region::HasUserflags
    } else if k == 3 {
        Region::HasPolarisation
    } else if k == 4 {
        Region::SinglePrec
    } else if k == 5 {
        Region::UniversalPdgcode
    } else if k == 6 {
        Region::ParticleSize
    } else {
        Region::HasUniversalWeight
    }
}

/// The three-digit version number at bytes 4..7.
pub open spec fn version_digits(d: Seq<u8>) -> u16 {
    ((d[4] - 48) * 100 + (d[5] - 48) * 10 + (d[6] - 48)) as u16
}

/// The record size implied by the flags of the fixed prefix.
pub open spec fn implied_size(f: Fixed) -> nat {
    record_size(f.double_prec, f.has_polarisation, f.pdg_raw as i32 == 0, !f.has_uweight, f.has_userflags)
}

/// Decode the fixed prefix: magic, version, endianness, particle count and
/// the eight option words, then cross-check the stored record size.
pub open spec fn spec_fixed(d: Seq<u8>) -> Result<Fixed, ErrorView> {
    if d.len() < 4 {
        Err(ErrorView::Truncated(Region::Magic))
    } else if !(d[0] == 77 && d[1] == 67 && d[2] == 80 && d[3] == 76) {
        Err(ErrorView::BadMagic)
    } else if d.len() < 7 {
        Err(ErrorView::Truncated(Region::Version))
    } else if !(48 <= d[4] <= 57 && 48 <= d[5] <= 57 && 48 <= d[6] <= 57) {
        Err(ErrorView::BadMagic)
    } else if !(version_digits(d) == 2 || version_digits(d) == 3) {
        Err(ErrorView::UnsupportedVersion(version_digits(d)))
    } else if d.len() < 8 {
        Err(ErrorView::Truncated(Region::Endianness))
    } else if d[7] == 66 {
        Err(ErrorView::UnsupportedEndianness('B'))
    } else if d[7] != 76 {
        Err(ErrorView::BadMagic)
    } else if d.len() < 16 {
        Err(ErrorView::Truncated(Region::NParticles))
    } else if d.len() < 48 {
        Err(ErrorView::Truncated(option_region((d.len() - 16) / 4)))
    } else {
        let f = Fixed {
            version: version_digits(d),
            nparticles: u64_at(d, 8),
            ncomments: u32_at(d, 16),
            nblobs: u32_at(d, 20),
            has_userflags: u32_at(d, 24) != 0,
            has_polarisation: u32_at(d, 28) != 0,
            double_prec: u32_at(d, 32) == 0,
            pdg_raw: u32_at(d, 36),
            stored_size: u32_at(d, 40),
            has_uweight: u32_at(d, 44) != 0,
        };
        if implied_size(f) != f.stored_size as nat {
            Err(ErrorView::ParticleSizeMismatch { expected: implied_size(f) as usize, found: f.stored_size as usize })
        } else {
            Ok(f)
        }
    }
}

/// The universal weight (when flagged) and the offset after it.
pub open spec fn spec_weight(d: Seq<u8>, f: Fixed) -> Result<(Option<u64>, int), ErrorView> {
    if !f.has_uweight {
        Ok((None, 48))
    } else if d.len() < 56 {
        Err(ErrorView::Truncated(Region::UniversalWeight))
    } else if !weight_bits_ok(u64_at(d, 48)) {
        Err(ErrorView::BadUniversalWeight(u64_at(d, 48)))
    } else {
        Ok((Some(u64_at(d, 48)), 56))
    }
}

/// One length-prefixed string at offset `p`: NUL-free UTF-8.
pub open spec fn spec_str(d: Seq<u8>, p: int, f: Field) -> Result<(Seq<char>, int), ErrorView> {
    if p + 4 > d.len() {
        Err(ErrorView::Truncated(Region::Field(f)))
    } else if p + 4 + u32_at(d, p) > d.len() {
        Err(ErrorView::Truncated(Region::Field(f)))
    } else {
        let raw = d.subrange(p + 4, p + 4 + u32_at(d, p));
        if raw.contains(0u8) {
            Err(ErrorView::EmbeddedNul(f))
        } else if !valid_utf8(raw) {
            Err(ErrorView::InvalidUtf8(f))
        } else {
            Ok((decode_utf8(raw), p + 4 + u32_at(d, p)))
        }
    }
}

pub open spec fn read_field(is_comment: bool, i: int) -> Field {
    if is_comment {
        Field::Comment(i as usize)
    } else {
        Field::BlobKey(i as usize)
    }
}

/// `n` consecutive length-prefixed strings from offset `p`.
pub open spec fn spec_strs(d: Seq<u8>, p: int, n: nat, is_comment: bool) -> Result<(Seq<Seq<char>>, int), ErrorView>
    decreases n,
{
    if n == 0 {
        Ok((seq![], p))
    } else {
        match spec_strs(d, p, (n - 1) as nat, is_comment) {
            Err(e) => Err(e),
            Ok((v, q)) => match spec_str(d, q, read_field(is_comment, n - 1)) {
                Err(e) => Err(e),
                Ok((s, r)) => Ok((v.push(s), r)),
            },
        }
    }
}

/// `n` consecutive length-prefixed blob payloads from offset `p`, paired
/// with `keys`.
pub open spec fn spec_blobs(d: Seq<u8>, p: int, keys: Seq<Seq<char>>, n: nat) -> Result<(Seq<BlobView>, int), ErrorView>
    decreases n,
{
    if n == 0 {
        Ok((seq![], p))
    } else {
        match spec_blobs(d, p, keys, (n - 1) as nat) {
            Err(e) => Err(e),
            Ok((v, q)) => if q + 4 > d.len() {
                Err(ErrorView::Truncated(Region::BlobLength((n - 1) as usize)))
            } else if q + 4 + u32_at(d, q) > d.len() {
                Err(ErrorView::Truncated(Region::BlobData((n - 1) as usize)))
            } else {
                Ok((
                    v.push(BlobView { key: keys[n - 1], data: d.subrange(q + 4, q + 4 + u32_at(d, q)) }),
                    q + 4 + u32_at(d, q),
                ))
            },
        }
    }
}

/// Everything up to and including the comments.
pub struct FrontView {
    pub fixed: Fixed,
    pub universal_weight_bits: Option<u64>,
    pub srcname: Seq<char>,
    pub comments: Seq<Seq<char>>,
    pub pos: int,
}

/// Decode the header block up to and including its comments.
pub open spec fn spec_front(d: Seq<u8>) -> Result<FrontView, ErrorView> {
    match spec_fixed(d) {
        Err(e) => Err(e),
        Ok(f) => match spec_weight(d, f) {
            Err(e) => Err(e),
            Ok((w, p)) => match spec_str(d, p, Field::Srcname) {
                Err(e) => Err(e),
                Ok((src, p2)) => match spec_strs(d, p2, f.ncomments as nat, true) {
                    Err(e) => Err(e),
                    Ok((cs, p3)) => Ok(FrontView {
                        fixed: f,
                        universal_weight_bits: w,
                        srcname: src,
                        comments: cs,
                        pos: p3,
                    }),
                },
            },
        },
    }
}

/// The header described by a decoded front and blob list.
pub open spec fn header_of(fr: FrontView, bs: Seq<BlobView>) -> HeaderView {
    HeaderView {
        version: fr.fixed.version,
        has_userflags: fr.fixed.has_userflags,
        has_polarisation: fr.fixed.has_polarisation,
        double_prec: fr.fixed.double_prec,
        universal_pdgcode: if fr.fixed.pdg_raw as i32 == 0 { None } else { Some(fr.fixed.pdg_raw as i32) },
        universal_weight_bits: fr.universal_weight_bits,
        srcname: fr.srcname,
        comments: fr.comments,
        blobs: bs,
        nparticles: fr.fixed.nparticles,
    }
}

/// Finish decoding after the comments: validate `stat:sum:` comments
/// (`vs[i]` is how comment `i`'s value field reads as a double), then read
/// the blob keys and payloads. Yields the header and its byte length.
pub open spec fn spec_back(d: Seq<u8>, fr: FrontView, vs: Seq<StatSumValue>) -> Result<(HeaderView, int), ErrorView> {
    match statsum_check(fr.comments, vs) {
        Err(e) => Err(e),
        Ok(()) => match spec_strs(d, fr.pos, fr.fixed.nblobs as nat, false) {
            Err(e) => Err(e),
            Ok((keys, p)) => match spec_blobs(d, p, keys, fr.fixed.nblobs as nat) {
                Err(e) => Err(e),
                Ok((bs, q)) => Ok((header_of(fr, bs), q)),
            },
        },
    }
}

/// The whole header block read from `d`.
pub open spec fn spec_read_header(d: Seq<u8>, vs: Seq<StatSumValue>) -> Result<(HeaderView, int), ErrorView> {
    match spec_front(d) {
        Err(e) => Err(e),
        Ok(fr) => spec_back(d, fr, vs),
    }
}

fn read_u32(d: &[u8], p: usize) -> (x: u32)
    requires
        p + 4 <= d@.len(),
    ensures
        x == u32_at(d@, p as int),
{
    let n = d.len();
    assert(p + 4 <= n);
    u32_from_le_bytes(slice_subrange(d, p, p + 4))
}

fn read_u64(d: &[u8], p: usize) -> (x: u64)
    requires
        p + 8 <= d@.len(),
    ensures
        x == u64_at(d@, p as int),
{
    let n = d.len();
    assert(p + 8 <= n);
    u64_from_le_bytes(slice_subrange(d, p, p + 8))
}

fn region_of_option(k: usize) -> (r: Region)
    ensures
        r == option_region(k as int),
{
    if k == 0 {
        Region::NComments
    } else if k == 1 {
        Region::NBlobs
    } else if k == 2 {
        Region::HasUserflags
    } else if k == 3 {
        Region::HasPolarisation
    } else if k == 4 {
        Region::SinglePrec
    } else if k == 5 {
        Region::UniversalPdgcode
    } else if k == 6 {
        Region::ParticleSize
    } else {
        Region::HasUniversalWeight
    }
}

/// Decode the fixed 48-byte prefix.
pub fn read_fixed(d: &[u8]) -> (r: Result<Fixed, Error>)
    ensures
        match (r, spec_fixed(d@)) {
            (Ok(a), Ok(b)) => a == b,
            (Err(e), Err(ev)) => e@ == ev,
            _ => false,
        },
{
    let n = d.len();
    if n < 4 {
        return Err(Error::Truncated(Region::Magic));
    }
    if !(d[0] == 77 && d[1] == 67 && d[2] == 80 && d[3] == 76) {
        return Err(Error::BadMagic);
    }
    if n < 7 {
        return Err(Error::Truncated(Region::Version));
    }
    if !(48 <= d[4] && d[4] <= 57 && 48 <= d[5] && d[5] <= 57 && 48 <= d[6] && d[6] <= 57) {
        return Err(Error::BadMagic);
    }
    let version: u16 = ((d[4] - 48) as u16) * 100 + ((d[5] - 48) as u16) * 10 + ((d[6] - 48) as u16);
    assert(version == version_digits(d@));
    if !(version == 2 || version == 3) {
        return Err(Error::UnsupportedVersion(version));
    }
    if n < 8 {
        return Err(Error::Truncated(Region::Endianness));
    }
    if d[7] == 66 {
        return Err(Error::UnsupportedEndianness('B'));
    }
    if d[7] != 76 {
        return Err(Error::BadMagic);
    }
    if n < 16 {
        return Err(Error::Truncated(Region::NParticles));
    }
    if n < 48 {
        return Err(Error::Truncated(region_of_option((n - 16) / 4)));
    }
    let f = Fixed {
        version,
        nparticles: read_u64(d, 8),
        ncomments: read_u32(d, 16),
        nblobs: read_u32(d, 20),
        has_userflags: read_u32(d, 24) != 0,
        has_polarisation: read_u32(d, 28) != 0,
        double_prec: read_u32(d, 32) == 0,
        pdg_raw: read_u32(d, 36),
        stored_size: read_u32(d, 40),
        has_uweight: read_u32(d, 44) != 0,
    };
    let probe = Header {
        version: f.version,
        has_userflags: f.has_userflags,
        has_polarisation: f.has_polarisation,
        double_prec: f.double_prec,
        universal_pdgcode: if f.pdg_raw as i32 == 0 { None } else { Some(f.pdg_raw as i32) },
        universal_weight_bits: if f.has_uweight { Some(0u64) } else { None },
        srcname: String::new(),
        comments: Vec::new(),
        blobs: Vec::new(),
        nparticles: f.nparticles,
    };
    let implied = probe.particle_size();
    assert(implied == implied_size(f));
    if implied != f.stored_size as usize {
        return Err(Error::ParticleSizeMismatch { expected: implied, found: f.stored_size as usize });
    }
    Ok(f)
}

/// Is `b` free of NUL bytes?
fn has_zero(b: &[u8]) -> (r: bool)
    ensures
        r == b@.contains(0u8),
{
    let mut i: usize = 0;
    while i < b.len()
        invariant
            i <= b@.len(),
            forall|j: int| 0 <= j < i ==> b@[j] != 0u8,
        decreases b.len() - i,
    {
        if b[i] == 0 {
            assert(b@[i as int] == 0u8);
            return true;
        }
        i = i + 1;
    }
    false
}

/// `String::from_utf8`: the bytes as a string when they are valid UTF-8.
#[verifier::external_body]
fn string_from_utf8(v: Vec<u8>) -> (r: Option<String>)
    ensures
        r is Some <==> valid_utf8(v@),
        r matches Some(s) ==> s@ == decode_utf8(v@),
{
    String::from_utf8(v).ok()
}

/// Read one length-prefixed string at offset `p`.
pub fn read_str(d: &[u8], p: usize, f: Field) -> (r: Result<(String, usize), Error>)
    requires
        p <= d@.len(),
    ensures
        match (r, spec_str(d@, p as int, f)) {
            (Ok((s, q)), Ok((ss, qq))) => s@ == ss && q as int == qq && q <= d@.len(),
            (Err(e), Err(ev)) => e@ == ev,
            _ => false,
        },
{
    let n = d.len();
    if n - p < 4 {
        return Err(Error::Truncated(Region::Field(f)));
    }
    let len = read_u32(d, p) as usize;
    if n - p - 4 < len {
        return Err(Error::Truncated(Region::Field(f)));
    }
    let raw = slice_subrange(d, p + 4, p + 4 + len);
    if has_zero(raw) {
        return Err(Error::EmbeddedNul(f));
    }
    match string_from_utf8(slice_to_vec(raw)) {
        None => Err(Error::InvalidUtf8(f)),
        Some(s) => Ok((s, p + 4 + len)),
    }
}

proof fn lemma_strs_len(d: Seq<u8>, p: int, n: nat, is_comment: bool)
    requires
        spec_strs(d, p, n, is_comment) is Ok,
    ensures
        spec_strs(d, p, n, is_comment)->Ok_0.0.len() == n,
    decreases n,
{
    if n > 0 {
        lemma_strs_len(d, p, (n - 1) as nat, is_comment);
    }
}

proof fn lemma_strs_settles(d: Seq<u8>, p: int, n: nat, m: nat, is_comment: bool)
    requires
        n <= m,
        spec_strs(d, p, n, is_comment) is Err,
    ensures
        spec_strs(d, p, m, is_comment) == spec_strs(d, p, n, is_comment),
    decreases m - n,
{
    if n < m {
        lemma_strs_settles(d, p, n, (m - 1) as nat, is_comment);
    }
}

fn field_for(is_comment: bool, i: usize) -> (f: Field)
    ensures
        f == read_field(is_comment, i as int),
{
    if is_comment {
        Field::Comment(i)
    } else {
        Field::BlobKey(i)
    }
}

/// Read `count` consecutive length-prefixed strings from offset `p`.
pub fn read_strs(d: &[u8], p: usize, count: u32, is_comment: bool) -> (r: Result<(Vec<String>, usize), Error>)
    requires
        p <= d@.len(),
    ensures
        match (r, spec_strs(d@, p as int, count as nat, is_comment)) {
            (Ok((v, q)), Ok((vs, qq))) => v@.map_values(|s: String| s@) == vs && q as int == qq && q <= d@.len(),
            (Err(e), Err(ev)) => e@ == ev,
            _ => false,
        },
{
    let mut out: Vec<String> = Vec::new();
    let mut pos = p;
    let mut i: u32 = 0;
    assert(out@.map_values(|s: String| s@) =~= Seq::<Seq<char>>::empty());
    while i < count
        invariant
            i <= count,
            pos <= d@.len(),
            spec_strs(d@, p as int, i as nat, is_comment) == Ok::<(Seq<Seq<char>>, int), ErrorView>(
                (out@.map_values(|s: String| s@), pos as int),
            ),
        decreases count - i,
    {
        match read_str(d, pos, field_for(is_comment, i as usize)) {
            Err(e) => {
                proof {
                    lemma_strs_settles(d@, p as int, (i + 1) as nat, count as nat, is_comment);
                }
                return Err(e);
            },
            Ok((s, q)) => {
                let ghost before = out@;
                out.push(s);
                assert(out@.map_values(|s: String| s@) =~= before.map_values(|s: String| s@).push(s@));
                pos = q;
            },
        }
        i = i + 1;
    }
    Ok((out, pos))
}

proof fn lemma_blobs_settles(d: Seq<u8>, p: int, keys: Seq<Seq<char>>, n: nat, m: nat)
    requires
        n <= m,
        spec_blobs(d, p, keys, n) is Err,
    ensures
        spec_blobs(d, p, keys, m) == spec_blobs(d, p, keys, n),
    decreases m - n,
{
    if n < m {
        lemma_blobs_settles(d, p, keys, n, (m - 1) as nat);
    }
}

/// Read `keys.len()` blob payloads from offset `p`.
fn read_blobs(d: &[u8], p: usize, keys: Vec<String>) -> (r: Result<(Vec<Blob>, usize), Error>)
    requires
        p <= d@.len(),
        keys@.len() <= u32::MAX,
    ensures
        match (r, spec_blobs(d@, p as int, keys@.map_values(|s: String| s@), keys@.len())) {
            (Ok((v, q)), Ok((vs, qq))) => v@.map_values(|b: Blob| b@) == vs && q as int == qq,
            (Err(e), Err(ev)) => e@ == ev,
            _ => false,
        },
{
    let ghost ks = keys@.map_values(|s: String| s@);
    let count = keys.len();
    let mut out: Vec<Blob> = Vec::new();
    let mut pos = p;
    assert(out@.map_values(|b: Blob| b@) =~= Seq::<BlobView>::empty());
    let mut i: usize = 0;
    while i < count
        invariant
            i <= count,
            count == ks.len(),
            ks == keys@.map_values(|s: String| s@),
            pos <= d@.len(),
            keys@.len() == count,
            forall|j: int| i <= j < count ==> #[trigger] keys@[j]@ == ks[j],
            spec_blobs(d@, p as int, ks, i as nat) == Ok::<(Seq<BlobView>, int), ErrorView>(
                (out@.map_values(|b: Blob| b@), pos as int),
            ),
        decreases count - i,
    {
        let n = d.len();
        if n - pos < 4 {
            proof {
                lemma_blobs_settles(d@, p as int, ks, (i + 1) as nat, count as nat);
            }
            return Err(Error::Truncated(Region::BlobLength(i)));
        }
        let len = read_u32(d, pos) as usize;
        if n - pos - 4 < len {
            proof {
                lemma_blobs_settles(d@, p as int, ks, (i + 1) as nat, count as nat);
            }
            return Err(Error::Truncated(Region::BlobData(i)));
        }
        let data = slice_to_vec(slice_subrange(d, pos + 4, pos + 4 + len));
        let key = keys[i].clone();
        assert(key@ == ks[i as int]);
        let ghost before = out@;
        out.push(Blob { key, data });
        assert(out@.map_values(|b: Blob| b@) =~= before.map_values(|b: Blob| b@).push(
            BlobView { key: ks[i as int], data: d@.subrange(pos + 4, pos + 4 + len) },
        ));
        pos = pos + 4 + len;
        i = i + 1;
    }
    Ok((out, pos))
}

/// The header block decoded up to and including its comments.
pub struct HeaderFront {
    pub fixed: Fixed,
    pub universal_weight_bits: Option<u64>,
    pub srcname: String,
    pub comments: Vec<String>,
    pub pos: usize,
}

impl View for HeaderFront {
    type V = FrontView;

    open spec fn view(&self) -> FrontView {
        FrontView {
            fixed: self.fixed,
            universal_weight_bits: self.universal_weight_bits,
            srcname: self.srcname@,
            comments: self.comments@.map_values(|s: String| s@),
            pos: self.pos as int,
        }
    }
}

/// Decode the header block of `d` up to and including its comments; the
/// comments' `stat:sum:` values are judged before [`read_header_finish`].
pub fn read_header_front(d: &[u8]) -> (r: Result<HeaderFront, Error>)
    ensures
        match (r, spec_front(d@)) {
            (Ok(a), Ok(b)) => a@ == b && a.pos <= d@.len(),
            (Err(e), Err(ev)) => e@ == ev,
            _ => false,
        },
{
    let f = match read_fixed(d) {
        Err(e) => {
            return Err(e);
        },
        Ok(f) => f,
    };
    let (w, p): (Option<u64>, usize) = if !f.has_uweight {
        (None, 48)
    } else if d.len() < 56 {
        return Err(Error::Truncated(Region::UniversalWeight));
    } else {
        let w = read_u64(d, 48);
        if !weight_ok(w) {
            return Err(Error::BadUniversalWeight(w));
        }
        (Some(w), 56)
    };
    let (srcname, p2) = match read_str(d, p, Field::Srcname) {
        Err(e) => {
            return Err(e);
        },
        Ok(x) => x,
    };
    let (comments, p3) = match read_strs(d, p2, f.ncomments, true) {
        Err(e) => {
            return Err(e);
        },
        Ok(x) => x,
    };
    Ok(HeaderFront { fixed: f, universal_weight_bits: w, srcname, comments, pos: p3 })
}

/// Finish decoding a header block whose front was read by
/// [`read_header_front`]: validate the `stat:sum:` comments (`values[i]` is
/// how comment `i`'s value field reads as a double), then read the blob
/// keys and payloads. Returns the header and the header block's length.
pub fn read_header_finish(d: &[u8], front: HeaderFront, values: &[StatSumValue]) -> (r: Result<(Header, usize), Error>)
    requires
        spec_front(d@) is Ok,
        spec_front(d@)->Ok_0 == front@,
        front.pos <= d@.len(),
        values@.len() == front.comments@.len(),
    ensures
        match (r, spec_back(d@, front@, values@)) {
            (Ok((h, n)), Ok((hv, nn))) => h@ == hv && n as int == nn,
            (Err(e), Err(ev)) => e@ == ev,
            _ => false,
        },
{
    let ghost fr = front@;
    match validate_statsum_comments(&front.comments, values) {
        Err(e) => {
            return Err(e);
        },
        Ok(()) => {},
    }
    let (keys, p) = match read_strs(d, front.pos, front.fixed.nblobs, false) {
        Err(e) => {
            return Err(e);
        },
        Ok(x) => x,
    };
    proof {
        lemma_strs_len(d@, fr.pos, fr.fixed.nblobs as nat, false);
        assert(keys@.len() == keys@.map_values(|s: String| s@).len());
    }
    let (blobs, q) = match read_blobs(d, p, keys) {
        Err(e) => {
            return Err(e);
        },
        Ok(x) => x,
    };
    let f = front.fixed;
    let h = Header {
        version: f.version,
        has_userflags: f.has_userflags,
        has_polarisation: f.has_polarisation,
        double_prec: f.double_prec,
        universal_pdgcode: if f.pdg_raw as i32 == 0 { None } else { Some(f.pdg_raw as i32) },
        universal_weight_bits: front.universal_weight_bits,
        srcname: front.srcname,
        comments: front.comments,
        blobs,
        nparticles: f.nparticles,
    };
    assert(h@ == header_of(fr, blobs@.map_values(|b: Blob| b@)));
    Ok((h, q))
}

} // verus!
