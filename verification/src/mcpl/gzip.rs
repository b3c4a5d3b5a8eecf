//! Gzip transport of whole MCPL files (`.gz` paths): bytes are decoded on
//! read and encoded on write by the `flate2` crate.

use vstd::prelude::*;

verus! {

/// What `flate2::read::GzDecoder` reads to the end out of `data`: the
/// decompressed bytes of its first gzip member, or `None` where decoding
/// fails.
pub uninterp spec fn gunzip_of(data: Seq<u8>) -> Option<Seq<u8>>;

/// The bytes `flate2::write::GzEncoder` at the default compression level
/// writes for `data`.
pub uninterp spec fn gzip_of(data: Seq<u8>) -> Seq<u8>;

/// Decodes `data` with `flate2::read::GzDecoder` and `read_to_end`.
/// Claims: an `Ok` result is the decoder's output, an `Err` (the I/O
/// error's text) means decoding failed.
#[verifier::external_body]
fn gunzip(data: &[u8]) -> (r: Result<Vec<u8>, String>)
    ensures
        match r {
            Ok(v) => gunzip_of(data@) == Some(v@),
            Err(_) => gunzip_of(data@) is None,
        },
{
    let mut dec = flate2::read::GzDecoder::new(data);
    let mut out = Vec::new();
    match std::io::Read::read_to_end(&mut dec, &mut out) {
        Ok(_) => Ok(out),
        Err(e) => Err(e.to_string()),
    }
}

/// Encodes `data` with `flate2::write::GzEncoder` over a `Vec` at the
/// default level (`write_all`, then `finish`). Claims: the call succeeds
/// (into a `Vec` at the default level the encoder only fails on a failed
/// write to its sink, which a `Vec` never reports), its result is the
/// encoder's output, and `GzDecoder` reads it back as `data`.
#[verifier::external_body]
fn gzip(data: &[u8]) -> (r: Result<Vec<u8>, String>)
    ensures
        r is Ok,
        r matches Ok(v) ==> v@ == gzip_of(data@) && gunzip_of(v@) == Some(data@),
{
    let mut enc = flate2::write::GzEncoder::new(Vec::new(), flate2::Compression::default());
    if let Err(e) = std::io::Write::write_all(&mut enc, data) {
        return Err(e.to_string());
    }
    match enc.finish() {
        Ok(v) => Ok(v),
        Err(e) => Err(e.to_string()),
    }
}

/// The bytes read from a file's stored bytes: decoded when the file is a
/// `.gz` file, as stored otherwise.
pub open spec fn read_back(is_gz: bool, stored: Seq<u8>) -> Option<Seq<u8>> {
    if is_gz {
        gunzip_of(stored)
    } else {
        Some(stored)
    }
}

/// The bytes of a file as read: gzip-decoded when `is_gz` (the path has a
/// `.gz` extension), unchanged otherwise; the decoder's message on failure.
pub fn maybe_gunzip(is_gz: bool, raw: Vec<u8>) -> (r: Result<Vec<u8>, String>)
    ensures
        match r {
            Ok(v) => read_back(is_gz, raw@) == Some(v@),
            Err(_) => read_back(is_gz, raw@) is None,
        },
{
    if is_gz {
        gunzip(raw.as_slice())
    } else {
        Ok(raw)
    }
}

/// The bytes to store for `bytes`: gzip-encoded when `is_gz`, unchanged
/// otherwise. It always succeeds.
pub fn maybe_gzip(is_gz: bool, bytes: &[u8]) -> (r: Result<Vec<u8>, String>)
    ensures
        !is_gz ==> (r matches Ok(v) && v@ == bytes@),
        is_gz ==> (r matches Ok(v) && v@ == gzip_of(bytes@)),
        r matches Ok(v) && read_back(is_gz, v@) == Some(bytes@),
{
    if is_gz {
        gzip(bytes)
    } else {
        let mut v: Vec<u8> = Vec::new();
        v.extend_from_slice(bytes);
        assert(v@ =~= bytes@);
        Ok(v)
    }
}

} // verus!
