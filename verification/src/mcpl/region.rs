//! The particle region after the header block, and whole-file header
//! operations: repair of an unpatched particle count, extraction ranges,
//! and the header of a merge.

use vstd::prelude::*;
use vstd::bytes::{u64_to_le_bytes, spec_u64_to_le_bytes, lemma_auto_spec_u64_to_from_le_bytes};
use vstd::slice::{slice_subrange, slice_to_vec};
use vstd::string::*;
use vstd::arithmetic::div_mod::{lemma_fundamental_div_mod, lemma_div_multiples_vanish, lemma_mod_pos_bound};
use crate::text::{dec, decimal_string};
use crate::mcpl::header::{
    Error, ErrorView, Region, MergeField, MergeValue, Header, HeaderView, Blob, BlobView, enc_u64,
};

verus! {

/// Outcome of checking that the bytes after a header of length `hl` hold
/// exactly `nparticles` records of `size` bytes in a file of `len` bytes.
pub open spec fn spec_particle_region(len: usize, hl: usize, size: usize, nparticles: u64) -> Result<(), ErrorView> {
    let n = nparticles as usize;
    if n as nat * size as nat > usize::MAX || hl + n as nat * size as nat > usize::MAX {
        Err(ErrorView::Truncated(Region::AddressSpace))
    } else if (len as nat) < hl + n as nat * size as nat {
        let have: nat = if len >= hl { (len - hl) as nat } else { 0 };
        let per: nat = if size >= 1 { size as nat } else { 1 };
        Err(ErrorView::Truncated(Region::Particle { index: (have / per) as usize, count: n }))
    } else if (len as nat) > hl + n as nat * size as nat {
        Err(ErrorView::TrailingBytes { expected: (hl + n as nat * size as nat) as usize, found: len, particle: n as u64 })
    } else {
        Ok(())
    }
}

/// Check that the bytes after a header of `header_len` bytes hold exactly
/// `nparticles` complete records of `size` bytes in a file of `len` bytes.
pub fn check_particle_region(len: usize, header_len: usize, size: usize, nparticles: u64) -> (r: Result<(), Error>)
    ensures
        match (r, spec_particle_region(len, header_len, size, nparticles)) {
            (Ok(()), Ok(())) => true,
            (Err(e), Err(ev)) => e@ == ev,
            _ => false,
        },
{
    let n = nparticles as usize;
    let body = match n.checked_mul(size) {
        Some(b) => b,
        None => {
            return Err(Error::Truncated(Region::AddressSpace));
        },
    };
    let want_end = match header_len.checked_add(body) {
        Some(e) => e,
        None => {
            return Err(Error::Truncated(Region::AddressSpace));
        },
    };
    if len < want_end {
        let have: usize = if len >= header_len { len - header_len } else { 0 };
        let per: usize = if size >= 1 { size } else { 1 };
        return Err(Error::Truncated(Region::Particle { index: have / per, count: n }));
    }
    if len > want_end {
        return Err(Error::TrailingBytes { expected: want_end, found: len, particle: n as u64 });
    }
    Ok(())
}

/// Bytes of a file after repair: the particle count field (bytes 8..16)
/// rewritten to the number of complete records after the header, and any
/// partial trailing record dropped.
pub open spec fn repaired(d: Seq<u8>, hl: nat, size: nat) -> Seq<u8> {
    let n = ((d.len() - hl) as nat) / size;
    d.subrange(0, 8) + enc_u64(n as u64) + d.subrange(16, (hl + n * size) as int)
}

proof fn lemma_whole_records(len: nat, hl: nat, size: nat)
    requires
        hl <= len,
        size > 0,
    ensures
        ((len - hl) as nat / size) * size <= len - hl,
{
    let x: int = len - hl;
    let s: int = size as int;
    lemma_fundamental_div_mod(x, s);
    lemma_mod_pos_bound(x, s);
    assert((x / s) * s <= x) by (nonlinear_arith)
        requires
            x == s * (x / s) + x % s,
            0 <= x % s;
}

/// Repair the header of a file that was never properly closed: the stored
/// particle count becomes the number of complete records after the header
/// block (`header_len` bytes, records of `size` bytes), a partially written
/// last record is dropped, and every other byte passes through.
pub fn repair(data: &[u8], header_len: usize, size: usize) -> (r: Vec<u8>)
    requires
        16 <= header_len <= data@.len(),
        size > 0,
    ensures
        r@ == repaired(data@, header_len as nat, size as nat),
{
    let n = (data.len() - header_len) / size;
    proof {
        lemma_whole_records(data@.len(), header_len as nat, size as nat);
        assert(n * size <= data.len() - header_len) by (nonlinear_arith)
            requires
                n * size == ((data@.len() - header_len) as nat / size as nat) * size as nat,
                ((data@.len() - header_len) as nat / size as nat) * size as nat <= data@.len() - header_len;
    }
    let end = header_len + n * size;
    let mut out = slice_to_vec(slice_subrange(data, 0, 8));
    let count = u64_to_le_bytes(n as u64);
    out.extend_from_slice(count.as_slice());
    out.extend_from_slice(slice_subrange(data, 16, end));
    out
}

/// Repairing twice is repairing once.
pub proof fn lemma_repair_idempotent(d: Seq<u8>, hl: nat, size: nat)
    requires
        16 <= hl <= d.len(),
        size > 0,
    ensures
        repaired(repaired(d, hl, size), hl, size) == repaired(d, hl, size),
{
    lemma_auto_spec_u64_to_from_le_bytes();
    let n = ((d.len() - hl) as nat) / size;
    lemma_whole_records(d.len(), hl, size);
    let r = repaired(d, hl, size);
    assert(spec_u64_to_le_bytes(n as u64).len() == 8);
    assert(r.len() == hl + n * size);
    assert(((r.len() - hl) as nat) == n * size);
    lemma_div_multiples_vanish(n as int, size as int);
    assert((size * n) / size == n);
    assert(n * size == size * n) by (nonlinear_arith);
    assert(((r.len() - hl) as nat) / size == n);
    assert(r.subrange(0, 8) =~= d.subrange(0, 8));
    assert(r.subrange(16, (hl + n * size) as int) =~= d.subrange(16, (hl + n * size) as int));
    assert(repaired(r, hl, size) =~= r);
}


/// Repair keeps the first 8 bytes, writes the number `k` of complete
/// records after the header into bytes 8..16, keeps bytes 16 up to the end
/// of the last complete record and drops the rest; repairing again changes
/// nothing.
pub proof fn lemma_repair_layout(d: Seq<u8>, hl: nat, size: nat)
    requires
        16 <= hl <= d.len(),
        size > 0,
    ensures
        ({
            let k = ((d.len() - hl) as nat) / size;
            let r = repaired(d, hl, size);
            &&& r.len() == hl + k * size
            &&& r.subrange(0, 8) == d.subrange(0, 8)
            &&& r.subrange(8, 16) == enc_u64(k as u64)
            &&& r.subrange(16, r.len() as int) == d.subrange(16, (hl + k * size) as int)
            &&& repaired(r, hl, size) == r
        }),
{
    lemma_auto_spec_u64_to_from_le_bytes();
    let k = ((d.len() - hl) as nat) / size;
    lemma_whole_records(d.len(), hl, size);
    let r = repaired(d, hl, size);
    assert(spec_u64_to_le_bytes(k as u64).len() == 8);
    assert(r.len() == hl + k * size);
    assert(r.subrange(0, 8) =~= d.subrange(0, 8));
    assert(r.subrange(8, 16) =~= enc_u64(k as u64));
    assert(r.subrange(16, r.len() as int) =~= d.subrange(16, (hl + k * size) as int));
    lemma_repair_idempotent(d, hl, size);
}

/// The particle region is accepted exactly when the bytes after the header
/// hold exactly `nparticles` whole records: fewer bytes are refused as a
/// truncated record, more as trailing bytes.
pub proof fn lemma_particle_region_exact(len: usize, hl: usize, size: usize, nparticles: u64)
    requires
        nparticles <= usize::MAX,
        hl + nparticles * size <= usize::MAX,
    ensures
        (spec_particle_region(len, hl, size, nparticles) is Ok) == (len == hl + nparticles * size),
        len < hl + nparticles * size ==> spec_particle_region(len, hl, size, nparticles) matches Err(
            ErrorView::Truncated(Region::Particle { .. }),
        ),
        len > hl + nparticles * size ==> spec_particle_region(len, hl, size, nparticles) matches Err(ErrorView::TrailingBytes { .. }),
{
    assert(nparticles as usize as nat == nparticles);
    assert(nparticles * size >= 0) by (nonlinear_arith);
}

/// A file whose stored count already matches its complete records, with
/// no partial record, comes back byte-identical from repair.
pub proof fn lemma_repair_keeps_consistent(d: Seq<u8>, hl: nat, size: nat, k: nat)
    requires
        16 <= hl,
        size > 0,
        d.len() == hl + k * size,
        k <= u64::MAX,
        d.subrange(8, 16) == enc_u64(k as u64),
    ensures
        repaired(d, hl, size) == d,
{
    lemma_auto_spec_u64_to_from_le_bytes();
    assert(k * size >= 0) by (nonlinear_arith)
        requires
            size > 0;
    assert(((d.len() - hl) as nat) == k * size);
    lemma_div_multiples_vanish(k as int, size as int);
    assert(k * size == size * k) by (nonlinear_arith);
    assert(((d.len() - hl) as nat) / size == k);
    assert(spec_u64_to_le_bytes(k as u64).len() == 8);
    assert(repaired(d, hl, size) =~= d);
}

/// Outcome of checking an extraction range `[start, stop)` against a
/// particle count.
pub open spec fn spec_extract_range(start: usize, stop: usize, nparticles: u64) -> Result<(), ErrorView> {
    let n = nparticles as usize;
    if start > stop || stop > n {
        Err(ErrorView::ExtractOutOfRange { start, stop, nparticles: n as u64 })
    } else {
        Ok(())
    }
}

/// Check an extraction range `[start, stop)` against a particle count.
pub fn check_extract_range(start: usize, stop: usize, nparticles: u64) -> (r: Result<(), Error>)
    ensures
        match (r, spec_extract_range(start, stop, nparticles)) {
            (Ok(()), Ok(())) => true,
            (Err(e), Err(ev)) => e@ == ev,
            _ => false,
        },
{
    let n = nparticles as usize;
    if start > stop || stop > n {
        return Err(Error::ExtractOutOfRange { start, stop, nparticles: n as u64 });
    }
    Ok(())
}

fn copy_blob(b: &Blob) -> (r: Blob)
    ensures
        r@ == b@,
{
    Blob { key: b.key.clone(), data: slice_to_vec(b.data.as_slice()) }
}

impl Header {
    /// A field-for-field copy.
    pub fn duplicate(&self) -> (r: Header)
        ensures
            r@ == self@,
    {
        let mut comments: Vec<String> = Vec::new();
        let mut i: usize = 0;
        while i < self.comments.len()
            invariant
                i <= self.comments@.len(),
                comments@.len() == i,
                forall|j: int| 0 <= j < i ==> #[trigger] comments@[j]@ == self.comments@[j]@,
            decreases self.comments.len() - i,
        {
            comments.push(self.comments[i].clone());
            i = i + 1;
        }
        let mut blobs: Vec<Blob> = Vec::new();
        let mut j: usize = 0;
        while j < self.blobs.len()
            invariant
                j <= self.blobs@.len(),
                blobs@.len() == j,
                forall|t: int| 0 <= t < j ==> #[trigger] blobs@[t]@ == self.blobs@[t]@,
            decreases self.blobs.len() - j,
        {
            blobs.push(copy_blob(&self.blobs[j]));
            j = j + 1;
        }
        let r = Header {
            version: self.version,
            has_userflags: self.has_userflags,
            has_polarisation: self.has_polarisation,
            double_prec: self.double_prec,
            universal_pdgcode: self.universal_pdgcode,
            universal_weight_bits: self.universal_weight_bits,
            srcname: self.srcname.clone(),
            comments,
            blobs,
            nparticles: self.nparticles,
        };
        assert(r@.comments =~= self@.comments);
        assert(r@.blobs =~= self@.blobs);
        r
    }
}

/// The header of an extracted subset: the source header verbatim, written
/// as format version 3.
pub fn extract_header(h: &Header) -> (r: Header)
    ensures
        r@ == (HeaderView { version: 3, ..h@ }),
{
    let mut r = h.duplicate();
    r.version = 3;
    r
}

/// The first header option on which `b` disagrees with `a`, in the order
/// user flags, polarisation, universal PDG code, universal weight.
pub open spec fn option_mismatch(a: HeaderView, b: HeaderView) -> Option<MergeField> {
    if a.has_userflags != b.has_userflags {
        Some(MergeField::HasUserflags)
    } else if a.has_polarisation != b.has_polarisation {
        Some(MergeField::HasPolarisation)
    } else if a.universal_pdgcode != b.universal_pdgcode {
        Some(MergeField::UniversalPdgcode)
    } else if a.universal_weight_bits != b.universal_weight_bits {
        Some(MergeField::UniversalWeight)
    } else {
        None
    }
}

/// The value header `h` carries for option `f`.
pub open spec fn merge_value(h: HeaderView, f: MergeField) -> MergeValue {
    match f {
        MergeField::HasUserflags => MergeValue::Flag(h.has_userflags),
        MergeField::HasPolarisation => MergeValue::Flag(h.has_polarisation),
        MergeField::UniversalPdgcode => MergeValue::Code(h.universal_pdgcode),
        MergeField::UniversalWeight => MergeValue::WeightBits(h.universal_weight_bits),
    }
}

/// The first of inputs `1..n` that disagrees with input 0, and on what.
pub open spec fn first_incompatible(hs: Seq<HeaderView>, n: nat) -> Option<(usize, MergeField)>
    decreases n,
{
    if n <= 1 {
        None
    } else {
        match first_incompatible(hs, (n - 1) as nat) {
            Some(x) => Some(x),
            None => match option_mismatch(hs[0], hs[n - 1]) {
                Some(f) => Some(((n - 1) as usize, f)),
                None => None,
            },
        }
    }
}

/// The provenance comment appended to a merged header.
pub open spec fn merge_note(n: nat) -> Seq<char> {
    "Merged by nucleide-mcpl-io merge_mcpl from "@ + dec(n) + " files"@
}

/// The header of a merge of compatible inputs: the first input's header,
/// version 3, double precision when any input is, and the provenance
/// comment appended.
pub open spec fn merged_header(hs: Seq<HeaderView>) -> HeaderView {
    let h = hs[0];
    HeaderView {
        version: 3,
        double_prec: exists|i: int| 0 <= i < hs.len() && #[trigger] hs[i].double_prec,
        comments: h.comments.push(merge_note(hs.len())),
        ..h
    }
}

/// Outcome of merging the headers `hs` (input order).
pub open spec fn spec_merge_headers(hs: Seq<HeaderView>) -> Result<HeaderView, ErrorView> {
    if hs.len() == 0 {
        Err(ErrorView::EmptyMerge)
    } else if first_incompatible(hs, hs.len()) is Some {
        let (i, f) = first_incompatible(hs, hs.len())->0;
        Err(ErrorView::IncompatibleOption { index: i, field: f, expected: merge_value(hs[0], f), found: merge_value(hs[i as int], f) })
    } else {
        Ok(merged_header(hs))
    }
}


proof fn lemma_first_incompatible_at(hs: Seq<HeaderView>, j: int, n: nat)
    requires
        0 < j < n <= hs.len(),
        forall|i: int| 0 < i < j ==> option_mismatch(hs[0], #[trigger] hs[i]) is None,
        option_mismatch(hs[0], hs[j]) is Some,
    ensures
        first_incompatible(hs, n) == Some((j as usize, option_mismatch(hs[0], hs[j])->0)),
    decreases n,
{
    if n - 1 > j {
        lemma_first_incompatible_at(hs, j, (n - 1) as nat);
    } else {
        lemma_first_incompatible_none(hs, (n - 1) as nat);
    }
}

proof fn lemma_first_incompatible_none(hs: Seq<HeaderView>, n: nat)
    requires
        n <= hs.len(),
        forall|i: int| 0 < i < n ==> option_mismatch(hs[0], #[trigger] hs[i]) is None,
    ensures
        first_incompatible(hs, n) is None,
    decreases n,
{
    if n > 1 {
        lemma_first_incompatible_none(hs, (n - 1) as nat);
    }
}

/// Merging headers: inputs that agree with the first on user flags,
/// polarisation, universal PDG code and universal weight merge to the
/// first header as version 3, double precision when any input is, with the
/// provenance comment appended; otherwise the first input that disagrees
/// is refused, naming the first option it disagrees on with the first
/// input's value and its own.
pub proof fn lemma_merge_headers_law(hs: Seq<HeaderView>)
    requires
        0 < hs.len() <= usize::MAX,
    ensures
        (forall|i: int| 0 < i < hs.len() ==> option_mismatch(hs[0], #[trigger] hs[i]) is None) ==> spec_merge_headers(hs) == Ok::<
            HeaderView,
            ErrorView,
        >(merged_header(hs)),
        forall|j: int|
            0 < j < hs.len() && option_mismatch(hs[0], #[trigger] hs[j]) is Some && (forall|i: int| 0 < i < j ==> option_mismatch(
                hs[0],
                #[trigger] hs[i],
            ) is None) ==> spec_merge_headers(hs) == Err::<HeaderView, ErrorView>(
                ErrorView::IncompatibleOption {
                    index: j as usize,
                    field: option_mismatch(hs[0], hs[j])->0,
                    expected: merge_value(hs[0], option_mismatch(hs[0], hs[j])->0),
                    found: merge_value(hs[j], option_mismatch(hs[0], hs[j])->0),
                },
            ),
{
    if forall|i: int| 0 < i < hs.len() ==> option_mismatch(hs[0], #[trigger] hs[i]) is None {
        lemma_first_incompatible_none(hs, hs.len());
    }
    assert forall|j: int|
        0 < j < hs.len() && option_mismatch(hs[0], #[trigger] hs[j]) is Some && (forall|i: int| 0 < i < j ==> option_mismatch(
            hs[0],
            #[trigger] hs[i],
        ) is None) implies spec_merge_headers(hs) == Err::<HeaderView, ErrorView>(
        ErrorView::IncompatibleOption {
            index: j as usize,
            field: option_mismatch(hs[0], hs[j])->0,
            expected: merge_value(hs[0], option_mismatch(hs[0], hs[j])->0),
            found: merge_value(hs[j], option_mismatch(hs[0], hs[j])->0),
        },
    ) by {
        lemma_first_incompatible_at(hs, j, hs.len());
    }
}


/// A successful merge is double precision exactly when some input is (one
/// double input promotes the merge, all-single inputs stay single); it is
/// format version 3, keeps the first input's comments and adds one, and
/// carries the options (user flags, polarisation, universal PDG code and
/// weight) on which every input agrees, and the first input's source name,
/// blobs and particle count.
pub proof fn lemma_merge_promotes_precision(hs: Seq<HeaderView>)
    requires
        spec_merge_headers(hs) is Ok,
    ensures
        ({
            let h = spec_merge_headers(hs)->Ok_0;
            &&& forall|i: int| 0 <= i < hs.len() && (#[trigger] hs[i]).double_prec ==> h.double_prec
            &&& (forall|i: int| 0 <= i < hs.len() ==> !(#[trigger] hs[i]).double_prec) ==> !h.double_prec
            &&& h.version == 3
            &&& h.comments.len() == hs[0].comments.len() + 1
            &&& h.comments.take(hs[0].comments.len() as int) == hs[0].comments
            &&& forall|i: int| 0 <= i < hs.len() ==> {
                &&& h.has_userflags == (#[trigger] hs[i]).has_userflags
                &&& h.has_polarisation == hs[i].has_polarisation
                &&& h.universal_pdgcode == hs[i].universal_pdgcode
                &&& h.universal_weight_bits == hs[i].universal_weight_bits
            }
            &&& h.srcname == hs[0].srcname
            &&& h.blobs == hs[0].blobs
            &&& h.nparticles == hs[0].nparticles
        }),
{
    let h = spec_merge_headers(hs)->Ok_0;
    assert(first_incompatible(hs, hs.len()) is None);
    assert forall|i: int| 0 < i < hs.len() implies option_mismatch(hs[0], #[trigger] hs[i]) is None by {
        lemma_no_incompatible_prefix(hs, hs.len(), i);
    }
    assert(h.comments.take(hs[0].comments.len() as int) =~= hs[0].comments);
}

proof fn lemma_no_incompatible_prefix(hs: Seq<HeaderView>, n: nat, i: int)
    requires
        n <= hs.len(),
        first_incompatible(hs, n) is None,
        0 < i < n,
    ensures
        option_mismatch(hs[0], hs[i]) is None,
    decreases n,
{
    if i < n - 1 {
        lemma_no_incompatible_prefix(hs, (n - 1) as nat, i);
    }
}

fn value_of(h: &Header, f: MergeField) -> (r: MergeValue)
    ensures
        r == merge_value(h@, f),
{
    match f {
        MergeField::HasUserflags => MergeValue::Flag(h.has_userflags),
        MergeField::HasPolarisation => MergeValue::Flag(h.has_polarisation),
        MergeField::UniversalPdgcode => MergeValue::Code(h.universal_pdgcode),
        MergeField::UniversalWeight => MergeValue::WeightBits(h.universal_weight_bits),
    }
}

fn mismatch_of(a: &Header, b: &Header) -> (r: Option<MergeField>)
    ensures
        r == option_mismatch(a@, b@),
{
    if a.has_userflags != b.has_userflags {
        Some(MergeField::HasUserflags)
    } else if a.has_polarisation != b.has_polarisation {
        Some(MergeField::HasPolarisation)
    } else if a.universal_pdgcode != b.universal_pdgcode {
        Some(MergeField::UniversalPdgcode)
    } else if a.universal_weight_bits != b.universal_weight_bits {
        Some(MergeField::UniversalWeight)
    } else {
        None
    }
}

proof fn lemma_incompatible_settles(hs: Seq<HeaderView>, n: nat)
    requires
        n <= hs.len(),
        first_incompatible(hs, n) is Some,
    ensures
        first_incompatible(hs, hs.len()) == first_incompatible(hs, n),
    decreases hs.len() - n,
{
    if n < hs.len() {
        lemma_incompatible_settles(hs, n + 1);
    }
}

/// Merge the headers of compatible files (input order): all inputs must
/// agree with the first on user flags, polarisation, universal PDG code and
/// universal weight; precision may differ and promotes to double. The
/// result is the first header, as version 3, with a provenance comment
/// recording the input count appended.
pub fn merge_headers(hs: &Vec<Header>) -> (r: Result<Header, Error>)
    ensures
        match (r, spec_merge_headers(hs@.map_values(|h: Header| h@))) {
            (Ok(h), Ok(hv)) => h@ == hv,
            (Err(e), Err(ev)) => e@ == ev,
            _ => false,
        },
{
    let ghost vs = hs@.map_values(|h: Header| h@);
    if hs.len() == 0 {
        return Err(Error::EmptyMerge);
    }
    let mut i: usize = 1;
    let mut any_double = hs[0].double_prec;
    proof {
        assert(vs[0].double_prec == hs@[0].double_prec);
        if any_double {
            assert(vs[0].double_prec);
        }
    }
    while i < hs.len()
        invariant
            1 <= i <= hs@.len(),
            vs == hs@.map_values(|h: Header| h@),
            first_incompatible(vs, i as nat) is None,
            any_double == exists|t: int| 0 <= t < i && #[trigger] vs[t].double_prec,
        decreases hs.len() - i,
    {
        match mismatch_of(&hs[0], &hs[i]) {
            Some(f) => {
                proof {
                    assert(first_incompatible(vs, (i + 1) as nat) == Some(((i as usize), f)));
                    lemma_incompatible_settles(vs, (i + 1) as nat);
                }
                let expected = value_of(&hs[0], f);
                let found = value_of(&hs[i], f);
                proof {
                    assert(vs[0] == hs@[0]@ && vs[i as int] == hs@[i as int]@);
                }
                return Err(Error::IncompatibleOption { index: i, field: f, expected, found });
            },
            None => {},
        }
        proof {
            if hs@[i as int].double_prec {
                assert(vs[i as int].double_prec);
            }
        }
        any_double = any_double || hs[i].double_prec;
        i = i + 1;
    }
    let mut h = hs[0].duplicate();
    h.version = 3;
    h.double_prec = any_double;
    let mut note = String::from_str("Merged by nucleide-mcpl-io merge_mcpl from ");
    let count = decimal_string(hs.len() as u64);
    note.append(count.as_str());
    note.append(" files");
    let ghost before = h@.comments;
    h.comments.push(note);
    assert(h@.comments =~= before.push(merge_note(vs.len())));
    assert(h@ == merged_header(vs));
    Ok(h)
}

impl Default for Header {
    /// The writer's defaults: version 3, single precision, per-particle PDG
    /// codes and weights, no user flags or polarisation, source name
    /// `unknown`, no comments or blobs, zero particles.
    fn default() -> (r: Header)
        ensures
            r@ == (HeaderView {
                version: 3,
                has_userflags: false,
                has_polarisation: false,
                double_prec: false,
                universal_pdgcode: None,
                universal_weight_bits: None,
                srcname: "unknown"@,
                comments: Seq::empty(),
                blobs: Seq::empty(),
                nparticles: 0,
            }),
    {
        let r = Header {
            version: 3,
            has_userflags: false,
            has_polarisation: false,
            double_prec: false,
            universal_pdgcode: None,
            universal_weight_bits: None,
            srcname: String::from_str("unknown"),
            comments: Vec::new(),
            blobs: Vec::new(),
            nparticles: 0,
        };
        assert(r@.comments =~= Seq::<Seq<char>>::empty());
        assert(r@.blobs =~= Seq::<BlobView>::empty());
        r
    }
}

} // verus!
