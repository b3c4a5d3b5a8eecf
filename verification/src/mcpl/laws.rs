//! Laws of the header codec: what a read gives back of a write.

use vstd::prelude::*;
use vstd::bytes::{lemma_auto_spec_u32_to_from_le_bytes, lemma_auto_spec_u64_to_from_le_bytes, spec_u32_from_le_bytes, spec_u32_to_le_bytes};
use vstd::utf8::{encode_utf8, encode_utf8_valid_utf8, encode_utf8_decode_utf8};
use crate::mcpl::statsum::StatSumValue;
use crate::mcpl::header::{HeaderView, BlobView, Field, enc_u32, enc_u64, enc_str, enc_strs, enc_u32s, enc_blob_data, blob_keys, option_words, header_bytes, magic, spec_header_block, write_fault, encode_fault, str_fault, strs_fault, list_field, blob_too_large, statsum_check};
use crate::mcpl::read::{u32_at, u64_at, spec_str, spec_strs, spec_blobs, spec_fixed, spec_front, spec_read_header, header_of, read_field, implied_size, version_digits};

verus! {

proof fn lemma_window(d: Seq<u8>, p: int, a: Seq<u8>, b: Seq<u8>)
    requires
        0 <= p,
        p + a.len() + b.len() <= d.len(),
        d.subrange(p, p + a.len() + b.len()) == a + b,
    ensures
        d.subrange(p, p + a.len()) == a,
        d.subrange(p + a.len(), p + a.len() + b.len()) == b,
{
    assert forall|i: int| 0 <= i < a.len() implies d.subrange(p, p + a.len())[i] == a[i] by {
        assert(d[p + i] == (a + b)[i]);
    }
    assert(d.subrange(p, p + a.len()) =~= a);
    assert forall|i: int| 0 <= i < b.len() implies d.subrange(p + a.len(), p + a.len() + b.len())[i] == b[i] by {
        assert(d[p + a.len() + i] == (a + b)[a.len() + i]);
    }
    assert(d.subrange(p + a.len(), p + a.len() + b.len()) =~= b);
}

proof fn lemma_u32_read(d: Seq<u8>, p: int, x: u32)
    requires
        0 <= p,
        p + 4 <= d.len(),
        d.subrange(p, p + 4) == enc_u32(x),
    ensures
        u32_at(d, p) == x,
{
    lemma_auto_spec_u32_to_from_le_bytes();
    assert(spec_u32_to_le_bytes(x).len() == 4);
    assert(spec_u32_from_le_bytes(spec_u32_to_le_bytes(x)) == x);
}

/// A string that can be written as a header field.
pub open spec fn writable(s: Seq<char>) -> bool {
    !encode_utf8(s).contains(0u8) && encode_utf8(s).len() <= 65534
}

proof fn lemma_enc_str_len(s: Seq<char>)
    ensures
        enc_str(s).len() == 4 + encode_utf8(s).len(),
{
    lemma_auto_spec_u32_to_from_le_bytes();
}

proof fn lemma_str_read(d: Seq<u8>, p: int, s: Seq<char>, f: Field)
    requires
        writable(s),
        0 <= p,
        p + enc_str(s).len() <= d.len(),
        d.subrange(p, p + enc_str(s).len()) == enc_str(s),
    ensures
        spec_str(d, p, f) == Ok::<(Seq<char>, int), crate::mcpl::header::ErrorView>((s, p + enc_str(s).len())),
{
    lemma_auto_spec_u32_to_from_le_bytes();
    let e = encode_utf8(s);
    let n = e.len();
    lemma_enc_str_len(s);
    lemma_window(d, p, enc_u32(n as u32), e);
    lemma_u32_read(d, p, n as u32);
    assert(u32_at(d, p) as int == n);
    encode_utf8_valid_utf8(s);
    encode_utf8_decode_utf8(s);
}

proof fn lemma_strs_read(d: Seq<u8>, p: int, ss: Seq<Seq<char>>, is_comment: bool)
    requires
        forall|i: int| 0 <= i < ss.len() ==> writable(#[trigger] ss[i]),
        0 <= p,
        p + enc_strs(ss).len() <= d.len(),
        d.subrange(p, p + enc_strs(ss).len()) == enc_strs(ss),
    ensures
        spec_strs(d, p, ss.len(), is_comment) == Ok::<(Seq<Seq<char>>, int), crate::mcpl::header::ErrorView>(
            (ss, p + enc_strs(ss).len()),
        ),
    decreases ss.len(),
{
    if ss.len() == 0 {
        assert(ss =~= Seq::<Seq<char>>::empty());
    } else {
        let init = ss.drop_last();
        let last = ss.last();
        assert(enc_strs(ss) == enc_strs(init) + enc_str(last));
        lemma_window(d, p, enc_strs(init), enc_str(last));
        assert forall|i: int| 0 <= i < init.len() implies writable(#[trigger] init[i]) by {
            assert(init[i] == ss[i]);
        }
        lemma_strs_read(d, p, init, is_comment);
        assert(writable(ss[ss.len() - 1]));
        lemma_str_read(d, p + enc_strs(init).len(), last, read_field(is_comment, ss.len() - 1));
        assert(init.push(last) =~= ss);
    }
}

proof fn lemma_blobs_read(d: Seq<u8>, p: int, bs: Seq<BlobView>, keys: Seq<Seq<char>>)
    requires
        forall|i: int| 0 <= i < bs.len() ==> (#[trigger] bs[i]).data.len() <= u32::MAX,
        keys.len() >= bs.len(),
        forall|i: int| 0 <= i < bs.len() ==> keys[i] == (#[trigger] bs[i]).key,
        0 <= p,
        p + enc_blob_data(bs).len() <= d.len(),
        d.subrange(p, p + enc_blob_data(bs).len()) == enc_blob_data(bs),
    ensures
        spec_blobs(d, p, keys, bs.len()) == Ok::<(Seq<BlobView>, int), crate::mcpl::header::ErrorView>(
            (bs, p + enc_blob_data(bs).len()),
        ),
    decreases bs.len(),
{
    lemma_auto_spec_u32_to_from_le_bytes();
    if bs.len() == 0 {
        assert(bs =~= Seq::<BlobView>::empty());
    } else {
        let init = bs.drop_last();
        let last = bs.last();
        let hd = enc_blob_data(init);
        let lw = enc_u32(last.data.len() as u32);
        assert(enc_blob_data(bs) == hd + lw + last.data);
        lemma_window(d, p, hd + lw, last.data);
        lemma_window(d, p, hd, lw);
        lemma_blobs_read(d, p, init, keys);
        let q = p + hd.len();
        lemma_u32_read(d, q, last.data.len() as u32);
        assert(bs.len() - 1 < bs.len());
        assert(keys[bs.len() - 1] == last.key);
        assert(init.push(BlobView { key: keys[bs.len() - 1], data: d.subrange(q + 4, q + 4 + u32_at(d, q)) }) =~= bs);
    }
}

proof fn lemma_u32s(xs: Seq<u32>)
    ensures
        enc_u32s(xs).len() == 4 * xs.len(),
        forall|k: int| 0 <= k < xs.len() ==> enc_u32s(xs).subrange(4 * k, 4 * k + 4) == enc_u32(#[trigger] xs[k]),
    decreases xs.len(),
{
    lemma_auto_spec_u32_to_from_le_bytes();
    if xs.len() > 0 {
        let init = xs.drop_last();
        lemma_u32s(init);
        let e = enc_u32s(xs);
        assert(e == enc_u32s(init) + enc_u32(xs.last()));
        assert forall|k: int| 0 <= k < xs.len() implies e.subrange(4 * k, 4 * k + 4) == enc_u32(#[trigger] xs[k]) by {
            if k < xs.len() - 1 {
                assert(init[k] == xs[k]);
                assert(e.subrange(4 * k, 4 * k + 4) =~= enc_u32s(init).subrange(4 * k, 4 * k + 4));
            } else {
                assert(e.subrange(4 * k, 4 * k + 4) =~= enc_u32(xs.last()));
            }
        }
    }
}

proof fn lemma_strs_fault_none(ss: Seq<Seq<char>>, is_comment: bool, n: nat)
    requires
        n <= ss.len(),
        strs_fault(ss, is_comment, n) is None,
    ensures
        forall|i: int| 0 <= i < n ==> str_fault(#[trigger] ss[i], list_field(is_comment, i)) is None,
    decreases n,
{
    if n > 0 {
        lemma_strs_fault_none(ss, is_comment, (n - 1) as nat);
    }
}

proof fn lemma_writable(s: Seq<char>, f: Field)
    requires
        str_fault(s, f) is None,
    ensures
        writable(s),
{
}

/// The bytes at `[p, p + x.len())` of `d` are `x` when `d` starts with
/// `pre + x`.
proof fn lemma_prefix_window(d: Seq<u8>, pre: Seq<u8>, x: Seq<u8>)
    requires
        (pre + x).len() <= d.len(),
        d.subrange(0, (pre + x).len() as int) == pre + x,
    ensures
        d.subrange(pre.len() as int, (pre.len() + x.len()) as int) == x,
        d.subrange(0, pre.len() as int) == pre,
{
    lemma_window(d, 0, pre, x);
}

/// Round trip of the header block: whatever bytes follow a block written
/// for `h`, reading it back yields the comments of `h` up front, then `h`
/// itself and the block's length. The header must carry version 3 (the
/// only version written), and the comment and blob counts must fit the
/// `u32` count words.
#[verifier::rlimit(60)]
pub proof fn lemma_header_round_trip(h: HeaderView, vs: Seq<StatSumValue>, rest: Seq<u8>)
    requires
        spec_header_block(h, vs) is Ok,
        h.version == 3,
        h.comments.len() <= u32::MAX,
        h.blobs.len() <= u32::MAX,
        vs.len() == h.comments.len(),
    ensures
        spec_front(spec_header_block(h, vs)->Ok_0 + rest) is Ok,
        spec_front(spec_header_block(h, vs)->Ok_0 + rest)->Ok_0.comments == h.comments,
        spec_read_header(spec_header_block(h, vs)->Ok_0 + rest, vs) == Ok::<(HeaderView, int), crate::mcpl::header::ErrorView>(
            (h, spec_header_block(h, vs)->Ok_0.len() as int),
        ),
{
    lemma_auto_spec_u32_to_from_le_bytes();
    lemma_auto_spec_u64_to_from_le_bytes();
    let b = header_bytes(h);
    assert(spec_header_block(h, vs)->Ok_0 == b);
    let d = b + rest;
    let words = option_words(h);
    lemma_u32s(words);
    let v = seq![48u8, 48u8, 51u8, 76u8];
    let f0 = magic() + v + enc_u64(h.nparticles) + enc_u32s(words);
    assert(f0.len() == 48);
    let w = match h.universal_weight_bits { Some(x) => enc_u64(x), None => Seq::<u8>::empty() };
    let s = enc_str(h.srcname);
    let keys = blob_keys(h.blobs);
    let c = enc_strs(h.comments);
    let k = enc_strs(keys);
    let bl = enc_blob_data(h.blobs);
    assert(b == f0 + w + s + c + k + bl);
    assert(d.subrange(0, b.len() as int) =~= b);
    // fixed prefix
    lemma_prefix_window(d, f0 + w + s + c + k, bl);
    lemma_prefix_window(d, f0 + w + s + c, k);
    lemma_prefix_window(d, f0 + w + s, c);
    lemma_prefix_window(d, f0 + w, s);
    lemma_prefix_window(d, f0, w);
    assert(d.subrange(0, 48) == f0);
    assert forall|i: int| 0 <= i < 48 implies d[i] == f0[i] by {
        assert(d.subrange(0, 48)[i] == f0[i]);
    }
    assert(d[0] == 77 && d[1] == 67 && d[2] == 80 && d[3] == 76);
    assert(d[4] == 48 && d[5] == 48 && d[6] == 51 && d[7] == 76);
    assert(version_digits(d) == 3);
    assert(d.subrange(8, 16) =~= f0.subrange(8, 16));
    assert(f0.subrange(8, 16) =~= enc_u64(h.nparticles));
    assert(u64_at(d, 8) == h.nparticles);
    assert forall|q: int| 0 <= q < 8 implies u32_at(d, 16 + 4 * q) == #[trigger] words[q] by {
        assert(d.subrange(16 + 4 * q, 20 + 4 * q) =~= f0.subrange(16 + 4 * q, 20 + 4 * q));
        assert(f0.subrange(16 + 4 * q, 20 + 4 * q) =~= enc_u32s(words).subrange(4 * q, 4 * q + 4));
        lemma_u32_read(d, 16 + 4 * q, words[q]);
    }
    assert(u32_at(d, 16) == words[0]);
    assert(u32_at(d, 20) == words[1]);
    assert(u32_at(d, 24) == words[2]);
    assert(u32_at(d, 28) == words[3]);
    assert(u32_at(d, 32) == words[4]);
    assert(u32_at(d, 36) == words[5]);
    assert(u32_at(d, 40) == words[6]);
    assert(u32_at(d, 44) == words[7]);
    // the universal PDG code survives the u32 word
    match h.universal_pdgcode {
        Some(p) => {
            assert(p != 0);
            assert(((p as u32) as i32) == p) by (bit_vector);
            assert(((p as u32) as i32) != 0);
        },
        None => {},
    }
    let fx = spec_fixed(d)->Ok_0;
    assert(h.particle_size() <= 96);
    assert(spec_fixed(d) is Ok);
    assert(implied_size(fx) == h.particle_size());
    // weight
    match h.universal_weight_bits {
        Some(x) => {
            assert(d.subrange(48, 56) == w);
            assert(u64_at(d, 48) == x);
        },
        None => {},
    }
    let p1: int = (f0.len() + w.len()) as int;
    // strings
    assert(encode_fault(h) is None);
    lemma_writable(h.srcname, Field::Srcname);
    lemma_str_read(d, p1, h.srcname, Field::Srcname);
    lemma_strs_fault_none(h.comments, true, h.comments.len());
    assert forall|i: int| 0 <= i < h.comments.len() implies writable(#[trigger] h.comments[i]) by {
        lemma_writable(h.comments[i], list_field(true, i));
    }
    let p2: int = p1 + s.len();
    lemma_strs_read(d, p2, h.comments, true);
    let fr = spec_front(d)->Ok_0;
    assert(spec_front(d) is Ok);
    assert(fr.comments == h.comments);
    assert(fr.pos == p2 + c.len());
    // back half
    assert(write_fault(h, vs) is None);
    assert(statsum_check(h.comments, vs) is Ok);
    lemma_strs_fault_none(keys, false, h.blobs.len());
    assert forall|i: int| 0 <= i < keys.len() implies writable(#[trigger] keys[i]) by {
        lemma_writable(keys[i], list_field(false, i));
    }
    let p3: int = p2 + c.len();
    lemma_strs_read(d, p3, keys, false);
    assert forall|i: int| 0 <= i < h.blobs.len() implies (#[trigger] h.blobs[i]).data.len() <= u32::MAX by {
        assert(!blob_too_large(h.blobs, h.blobs.len()));
    }
    let p4: int = p3 + k.len();
    lemma_blobs_read(d, p4, h.blobs, keys);
    assert(header_of(fr, h.blobs) == h);
}

} // verus!
