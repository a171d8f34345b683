//! Parsing an encoded container yields the container back.
//!
//! The encoder recomputes the offset fields of each record instead of
//! storing decoded ones, so the round trip holds for containers whose
//! records carry their index and coefficient arrays: for those the
//! recomputed offsets describe exactly where the encoder places the data.
//! The auxiliary array may be present or absent; its absence is preserved
//! because its offset field is then written as zero.

use crate::bytes::{
    le16_at, le32_at, lemma_le16_at_of_subrange, lemma_le16_of_u16_bytes,
    lemma_le32_at_of_subrange, lemma_le32_of_u32_bytes, lemma_subrange_of_subrange, u16_bytes,
    u32_bytes,
};
use crate::format::{
    coeff_at, coeff_bytes, coeffs_bytes, header_at, header_bytes, lemma_coeffs_bytes_len,
    lemma_records_blob_len, lemma_records_end_ge, lemma_records_end_mono, lemma_tpcb_enc_len,
    lemma_u16s_bytes_len, lemma_u32s_bytes_len, lemma_vec3s_bytes_len, magic_shan, magic_tpcb,
    opt_len, pad16, parse_frames, parse_grid_coeffs, parse_grid_u16, parse_grid_vec3,
    parse_ptr_records, parse_records, parse_shan, parse_shan_prefix, parse_tpcb, ptr_table,
    rec_ptr, rec_start, records_blob, records_end, shan_enc, shan_prefix, tpcb_enc, tpcb_len,
    tpcb_offset2, tpcb_offset3, u16s_bytes, u32s_bytes, vec3_at, vec3_bytes, vec3s_bytes,
    zero_bytes,
};
use crate::shan::{CompressedShCoefficients, ShanError, ShanV, TpcbHeader, TpcbInnerV, TpcbV};
use vstd::prelude::*;

verus! {

impl TpcbInnerV {
    /// The offset fields the encoder writes describe exactly where it
    /// places the data: the index and coefficient arrays must be present,
    /// since their offsets are always written non-zero.
    pub open spec fn offsets_faithful(self) -> bool {
        &&& self.grid_indices is Some
        &&& self.grid_sh_coefficients is Some
    }
}

impl ShanV {
    /// A container whose encoding decodes back to itself: well-formed, and
    /// every present record keeps its index and coefficient arrays.
    pub open spec fn round_trippable(self) -> bool {
        &&& self.wf()
        &&& forall|k: int|
            0 <= k < self.tpcbs.len() ==> (#[trigger] self.tpcbs[k] matches Some(t)
                ==> t.inner.offsets_faithful())
    }
}

/// Element `k` of a flattened index array sits at byte `2 * k`.
proof fn lemma_u16s_bytes_index(s: Seq<u16>, k: int)
    requires
        0 <= k < s.len(),
    ensures
        u16s_bytes(s).subrange(2 * k, 2 * k + 2) == u16_bytes(s[k]),
    decreases s.len(),
{
    lemma_u16s_bytes_len(s);
    lemma_u16s_bytes_len(s.drop_last());
    if k == s.len() - 1 {
        assert(u16s_bytes(s).subrange(2 * k, 2 * k + 2) =~= u16_bytes(s[k]));
    } else {
        lemma_u16s_bytes_index(s.drop_last(), k);
        assert(u16s_bytes(s).subrange(2 * k, 2 * k + 2) =~= u16s_bytes(s.drop_last()).subrange(
            2 * k,
            2 * k + 2,
        ));
    }
}

/// Element `k` of a flattened 32-bit array sits at byte `4 * k`.
proof fn lemma_u32s_bytes_index(s: Seq<u32>, k: int)
    requires
        0 <= k < s.len(),
    ensures
        u32s_bytes(s).subrange(4 * k, 4 * k + 4) == u32_bytes(s[k]),
    decreases s.len(),
{
    lemma_u32s_bytes_len(s);
    lemma_u32s_bytes_len(s.drop_last());
    if k == s.len() - 1 {
        assert(u32s_bytes(s).subrange(4 * k, 4 * k + 4) =~= u32_bytes(s[k]));
    } else {
        lemma_u32s_bytes_index(s.drop_last(), k);
        assert(u32s_bytes(s).subrange(4 * k, 4 * k + 4) =~= u32s_bytes(s.drop_last()).subrange(
            4 * k,
            4 * k + 4,
        ));
    }
}

/// Element `k` of a flattened coefficient array sits at byte `12 * k`.
proof fn lemma_coeffs_bytes_index(s: Seq<CompressedShCoefficients>, k: int)
    requires
        0 <= k < s.len(),
    ensures
        coeffs_bytes(s).subrange(12 * k, 12 * k + 12) == coeff_bytes(s[k]),
    decreases s.len(),
{
    lemma_coeffs_bytes_len(s);
    lemma_coeffs_bytes_len(s.drop_last());
    if k == s.len() - 1 {
        assert(coeffs_bytes(s).subrange(12 * k, 12 * k + 12) =~= coeff_bytes(s[k]));
    } else {
        lemma_coeffs_bytes_index(s.drop_last(), k);
        assert(coeffs_bytes(s).subrange(12 * k, 12 * k + 12) =~= coeffs_bytes(
            s.drop_last(),
        ).subrange(12 * k, 12 * k + 12));
    }
}

/// Element `k` of a flattened array of 32-bit triples sits at byte
/// `12 * k`.
proof fn lemma_vec3s_bytes_index(s: Seq<[u32; 3]>, k: int)
    requires
        0 <= k < s.len(),
    ensures
        vec3s_bytes(s).subrange(12 * k, 12 * k + 12) == vec3_bytes(s[k]),
    decreases s.len(),
{
    lemma_vec3s_bytes_len(s);
    lemma_vec3s_bytes_len(s.drop_last());
    if k == s.len() - 1 {
        assert(vec3s_bytes(s).subrange(12 * k, 12 * k + 12) =~= vec3_bytes(s[k]));
    } else {
        lemma_vec3s_bytes_index(s.drop_last(), k);
        assert(vec3s_bytes(s).subrange(12 * k, 12 * k + 12) =~= vec3s_bytes(
            s.drop_last(),
        ).subrange(12 * k, 12 * k + 12));
    }
}

/// A triple of 32-bit values reads back from its own bytes.
proof fn lemma_vec3_roundtrip(b: Seq<u8>, pos: int, v: [u32; 3])
    requires
        0 <= pos,
        pos + 12 <= b.len(),
        b.subrange(pos, pos + 12) == vec3_bytes(v),
    ensures
        vec3_at(b, pos) == v,
{
    lemma_subrange_of_subrange(b, pos, 12, 0, 4);
    assert(vec3_bytes(v).subrange(0, 4) =~= u32_bytes(v[0]));
    lemma_le32_at_of_subrange(b, pos, v[0]);
    lemma_subrange_of_subrange(b, pos, 12, 4, 4);
    assert(vec3_bytes(v).subrange(4, 8) =~= u32_bytes(v[1]));
    lemma_le32_at_of_subrange(b, pos + 4, v[1]);
    lemma_subrange_of_subrange(b, pos, 12, 8, 4);
    assert(vec3_bytes(v).subrange(8, 12) =~= u32_bytes(v[2]));
    lemma_le32_at_of_subrange(b, pos + 8, v[2]);
    assert(vec3_at(b, pos)@ =~= v@);
}

/// A record header reads back from its own bytes.
#[verifier::rlimit(100)]
proof fn lemma_header_roundtrip(b: Seq<u8>, pos: int, h: TpcbHeader)
    requires
        0 <= pos,
        pos + 80 <= b.len(),
        b.subrange(pos, pos + 80) == header_bytes(h),
    ensures
        header_at(b, pos) == h,
{
    let hb = header_bytes(h);
    lemma_subrange_of_subrange(b, pos, 80, 0, 2);
    assert(hb.subrange(0, 2) =~= u16_bytes(h.unk1_1));
    lemma_le16_at_of_subrange(b, pos, h.unk1_1);
    lemma_subrange_of_subrange(b, pos, 80, 2, 2);
    assert(hb.subrange(2, 4) =~= u16_bytes(h.unk1_2));
    lemma_le16_at_of_subrange(b, pos + 2, h.unk1_2);
    lemma_subrange_of_subrange(b, pos, 80, 4, 12);
    assert(hb.subrange(4, 16) =~= vec3_bytes(h.grid_cell_count_xyz));
    lemma_vec3_roundtrip(b, pos + 4, h.grid_cell_count_xyz);
    lemma_subrange_of_subrange(b, pos, 80, 16, 12);
    assert(hb.subrange(16, 28) =~= vec3_bytes(h.grid_spacing_xyz));
    lemma_vec3_roundtrip(b, pos + 16, h.grid_spacing_xyz);
    lemma_subrange_of_subrange(b, pos, 80, 28, 12);
    assert(hb.subrange(28, 40) =~= vec3_bytes(h.grid_dimensions_xyz));
    lemma_vec3_roundtrip(b, pos + 28, h.grid_dimensions_xyz);
    lemma_subrange_of_subrange(b, pos, 80, 40, 12);
    assert(hb.subrange(40, 52) =~= vec3_bytes(h.grid_range_min_xyz));
    lemma_vec3_roundtrip(b, pos + 40, h.grid_range_min_xyz);
    lemma_subrange_of_subrange(b, pos, 80, 52, 12);
    assert(hb.subrange(52, 64) =~= vec3_bytes(h.grid_range_max_xyz));
    lemma_vec3_roundtrip(b, pos + 52, h.grid_range_max_xyz);
    lemma_subrange_of_subrange(b, pos, 80, 64, 4);
    assert(hb.subrange(64, 68) =~= u32_bytes(h.unk4));
    lemma_le32_at_of_subrange(b, pos + 64, h.unk4);
    lemma_subrange_of_subrange(b, pos, 80, 68, 4);
    assert(hb.subrange(68, 72) =~= u32_bytes(h.unk5));
    lemma_le32_at_of_subrange(b, pos + 68, h.unk5);
    lemma_subrange_of_subrange(b, pos, 80, 72, 4);
    assert(hb.subrange(72, 76) =~= u32_bytes(h.unk6));
    lemma_le32_at_of_subrange(b, pos + 72, h.unk6);
    lemma_subrange_of_subrange(b, pos, 80, 76, 4);
    assert(hb.subrange(76, 80) =~= u32_bytes(h.grid_cell_count));
    lemma_le32_at_of_subrange(b, pos + 76, h.grid_cell_count);
}

/// An index array parses back from its own bytes.
proof fn lemma_parse_grid_u16_of_enc(b: Seq<u8>, base: int, off: u32, c: u32, s: Seq<u16>)
    requires
        off != 0,
        s.len() == c,
        0 <= base,
        base + off + 2 * (c as int) <= b.len(),
        b.subrange(base + off, base + off + 2 * (c as int)) == u16s_bytes(s),
    ensures
        parse_grid_u16(b, base, off, c) == Ok::<Option<Seq<u16>>, ShanError>(Some(s)),
{
    let start = base + off;
    lemma_u16s_bytes_len(s);
    assert forall|k: int| 0 <= k < c implies le16_at(b, start + 2 * k) == s[k] by {
        lemma_u16s_bytes_index(s, k);
        lemma_subrange_of_subrange(b, start, 2 * (c as int), 2 * k, 2);
        lemma_le16_at_of_subrange(b, start + 2 * k, s[k]);
    };
    assert(Seq::new(c as nat, |k: int| le16_at(b, start + 2 * k)) =~= s);
}

/// One coefficient triple reads back from its own bytes.
proof fn lemma_coeff_roundtrip(b: Seq<u8>, pos: int, e: CompressedShCoefficients)
    requires
        0 <= pos,
        pos + 12 <= b.len(),
        b.subrange(pos, pos + 12) == coeff_bytes(e),
    ensures
        coeff_at(b, pos) == e,
{
    assert(b[pos] == b.subrange(pos, pos + 12)[0]);
    assert(b[pos + 1] == b.subrange(pos, pos + 12)[1]);
    assert(b[pos + 2] == b.subrange(pos, pos + 12)[2]);
    assert(b[pos + 3] == b.subrange(pos, pos + 12)[3]);
    assert(b[pos + 4] == b.subrange(pos, pos + 12)[4]);
    assert(b[pos + 5] == b.subrange(pos, pos + 12)[5]);
    assert(b[pos + 6] == b.subrange(pos, pos + 12)[6]);
    assert(b[pos + 7] == b.subrange(pos, pos + 12)[7]);
    assert(b[pos + 8] == b.subrange(pos, pos + 12)[8]);
    assert(b[pos + 9] == b.subrange(pos, pos + 12)[9]);
    assert(b[pos + 10] == b.subrange(pos, pos + 12)[10]);
    assert(b[pos + 11] == b.subrange(pos, pos + 12)[11]);
    assert(coeff_at(b, pos).r =~= e.r);
    assert(coeff_at(b, pos).g =~= e.g);
    assert(coeff_at(b, pos).b =~= e.b);
}

/// A coefficient array parses back from its own bytes.
proof fn lemma_parse_grid_coeffs_of_enc(
    b: Seq<u8>,
    base: int,
    off: u32,
    c: u32,
    s: Seq<CompressedShCoefficients>,
)
    requires
        off != 0,
        s.len() == c,
        0 <= base,
        base + off + 12 * (c as int) <= b.len(),
        b.subrange(base + off, base + off + 12 * (c as int)) == coeffs_bytes(s),
    ensures
        parse_grid_coeffs(b, base, off, c) == Ok::<Option<Seq<CompressedShCoefficients>>, ShanError>(
            Some(s),
        ),
{
    let start = base + off;
    lemma_coeffs_bytes_len(s);
    assert forall|k: int| 0 <= k < c implies coeff_at(b, start + 12 * k) == s[k] by {
        lemma_coeffs_bytes_index(s, k);
        lemma_subrange_of_subrange(b, start, 12 * (c as int), 12 * k, 12);
        lemma_coeff_roundtrip(b, start + 12 * k, s[k]);
    };
    assert(Seq::new(c as nat, |k: int| coeff_at(b, start + 12 * k)) =~= s);
}

/// An auxiliary array parses back from its own bytes.
proof fn lemma_parse_grid_vec3_of_enc(b: Seq<u8>, base: int, off: u32, c: u32, s: Seq<[u32; 3]>)
    requires
        off != 0,
        s.len() == c,
        0 <= base,
        base + off + 12 * (c as int) <= b.len(),
        b.subrange(base + off, base + off + 12 * (c as int)) == vec3s_bytes(s),
    ensures
        parse_grid_vec3(b, base, off, c) == Ok::<Option<Seq<[u32; 3]>>, ShanError>(Some(s)),
{
    let start = base + off;
    lemma_vec3s_bytes_len(s);
    assert forall|k: int| 0 <= k < c implies vec3_at(b, start + 12 * k) == s[k] by {
        lemma_vec3s_bytes_index(s, k);
        lemma_subrange_of_subrange(b, start, 12 * (c as int), 12 * k, 12);
        lemma_vec3_roundtrip(b, start + 12 * k, s[k]);
    };
    assert(Seq::new(c as nat, |k: int| vec3_at(b, start + 12 * k)) =~= s);
}

/// A whole record parses back from its own bytes, provided its index and
/// coefficient arrays are present so that the recomputed offsets are
/// faithful.
#[verifier::rlimit(100)]
proof fn lemma_parse_tpcb_of_enc(b: Seq<u8>, pos: int, t: TpcbV)
    requires
        t.wf(),
        t.inner.offsets_faithful(),
        0 <= pos,
        pos + tpcb_len(t.inner) <= b.len(),
        b.subrange(pos, pos + tpcb_len(t.inner)) == tpcb_enc(t.inner),
    ensures
        parse_tpcb(b, pos) == Ok::<TpcbV, ShanError>(t),
{
    let ti = t.inner;
    let c = ti.header.grid_cell_count;
    let len = tpcb_len(ti);
    let eb = tpcb_enc(ti);
    let ind = ti.grid_indices->Some_0;
    let sh = ti.grid_sh_coefficients->Some_0;
    lemma_tpcb_enc_len(ti);
    lemma_u16s_bytes_len(ind);
    lemma_coeffs_bytes_len(sh);
    assert(opt_len(ti.grid_unk_values, 12) >= 0);
    match ti.grid_unk_values {
        Some(u) => lemma_vec3s_bytes_len(u),
        None => {},
    }
    lemma_subrange_of_subrange(b, pos, len, 0, 4);
    assert(eb.subrange(0, 4) =~= magic_tpcb());
    assert(b.subrange(pos, pos + 4) == magic_tpcb());
    lemma_subrange_of_subrange(b, pos, len, 4, 4);
    assert(eb.subrange(4, 8) =~= u32_bytes(96));
    lemma_le32_at_of_subrange(b, pos + 4, 96);
    lemma_subrange_of_subrange(b, pos, len, 8, 4);
    assert(eb.subrange(8, 12) =~= u32_bytes(tpcb_offset2(c)));
    lemma_le32_at_of_subrange(b, pos + 8, tpcb_offset2(c));
    lemma_subrange_of_subrange(b, pos, len, 12, 4);
    assert(eb.subrange(12, 16) =~= u32_bytes(tpcb_offset3(ti)));
    lemma_le32_at_of_subrange(b, pos + 12, tpcb_offset3(ti));
    lemma_subrange_of_subrange(b, pos, len, 16, 80);
    assert(eb.subrange(16, 96) =~= header_bytes(ti.header));
    lemma_header_roundtrip(b, pos + 16, ti.header);
    assert(header_at(b, pos + 16) == ti.header);
    // the index array, at offset 96
    lemma_subrange_of_subrange(b, pos, len, 96, 2 * (c as int));
    assert(eb.subrange(96, 96 + 2 * (c as int)) =~= u16s_bytes(ind));
    lemma_parse_grid_u16_of_enc(b, pos, 96, c, ind);
    // the coefficient array, right after the indices
    let o2 = tpcb_offset2(c);
    assert(o2 == 96 + 2 * (c as int));
    lemma_subrange_of_subrange(b, pos, len, 96 + 2 * (c as int), 12 * (c as int));
    assert(eb.subrange(96 + 2 * (c as int), 96 + 14 * (c as int)) =~= coeffs_bytes(sh));
    lemma_parse_grid_coeffs_of_enc(b, pos, o2, c, sh);
    // the auxiliary array, if present, after the coefficients
    let o3 = tpcb_offset3(ti);
    match ti.grid_unk_values {
        None => {
            assert(o3 == 0);
            assert(parse_grid_vec3(b, pos, o3, c) == Ok::<Option<Seq<[u32; 3]>>, ShanError>(None));
        },
        Some(u) => {
            assert(o3 == 96 + 14 * (c as int));
            lemma_subrange_of_subrange(b, pos, len, 96 + 14 * (c as int), 12 * (c as int));
            assert(eb.subrange(96 + 14 * (c as int), 96 + 26 * (c as int)) =~= vec3s_bytes(u));
            lemma_parse_grid_vec3_of_enc(b, pos, o3, c, u);
        },
    }
    assert(parse_tpcb(b, pos) == Ok::<TpcbV, ShanError>(t));
}

/// Inside the record region, the bytes of record `j` sit at its aligned
/// position, whatever records follow it.
#[verifier::rlimit(100)]
proof fn lemma_blob_record_bytes(ts: Seq<Option<TpcbV>>, j: int, k: int, pos: int, t: TpcbV)
    requires
        0 <= j < k,
        pos >= 0,
        ts[j] == Some(t),
    ensures
        records_blob(ts, k, pos).subrange(
            pad16(records_end(ts, j, pos)) - pos,
            pad16(records_end(ts, j, pos)) - pos + tpcb_len(t.inner),
        ) == tpcb_enc(t.inner),
    decreases k,
{
    let e = records_end(ts, j, pos);
    let a = pad16(e) - pos;
    let l = tpcb_len(t.inner);
    lemma_records_end_ge(ts, j, pos);
    lemma_tpcb_enc_len(t.inner);
    lemma_records_blob_len(ts, j, pos);
    if k == j + 1 {
        assert(records_blob(ts, k, pos).subrange(a, a + l) =~= tpcb_enc(t.inner));
    } else {
        lemma_blob_record_bytes(ts, j, k - 1, pos, t);
        lemma_records_blob_len(ts, k - 1, pos);
        lemma_records_blob_len(ts, j + 1, pos);
        lemma_records_end_mono(ts, j + 1, k - 1, pos);
        assert(records_end(ts, j + 1, pos) == pad16(e) + l);
        assert(records_blob(ts, k, pos).subrange(a, a + l) =~= records_blob(
            ts,
            k - 1,
            pos,
        ).subrange(a, a + l));
    }
}

/// Following the first `k` pointers of an encoded container yields the
/// first `k` records back.
proof fn lemma_parse_records_of_enc(v: ShanV, b: Seq<u8>, k: int)
    requires
        v.round_trippable(),
        b.len() == records_end(v.tpcbs, v.tpcbs.len() as int, rec_start(v)),
        b.subrange(rec_start(v), b.len() as int) == records_blob(
            v.tpcbs,
            v.tpcbs.len() as int,
            rec_start(v),
        ),
        forall|j: int|
            0 <= j < v.tpcbs.len() ==> le32_at(b, 128 + 4 * (v.tpcb_count as int) + 4 * j)
                == rec_ptr(v.tpcbs, j, rec_start(v)),
        0 <= k <= v.tpcbs.len(),
    ensures
        parse_records(b, 128 + 4 * (v.tpcb_count as int), k) == Ok::<Seq<Option<TpcbV>>, ShanError>(
            v.tpcbs.take(k),
        ),
    decreases k,
{
    let ts = v.tpcbs;
    let n = ts.len() as int;
    let st = rec_start(v);
    let ptrs = 128 + 4 * (v.tpcb_count as int);
    if k == 0 {
        assert(ts.take(0) =~= Seq::<Option<TpcbV>>::empty());
    } else {
        lemma_parse_records_of_enc(v, b, k - 1);
        let p = le32_at(b, ptrs + 4 * (k - 1));
        assert(p == rec_ptr(ts, k - 1, st));
        lemma_records_end_ge(ts, k - 1, st);
        lemma_records_end_mono(ts, k, n, st);
        match ts[k - 1] {
            None => {
                assert(p == 0);
                assert(ts.take(k) =~= ts.take(k - 1).push(None));
            },
            Some(t) => {
                let e = records_end(ts, k - 1, st);
                lemma_tpcb_enc_len(t.inner);
                assert(records_end(ts, k, st) == pad16(e) + tpcb_len(t.inner));
                assert(pad16(e) <= u32::MAX);
                assert(p == pad16(e) as u32);
                assert(p as int == pad16(e));
                assert(p != 0);
                lemma_blob_record_bytes(ts, k - 1, n, st, t);
                lemma_records_blob_len(ts, n, st);
                lemma_subrange_of_subrange(
                    b,
                    st,
                    b.len() - st,
                    pad16(e) - st,
                    tpcb_len(t.inner),
                );
                assert(b.subrange(pad16(e), pad16(e) + tpcb_len(t.inner)) == tpcb_enc(t.inner));
                assert(t.wf() && t.inner.offsets_faithful());
                lemma_parse_tpcb_of_enc(b, pad16(e), t);
                assert(ts.take(k) =~= ts.take(k - 1).push(Some(t)));
            },
        }
    }
}

/// Decoding an encoded container yields the container back, for every
/// well-formed container whose present records keep their index and
/// coefficient arrays.  In particular a record's auxiliary array stays
/// absent across the trip: its offset field is written as zero and decodes
/// to an absent array again.
#[verifier::rlimit(100)]
pub proof fn lemma_shan_roundtrip(v: ShanV)
    requires
        v.round_trippable(),
    ensures
        parse_shan(shan_enc(v)) == Ok::<ShanV, ShanError>(v),
{
    let b = shan_enc(v);
    let ts = v.tpcbs;
    let n = ts.len() as int;
    let c = v.tpcb_count as int;
    let st = rec_start(v);
    let frames = v.tpcb_starting_frames;
    let ptrs = 128 + 4 * c;
    lemma_records_blob_len(ts, n, st);
    lemma_records_end_mono(ts, 0, n, st);
    lemma_u32s_bytes_len(frames);
    let pt = Seq::new(ts.len(), |j: int| rec_ptr(ts, j, st));
    lemma_u32s_bytes_len(pt);
    assert(shan_prefix(v).len() == 128);
    assert(st == 128 + 8 * c);
    assert(b.len() == records_end(ts, n, st));
    // the four regions of the buffer
    assert(b.subrange(0, 128) =~= shan_prefix(v));
    assert(b.subrange(128, 128 + 4 * c) =~= u32s_bytes(frames));
    assert(b.subrange(128 + 4 * c, 128 + 8 * c) =~= ptr_table(v));
    assert(b.subrange(st, b.len() as int) =~= records_blob(ts, n, st));
    // the fixed prefix parses to the scalar fields and the name
    lemma_subrange_of_subrange(b, 0, 128, 0, 4);
    assert(shan_prefix(v).subrange(0, 4) =~= magic_shan());
    assert(b.subrange(0, 4) == magic_shan());
    lemma_subrange_of_subrange(b, 0, 128, 4, 4);
    assert(shan_prefix(v).subrange(4, 8) =~= u32_bytes(v.unk1));
    lemma_le32_at_of_subrange(b, 4, v.unk1);
    lemma_subrange_of_subrange(b, 0, 128, 8, 4);
    assert(shan_prefix(v).subrange(8, 12) =~= u32_bytes(v.tpcb_count));
    lemma_le32_at_of_subrange(b, 8, v.tpcb_count);
    lemma_subrange_of_subrange(b, 0, 128, 12, 4);
    assert(shan_prefix(v).subrange(12, 16) =~= u32_bytes(v.unk3));
    lemma_le32_at_of_subrange(b, 12, v.unk3);
    lemma_subrange_of_subrange(b, 0, 128, 16, 4);
    assert(shan_prefix(v).subrange(16, 20) =~= u32_bytes(v.name.length));
    lemma_le32_at_of_subrange(b, 16, v.name.length);
    let nl = v.name.bytes.len() as int;
    lemma_subrange_of_subrange(b, 0, 128, 20, nl);
    assert(shan_prefix(v).subrange(20, 20 + nl) =~= v.name.bytes);
    assert(b.subrange(20, 20 + nl) == v.name.bytes);
    assert(parse_shan_prefix(b) == Ok::<(u32, u32, u32, crate::shan::NameStrV), ShanError>(
        (v.unk1, v.tpcb_count, v.unk3, v.name),
    ));
    // the starting frames parse back
    assert forall|j: int| 0 <= j < c implies le32_at(b, 128 + 4 * j) == frames[j] by {
        lemma_u32s_bytes_index(frames, j);
        lemma_subrange_of_subrange(b, 128, 4 * c, 4 * j, 4);
        lemma_le32_at_of_subrange(b, 128 + 4 * j, frames[j]);
    };
    assert(Seq::new(v.tpcb_count as nat, |j: int| le32_at(b, 128 + 4 * j)) =~= frames);
    assert(parse_frames(b, v.tpcb_count) == Ok::<Seq<u32>, ShanError>(frames));
    // the pointer table reads back
    assert forall|j: int| 0 <= j < n implies le32_at(b, ptrs + 4 * j) == rec_ptr(ts, j, st) by {
        lemma_u32s_bytes_index(pt, j);
        lemma_subrange_of_subrange(b, 128 + 4 * c, 4 * c, 4 * j, 4);
        lemma_le32_at_of_subrange(b, ptrs + 4 * j, pt[j]);
    };
    // and every record with it
    lemma_parse_records_of_enc(v, b, n);
    assert(ts.take(n) =~= ts);
    assert(parse_ptr_records(b, v.tpcb_count) == Ok::<Seq<Option<TpcbV>>, ShanError>(ts));
    assert(parse_shan(b) == Ok::<ShanV, ShanError>(v));
}

/// An absent auxiliary array survives a decode, encode, decode cycle: its
/// offset field is written as zero again, so it parses back absent.
pub proof fn lemma_absent_aux_preserved(v: ShanV, k: int)
    requires
        v.round_trippable(),
        0 <= k < v.tpcbs.len(),
        v.tpcbs[k] matches Some(t) && t.inner.grid_unk_values is None,
    ensures
        v.tpcbs[k] matches Some(t) ==> tpcb_offset3(t.inner) == 0,
        parse_shan(shan_enc(v)) matches Ok(w) && w.tpcbs[k] matches Some(t2)
            && t2.inner.grid_unk_values is None,
{
    lemma_shan_roundtrip(v);
}

} // verus!
