//! The byte layout of the SHAN format, as specification functions.
//!
//! `shan_enc` gives the exact bytes the encoder emits for a container, and
//! `parse_shan` gives the exact outcome of decoding a buffer.  The executable
//! codec in [`crate::shan`] is verified against these functions, and
//! [`crate::roundtrip`] proves that parsing an encoded container yields the
//! container back.

use crate::bytes::{le16_at, le32_at, u16_bytes, u32_bytes};
use crate::shan::{CompressedShCoefficients, ShanError, ShanV, TpcbHeader, TpcbInnerV, TpcbV};
use vstd::prelude::*;

verus! {

/// The container magic, the bytes of `"SHAN"`.
pub open spec fn magic_shan() -> Seq<u8> {
    seq![0x53u8, 0x48u8, 0x41u8, 0x4eu8]
}

/// The record magic, the bytes of `"TPCB"`.
pub open spec fn magic_tpcb() -> Seq<u8> {
    seq![0x54u8, 0x50u8, 0x43u8, 0x42u8]
}

/// `n` zero bytes.
pub open spec fn zero_bytes(n: int) -> Seq<u8>
    recommends
        n >= 0,
{
    Seq::new(n as nat, |i: int| 0u8)
}

/// `n` rounded up to the next multiple of 16.
pub open spec fn pad16(n: int) -> int
    recommends
        n >= 0,
{
    if n % 16 == 0 {
        n
    } else {
        n + (16 - n % 16)
    }
}

/// The bytes of every element of `s`, in order, each element encoded by `f`.
pub open spec fn flat_bytes<T>(s: Seq<T>, f: spec_fn(T) -> Seq<u8>) -> Seq<u8>
    decreases s.len(),
{
    if s.len() == 0 {
        Seq::empty()
    } else {
        flat_bytes(s.drop_last(), f) + f(s.last())
    }
}

/// The little-endian bytes of a sequence of 16-bit values.
pub open spec fn u16s_bytes(s: Seq<u16>) -> Seq<u8> {
    flat_bytes(s, |x: u16| u16_bytes(x))
}

/// The little-endian bytes of a sequence of 32-bit values.
pub open spec fn u32s_bytes(s: Seq<u32>) -> Seq<u8> {
    flat_bytes(s, |x: u32| u32_bytes(x))
}

/// The twelve bytes of one compressed coefficient triple.
pub open spec fn coeff_bytes(c: CompressedShCoefficients) -> Seq<u8> {
    c.r@ + c.g@ + c.b@
}

/// The bytes of a sequence of compressed coefficient triples.
pub open spec fn coeffs_bytes(s: Seq<CompressedShCoefficients>) -> Seq<u8> {
    flat_bytes(s, |x: CompressedShCoefficients| coeff_bytes(x))
}

/// The twelve bytes of one triple of 32-bit values.
pub open spec fn vec3_bytes(v: [u32; 3]) -> Seq<u8> {
    u32_bytes(v[0]) + u32_bytes(v[1]) + u32_bytes(v[2])
}

/// The bytes of a sequence of triples of 32-bit values.
pub open spec fn vec3s_bytes(s: Seq<[u32; 3]>) -> Seq<u8> {
    flat_bytes(s, |x: [u32; 3]| vec3_bytes(x))
}

/// The 80 bytes of the fixed record header.
pub open spec fn header_bytes(h: TpcbHeader) -> Seq<u8> {
    u16_bytes(h.unk1_1) + u16_bytes(h.unk1_2) + vec3_bytes(h.grid_cell_count_xyz) + vec3_bytes(
        h.grid_spacing_xyz,
    ) + vec3_bytes(h.grid_dimensions_xyz) + vec3_bytes(h.grid_range_min_xyz) + vec3_bytes(
        h.grid_range_max_xyz,
    ) + u32_bytes(h.unk4) + u32_bytes(h.unk5) + u32_bytes(h.unk6) + u32_bytes(h.grid_cell_count)
}

/// Bytes occupied by an optional array whose elements are `w` bytes wide.
pub open spec fn opt_len<T>(g: Option<Seq<T>>, w: int) -> int {
    match g {
        Some(s) => s.len() * w,
        None => 0,
    }
}

/// Total size in bytes of an encoded record: 96 fixed bytes plus the arrays
/// that are present.
pub open spec fn tpcb_len(t: TpcbInnerV) -> int {
    96 + opt_len(t.grid_indices, 2) + opt_len(t.grid_sh_coefficients, 12) + opt_len(
        t.grid_unk_values,
        12,
    )
}

/// The second offset field of an encoded record: the fixed 96 bytes plus
/// two bytes per cell index.  Written whether or not the coefficient array
/// is present.
pub open spec fn tpcb_offset2(c: u32) -> u32 {
    (96 + c * 2) as u32
}

/// The third offset field of an encoded record: past the fixed bytes, the
/// indices and the coefficients when the auxiliary array is present, zero
/// when it is absent.
pub open spec fn tpcb_offset3(t: TpcbInnerV) -> u32 {
    if t.grid_unk_values is Some {
        (96 + t.header.grid_cell_count * 14) as u32
    } else {
        0
    }
}

/// The bytes of an optional array of cell indices.
pub open spec fn opt_u16s_bytes(g: Option<Seq<u16>>) -> Seq<u8> {
    match g {
        Some(s) => u16s_bytes(s),
        None => Seq::empty(),
    }
}

/// The bytes of an optional array of compressed coefficient triples.
pub open spec fn opt_coeffs_bytes(g: Option<Seq<CompressedShCoefficients>>) -> Seq<u8> {
    match g {
        Some(s) => coeffs_bytes(s),
        None => Seq::empty(),
    }
}

/// The bytes of an optional array of 32-bit triples.
pub open spec fn opt_vec3s_bytes(g: Option<Seq<[u32; 3]>>) -> Seq<u8> {
    match g {
        Some(s) => vec3s_bytes(s),
        None => Seq::empty(),
    }
}

/// The exact bytes of an encoded TPCB record: magic, the three offset
/// fields recomputed from the data present, the header, then the arrays
/// that are present, in order.
pub open spec fn tpcb_enc(t: TpcbInnerV) -> Seq<u8> {
    magic_tpcb() + u32_bytes(96) + u32_bytes(tpcb_offset2(t.header.grid_cell_count)) + u32_bytes(
        tpcb_offset3(t),
    ) + header_bytes(t.header) + opt_u16s_bytes(t.grid_indices) + opt_coeffs_bytes(
        t.grid_sh_coefficients,
    ) + opt_vec3s_bytes(t.grid_unk_values)
}

/// Position one past the last byte of the first `k` records, when the
/// region that holds them starts at `pos`.  Null records occupy no bytes;
/// each present record starts at a 16-byte boundary.
pub open spec fn records_end(ts: Seq<Option<TpcbV>>, k: int, pos: int) -> int
    decreases k,
{
    if k <= 0 {
        pos
    } else {
        let e = records_end(ts, k - 1, pos);
        match ts[k - 1] {
            None => e,
            Some(t) => pad16(e) + tpcb_len(t.inner),
        }
    }
}

/// The bytes of the first `k` records, alignment padding included.
pub open spec fn records_blob(ts: Seq<Option<TpcbV>>, k: int, pos: int) -> Seq<u8>
    decreases k,
{
    if k <= 0 {
        Seq::empty()
    } else {
        let blob = records_blob(ts, k - 1, pos);
        let e = records_end(ts, k - 1, pos);
        match ts[k - 1] {
            None => blob,
            Some(t) => blob + zero_bytes(pad16(e) - e) + tpcb_enc(t.inner),
        }
    }
}

/// A record region never shrinks: each record occupies a non-negative
/// number of bytes.
pub proof fn lemma_records_end_ge(ts: Seq<Option<TpcbV>>, k: int, pos: int)
    requires
        pos >= 0,
    ensures
        records_end(ts, k, pos) >= pos,
    decreases k,
{
    if k > 0 {
        lemma_records_end_ge(ts, k - 1, pos);
        let e = records_end(ts, k - 1, pos);
        match ts[k - 1] {
            None => {},
            Some(t) => {
                assert(opt_len(t.inner.grid_indices, 2) >= 0);
                assert(opt_len(t.inner.grid_sh_coefficients, 12) >= 0);
                assert(opt_len(t.inner.grid_unk_values, 12) >= 0);
            },
        }
    }
}

/// Processing more records never moves the end of the region backwards.
pub proof fn lemma_records_end_mono(ts: Seq<Option<TpcbV>>, j: int, k: int, pos: int)
    requires
        0 <= j <= k,
        pos >= 0,
    ensures
        records_end(ts, j, pos) <= records_end(ts, k, pos),
    decreases k - j,
{
    if k > j {
        lemma_records_end_mono(ts, j, k - 1, pos);
        lemma_records_end_ge(ts, k - 1, pos);
        match ts[k - 1] {
            None => {},
            Some(t) => {
                assert(opt_len(t.inner.grid_indices, 2) >= 0);
                assert(opt_len(t.inner.grid_sh_coefficients, 12) >= 0);
                assert(opt_len(t.inner.grid_unk_values, 12) >= 0);
            },
        }
    }
}

/// The bytes of a sequence of cell indices are two per index.
pub proof fn lemma_u16s_bytes_len(s: Seq<u16>)
    ensures
        u16s_bytes(s).len() == 2 * s.len(),
    decreases s.len(),
{
    if s.len() > 0 {
        lemma_u16s_bytes_len(s.drop_last());
    }
}

/// The bytes of a sequence of 32-bit values are four per value.
pub proof fn lemma_u32s_bytes_len(s: Seq<u32>)
    ensures
        u32s_bytes(s).len() == 4 * s.len(),
    decreases s.len(),
{
    if s.len() > 0 {
        lemma_u32s_bytes_len(s.drop_last());
    }
}

/// The bytes of a sequence of coefficient triples are twelve per triple.
pub proof fn lemma_coeffs_bytes_len(s: Seq<CompressedShCoefficients>)
    ensures
        coeffs_bytes(s).len() == 12 * s.len(),
    decreases s.len(),
{
    if s.len() > 0 {
        lemma_coeffs_bytes_len(s.drop_last());
    }
}

/// The bytes of a sequence of 32-bit triples are twelve per triple.
pub proof fn lemma_vec3s_bytes_len(s: Seq<[u32; 3]>)
    ensures
        vec3s_bytes(s).len() == 12 * s.len(),
    decreases s.len(),
{
    if s.len() > 0 {
        lemma_vec3s_bytes_len(s.drop_last());
    }
}

/// An encoded record is exactly `tpcb_len` bytes long.
#[verifier::rlimit(100)]
pub proof fn lemma_tpcb_enc_len(t: TpcbInnerV)
    ensures
        tpcb_enc(t).len() == tpcb_len(t),
{
    match t.grid_indices {
        Some(s) => lemma_u16s_bytes_len(s),
        None => {},
    }
    match t.grid_sh_coefficients {
        Some(s) => lemma_coeffs_bytes_len(s),
        None => {},
    }
    match t.grid_unk_values {
        Some(s) => lemma_vec3s_bytes_len(s),
        None => {},
    }
}

/// The record region holds exactly the bytes between its start and its
/// end.
pub proof fn lemma_records_blob_len(ts: Seq<Option<TpcbV>>, k: int, pos: int)
    requires
        pos >= 0,
    ensures
        records_blob(ts, k, pos).len() == records_end(ts, k, pos) - pos,
    decreases k,
{
    if k > 0 {
        lemma_records_blob_len(ts, k - 1, pos);
        lemma_records_end_ge(ts, k - 1, pos);
        match ts[k - 1] {
            None => {},
            Some(t) => lemma_tpcb_enc_len(t.inner),
        }
    }
}

/// The pointer stored for record `k`: zero for a null record, else the
/// absolute position where the record is placed.
pub open spec fn rec_ptr(ts: Seq<Option<TpcbV>>, k: int, pos: int) -> u32 {
    match ts[k] {
        None => 0u32,
        Some(_) => pad16(records_end(ts, k, pos)) as u32,
    }
}

/// Absolute position where the record region of a container starts: right
/// after the fixed 128-byte prefix, the starting frames and the pointer
/// table.
pub open spec fn rec_start(v: ShanV) -> int {
    128 + 4 * v.tpcb_starting_frames.len() as int + 4 * v.tpcbs.len() as int
}

/// The first 128 bytes of an encoded container: magic, the three scalar
/// fields, the length-prefixed name, and zero padding up to byte 128.
pub open spec fn shan_prefix(v: ShanV) -> Seq<u8>
    recommends
        v.name.bytes.len() <= 108,
{
    magic_shan() + u32_bytes(v.unk1) + u32_bytes(v.tpcb_count) + u32_bytes(v.unk3) + u32_bytes(
        v.name.length,
    ) + v.name.bytes + zero_bytes(108 - v.name.bytes.len())
}

/// The pointer table of an encoded container.
pub open spec fn ptr_table(v: ShanV) -> Seq<u8> {
    u32s_bytes(Seq::new(v.tpcbs.len(), |k: int| rec_ptr(v.tpcbs, k, rec_start(v))))
}

/// The exact bytes of an encoded container.
pub open spec fn shan_enc(v: ShanV) -> Seq<u8>
    recommends
        v.wf(),
{
    shan_prefix(v) + u32s_bytes(v.tpcb_starting_frames) + ptr_table(v) + records_blob(
        v.tpcbs,
        v.tpcbs.len() as int,
        rec_start(v),
    )
}

impl ShanV {
    /// A container the encoder accepts: the name fits its region, the two
    /// per-record sequences match `tpcb_count`, every present record is
    /// well-formed, and the whole encoding fits in 32-bit pointers.
    pub open spec fn wf(self) -> bool {
        &&& self.name.wf()
        &&& self.tpcb_starting_frames.len() == self.tpcb_count
        &&& self.tpcbs.len() == self.tpcb_count
        &&& forall|k: int|
            0 <= k < self.tpcbs.len() ==> (#[trigger] self.tpcbs[k] matches Some(t) ==> t.wf())
        &&& records_end(self.tpcbs, self.tpcbs.len() as int, rec_start(self)) <= u32::MAX
    }
}

// ---------------------------------------------------------------------------
// Parsing
// ---------------------------------------------------------------------------
/// Why a read of `n` bytes at absolute position `pos` cannot be served, or
/// `None` when it can: a position beyond the buffer is a seek failure, a
/// read that starts inside the buffer but overruns it is a truncation.
pub open spec fn range_check_len(len: int, pos: int, n: int) -> Option<ShanError> {
    if pos > len {
        Some(ShanError::SeekFailure { offset: pos as u64 })
    } else if pos + n > len {
        Some(ShanError::TruncatedInput { offset: pos as u64, needed: n as u64 })
    } else {
        None
    }
}

/// As [`range_check_len`], against the length of `b`.
pub open spec fn range_check(b: Seq<u8>, pos: int, n: int) -> Option<ShanError> {
    range_check_len(b.len() as int, pos, n)
}

/// The compressed coefficient triple stored at `pos`.
pub open spec fn coeff_at(b: Seq<u8>, pos: int) -> CompressedShCoefficients
    recommends
        0 <= pos,
        pos + 12 <= b.len(),
{
    CompressedShCoefficients {
        r: [b[pos], b[pos + 1], b[pos + 2], b[pos + 3]],
        g: [b[pos + 4], b[pos + 5], b[pos + 6], b[pos + 7]],
        b: [b[pos + 8], b[pos + 9], b[pos + 10], b[pos + 11]],
    }
}

/// The triple of 32-bit values stored at `pos`.
pub open spec fn vec3_at(b: Seq<u8>, pos: int) -> [u32; 3]
    recommends
        0 <= pos,
        pos + 12 <= b.len(),
{
    [le32_at(b, pos), le32_at(b, pos + 4), le32_at(b, pos + 8)]
}

/// The fixed record header stored at `pos`.
pub open spec fn header_at(b: Seq<u8>, pos: int) -> TpcbHeader
    recommends
        0 <= pos,
        pos + 80 <= b.len(),
{
    TpcbHeader {
        unk1_1: le16_at(b, pos),
        unk1_2: le16_at(b, pos + 2),
        grid_cell_count_xyz: vec3_at(b, pos + 4),
        grid_spacing_xyz: vec3_at(b, pos + 16),
        grid_dimensions_xyz: vec3_at(b, pos + 28),
        grid_range_min_xyz: vec3_at(b, pos + 40),
        grid_range_max_xyz: vec3_at(b, pos + 52),
        unk4: le32_at(b, pos + 64),
        unk5: le32_at(b, pos + 68),
        unk6: le32_at(b, pos + 72),
        grid_cell_count: le32_at(b, pos + 76),
    }
}

/// Parses an optional array of cell indices: absent when the offset field
/// is zero, else `c` 16-bit values at `base + off`.
pub open spec fn parse_grid_u16(b: Seq<u8>, base: int, off: u32, c: u32) -> Result<
    Option<Seq<u16>>,
    ShanError,
> {
    if off == 0 {
        Ok(None)
    } else {
        let start = base + off;
        match range_check(b, start, 2 * c) {
            Some(e) => Err(e),
            None => Ok(Some(Seq::new(c as nat, |k: int| le16_at(b, start + 2 * k)))),
        }
    }
}

/// Parses an optional array of compressed coefficient triples.
pub open spec fn parse_grid_coeffs(b: Seq<u8>, base: int, off: u32, c: u32) -> Result<
    Option<Seq<CompressedShCoefficients>>,
    ShanError,
> {
    if off == 0 {
        Ok(None)
    } else {
        let start = base + off;
        match range_check(b, start, 12 * c) {
            Some(e) => Err(e),
            None => Ok(Some(Seq::new(c as nat, |k: int| coeff_at(b, start + 12 * k)))),
        }
    }
}

/// Parses an optional array of 32-bit triples.
pub open spec fn parse_grid_vec3(b: Seq<u8>, base: int, off: u32, c: u32) -> Result<
    Option<Seq<[u32; 3]>>,
    ShanError,
> {
    if off == 0 {
        Ok(None)
    } else {
        let start = base + off;
        match range_check(b, start, 12 * c) {
            Some(e) => Err(e),
            None => Ok(Some(Seq::new(c as nat, |k: int| vec3_at(b, start + 12 * k)))),
        }
    }
}

/// Parses one TPCB record at absolute position `pos`: magic, the three
/// offset fields, the fixed header, then the three optional arrays, each
/// resolved relative to the record start and counted by `grid_cell_count`.
pub open spec fn parse_tpcb(b: Seq<u8>, pos: int) -> Result<TpcbV, ShanError> {
    match range_check(b, pos, 4) {
        Some(e) => Err(e),
        None => {
            if b.subrange(pos, pos + 4) != magic_tpcb() {
                Err(
                    ShanError::BadMagic {
                        offset: pos as u64,
                        found: [b[pos], b[pos + 1], b[pos + 2], b[pos + 3]],
                    },
                )
            } else {
                match range_check(b, pos + 4, 92) {
                    Some(e) => Err(e),
                    None => {
                        let o1 = le32_at(b, pos + 4);
                        let o2 = le32_at(b, pos + 8);
                        let o3 = le32_at(b, pos + 12);
                        let h = header_at(b, pos + 16);
                        let c = h.grid_cell_count;
                        match parse_grid_u16(b, pos, o1, c) {
                            Err(e) => Err(e),
                            Ok(grid_indices) => match parse_grid_coeffs(b, pos, o2, c) {
                                Err(e) => Err(e),
                                Ok(grid_sh_coefficients) => match parse_grid_vec3(
                                    b,
                                    pos,
                                    o3,
                                    c,
                                ) {
                                    Err(e) => Err(e),
                                    Ok(grid_unk_values) => Ok(
                                        TpcbV {
                                            inner: TpcbInnerV {
                                                header: h,
                                                grid_indices,
                                                grid_sh_coefficients,
                                                grid_unk_values,
                                            },
                                        },
                                    ),
                                },
                            },
                        }
                    },
                }
            }
        },
    }
}

/// Parses the records of a container, following the first `k` pointers of
/// the pointer table at `ptrs`.  A null pointer yields a null record.
pub open spec fn parse_records(b: Seq<u8>, ptrs: int, k: int) -> Result<
    Seq<Option<TpcbV>>,
    ShanError,
>
    decreases k,
{
    if k <= 0 {
        Ok(Seq::empty())
    } else {
        match parse_records(b, ptrs, k - 1) {
            Err(e) => Err(e),
            Ok(done) => {
                let p = le32_at(b, ptrs + 4 * (k - 1));
                if p == 0 {
                    Ok(done.push(None))
                } else {
                    match parse_tpcb(b, p as int) {
                        Err(e) => Err(e),
                        Ok(t) => Ok(done.push(Some(t))),
                    }
                }
            },
        }
    }
}

/// Parses the fixed part of a container: magic, the three scalar fields
/// and the length-prefixed name.  Yields `unk1`, `tpcb_count`, `unk3` and
/// the name.
pub open spec fn parse_shan_prefix(b: Seq<u8>) -> Result<
    (u32, u32, u32, crate::shan::NameStrV),
    ShanError,
> {
    match range_check(b, 0, 4) {
        Some(e) => Err(e),
        None => {
            if b.subrange(0, 4) != magic_shan() {
                Err(ShanError::BadMagic { offset: 0, found: [b[0], b[1], b[2], b[3]] })
            } else {
                match range_check(b, 4, 16) {
                    Some(e) => Err(e),
                    None => {
                        let length = le32_at(b, 16);
                        match range_check(b, 20, length as int) {
                            Some(e) => Err(e),
                            None => Ok(
                                (
                                    le32_at(b, 4),
                                    le32_at(b, 8),
                                    le32_at(b, 12),
                                    crate::shan::NameStrV {
                                        length,
                                        bytes: b.subrange(20, 20 + length),
                                    },
                                ),
                            ),
                        }
                    },
                }
            }
        },
    }
}

/// Parses the `count` starting frames at absolute offset 128.
pub open spec fn parse_frames(b: Seq<u8>, count: u32) -> Result<Seq<u32>, ShanError> {
    match range_check(b, 128, 4 * count) {
        Some(e) => Err(e),
        None => Ok(Seq::new(count as nat, |k: int| le32_at(b, 128 + 4 * k))),
    }
}

/// Parses the pointer table that follows the starting frames, and every
/// record it points to.
pub open spec fn parse_ptr_records(b: Seq<u8>, count: u32) -> Result<
    Seq<Option<TpcbV>>,
    ShanError,
> {
    let ptrs = 128 + 4 * count;
    match range_check(b, ptrs, 4 * count) {
        Some(e) => Err(e),
        None => parse_records(b, ptrs, count as int),
    }
}

/// Parses a whole container: magic, the three scalar fields, the
/// length-prefixed name, the starting frames at absolute offset 128, the
/// pointer table, and every record the table points to.
pub open spec fn parse_shan(b: Seq<u8>) -> Result<ShanV, ShanError> {
    match parse_shan_prefix(b) {
        Err(e) => Err(e),
        Ok(pre) => match parse_frames(b, pre.1) {
            Err(e) => Err(e),
            Ok(frames) => match parse_ptr_records(b, pre.1) {
                Err(e) => Err(e),
                Ok(tpcbs) => Ok(
                    ShanV {
                        unk1: pre.0,
                        tpcb_count: pre.1,
                        unk3: pre.2,
                        name: pre.3,
                        tpcb_starting_frames: frames,
                        tpcbs,
                    },
                ),
            },
        },
    }
}

} // verus!
