//! The low-level codec for SHAN containers stored in .shpcanim or .shpc files.
//!
//! A container is decoded from and encoded to a flat byte buffer.  All
//! multi-byte scalars are little-endian.  Fields that hold IEEE-754 binary32
//! values in the file (grid spacing, dimensions, ranges and the two
//! quantization parameters) are carried as their 32-bit bit patterns, which
//! keeps the codec exact and free of any rounding concern.
//!
//! Layout of a container: bytes 0..4 hold the magic `"SHAN"`, then three
//! 32-bit scalars, then a length-prefixed name inside a fixed region that
//! ends at byte 128, then `tpcb_count` starting frames, then `tpcb_count`
//! absolute 32-bit pointers (0 = null) to TPCB records, each record aligned
//! to 16 bytes.
//!
//! Layout of a TPCB record: magic `"TPCB"`, three offsets relative to the
//! record start (0 = absent), a fixed 80-byte header, then the arrays the
//! offsets address, each of `grid_cell_count` elements.

use crate::bytes::{
    le16_at, le32_at, push_u16_le, push_u32_le, read_u16_le, read_u32_le, u16_bytes, u32_bytes,
};
use crate::format::{
    coeff_at, coeff_bytes, coeffs_bytes, header_at, header_bytes, lemma_records_end_ge,
    lemma_records_end_mono, magic_shan, magic_tpcb, opt_coeffs_bytes, opt_len, opt_u16s_bytes,
    opt_vec3s_bytes, pad16, parse_frames, parse_grid_coeffs, parse_grid_u16, parse_grid_vec3,
    parse_ptr_records, parse_records, parse_shan, parse_shan_prefix, parse_tpcb, ptr_table,
    range_check_len, rec_ptr, rec_start, records_blob, records_end, shan_enc, shan_prefix,
    tpcb_enc, tpcb_len, tpcb_offset2, tpcb_offset3, u16s_bytes, u32s_bytes, vec3_at, vec3_bytes,
    vec3s_bytes, zero_bytes,
};
use vstd::prelude::*;

verus! {

/// Ways a decode can fail.  Offsets are absolute byte positions in the
/// decoded buffer.
#[derive(Debug, Clone, PartialEq, Eq)]
pub enum ShanError {
    /// A 4-byte magic tag did not match the expected tag.
    BadMagic { offset: u64, found: [u8; 4] },
    /// A read that starts inside the buffer needs more bytes than remain.
    TruncatedInput { offset: u64, needed: u64 },
    /// A required absolute position lies beyond the end of the buffer.
    SeekFailure { offset: u64 },
}

/// A length-prefixed byte string, decoded lossily to UTF-8 on request.
#[derive(Debug, Clone, PartialEq)]
pub struct NameStr {
    length: u32,
    bytes: Vec<u8>,
}

pub ghost struct NameStrV {
    pub length: u32,
    pub bytes: Seq<u8>,
}

impl View for NameStr {
    type V = NameStrV;

    closed spec fn view(&self) -> NameStrV {
        NameStrV { length: self.length, bytes: self.bytes@ }
    }
}

impl NameStrV {
    /// The length prefix matches the bytes and the name fits inside the
    /// fixed region of the container header, whose last byte is byte 127.
    pub open spec fn wf(self) -> bool {
        &&& self.length == self.bytes.len()
        &&& self.bytes.len() <= 108
    }
}

/// What `String::from_utf8_lossy` yields for bytes that are not valid
/// UTF-8: the decoding with every invalid sequence replaced by U+FFFD.  It
/// depends on the bytes alone.
pub uninterp spec fn lossy_repaired_utf8(bytes: Seq<u8>) -> Seq<char>;

/// Sequence of characters that `String::from_utf8_lossy` yields for the
/// given bytes: valid UTF-8 decodes to its own characters unchanged,
/// anything else to its repaired decoding.
pub open spec fn lossy_utf8(bytes: Seq<u8>) -> Seq<char> {
    if vstd::utf8::valid_utf8(bytes) {
        vstd::utf8::decode_utf8(bytes)
    } else {
        lossy_repaired_utf8(bytes)
    }
}

/// Relies on `String::from_utf8_lossy`: the result depends on the bytes
/// alone, and valid UTF-8 decodes to its own characters unchanged.
#[verifier::external_body]
fn from_utf8_lossy(b: &Vec<u8>) -> (r: String)
    ensures
        r@ == lossy_utf8(b@),
        !vstd::utf8::valid_utf8(b@) ==> r@ == lossy_repaired_utf8(b@),
{
    String::from_utf8_lossy(b).into_owned()
}

impl NameStr {
    /// Builds a name from a string; the stored bytes are the UTF-8 bytes of
    /// the string and the prefix is their count.
    pub fn from_string(s: &String) -> (r: NameStr)
        requires
            vstd::utf8::encode_utf8(s@).len() <= u32::MAX,
        ensures
            r@.bytes == vstd::utf8::encode_utf8(s@),
            r@.length == r@.bytes.len(),
    {
        let bytes = s.as_str().as_bytes_vec();
        let length = bytes.len() as u32;
        NameStr { length, bytes }
    }

    /// The stored bytes decoded as UTF-8, with invalid sequences replaced.
    pub fn to_string_lossy(&self) -> (r: String)
        ensures
            r@ == lossy_utf8(self@.bytes),
    {
        from_utf8_lossy(&self.bytes)
    }

    /// Number of stored bytes.
    pub fn byte_len(&self) -> (r: usize)
        ensures
            r == self@.bytes.len(),
    {
        self.bytes.len()
    }
}

/// The fixed header of a TPCB record.  The `xyz` fields and `unk5`/`unk6`
/// hold IEEE-754 binary32 bit patterns.
#[derive(Debug, Clone, Copy, PartialEq)]
pub struct TpcbHeader {
    pub unk1_1: u16,
    pub unk1_2: u16,
    pub grid_cell_count_xyz: [u32; 3],
    /// `grid_dimensions_xyz / (grid_cell_count_xyz - 1)` per axis, 1.0 where
    /// the axis has at most one cell.
    pub grid_spacing_xyz: [u32; 3],
    /// `grid_range_max_xyz - grid_range_min_xyz` per axis.
    pub grid_dimensions_xyz: [u32; 3],
    pub grid_range_min_xyz: [u32; 3],
    pub grid_range_max_xyz: [u32; 3],
    pub unk4: u32,
    /// Quantization shift parameter.
    pub unk5: u32,
    /// Quantization scale parameter.
    pub unk6: u32,
    /// The product of the counts in `grid_cell_count_xyz`; the length of
    /// every array the record stores.
    pub grid_cell_count: u32,
}

/// Quantized spherical-harmonic coefficients of one grid cell: four packed
/// bytes for each of the three color channels.
#[derive(Debug, Clone, Copy, PartialEq)]
pub struct CompressedShCoefficients {
    pub r: [u8; 4],
    pub g: [u8; 4],
    pub b: [u8; 4],
}

/// An optional fixed-count array of a TPCB record: absent when its offset
/// field is zero.
#[derive(Debug, Clone, PartialEq)]
pub struct Grid<T>(pub Option<Vec<T>>);

impl<T> View for Grid<T> {
    type V = Option<Seq<T>>;

    open spec fn view(&self) -> Option<Seq<T>> {
        match self.0 {
            Some(v) => Some(v@),
            None => None,
        }
    }
}

/// The body of a TPCB record: the fixed header and the three optional
/// arrays.
#[derive(Debug, Clone, PartialEq)]
pub struct TpcbInner {
    pub header: TpcbHeader,
    /// The range `0..grid_cell_count`, one index per cell.
    pub grid_indices: Grid<u16>,
    /// Compressed coefficients in row-major order for x, then y, then z.
    pub grid_sh_coefficients: Grid<CompressedShCoefficients>,
    /// Opaque per-cell vectors of three binary32 bit patterns.
    pub grid_unk_values: Grid<[u32; 3]>,
}

pub ghost struct TpcbInnerV {
    pub header: TpcbHeader,
    pub grid_indices: Option<Seq<u16>>,
    pub grid_sh_coefficients: Option<Seq<CompressedShCoefficients>>,
    pub grid_unk_values: Option<Seq<[u32; 3]>>,
}

impl View for TpcbInner {
    type V = TpcbInnerV;

    open spec fn view(&self) -> TpcbInnerV {
        TpcbInnerV {
            header: self.header,
            grid_indices: self.grid_indices@,
            grid_sh_coefficients: self.grid_sh_coefficients@,
            grid_unk_values: self.grid_unk_values@,
        }
    }
}

/// One probe-grid record of the container.
#[derive(Debug, Clone, PartialEq)]
pub struct Tpcb {
    pub inner: TpcbInner,
}

pub ghost struct TpcbV {
    pub inner: TpcbInnerV,
}

impl View for Tpcb {
    type V = TpcbV;

    open spec fn view(&self) -> TpcbV {
        TpcbV { inner: self.inner@ }
    }
}

impl TpcbInnerV {
    /// Every array that is present has exactly `grid_cell_count` elements,
    /// and the offset fields the encoder derives from that count fit in 32
    /// bits.
    pub open spec fn wf(self) -> bool {
        &&& (self.grid_indices matches Some(s) ==> s.len() == self.header.grid_cell_count)
        &&& (self.grid_sh_coefficients matches Some(s) ==> s.len()
            == self.header.grid_cell_count)
        &&& (self.grid_unk_values matches Some(s) ==> s.len() == self.header.grid_cell_count)
        &&& 96 + 14 * (self.header.grid_cell_count as int) <= u32::MAX
    }
}

impl TpcbV {
    pub open spec fn wf(self) -> bool {
        self.inner.wf()
    }
}

/// A Spherical Harmonic ANimation (SHAN) container, such as chara.shpcanim.
#[derive(Debug, Clone, PartialEq)]
pub struct Shan {
    /// Some sort of angle; on rebuild from the high-level model, the largest
    /// starting frame.
    pub unk1: u32,
    pub tpcb_count: u32,
    /// Observed as 0 or 1.
    pub unk3: u32,
    pub name: NameStr,
    pub tpcb_starting_frames: Vec<u32>,
    pub tpcbs: Vec<Option<Tpcb>>,
}

pub ghost struct ShanV {
    pub unk1: u32,
    pub tpcb_count: u32,
    pub unk3: u32,
    pub name: NameStrV,
    pub tpcb_starting_frames: Seq<u32>,
    pub tpcbs: Seq<Option<TpcbV>>,
}

/// The views of a sequence of optional records.
pub open spec fn tpcbs_view(ts: Seq<Option<Tpcb>>) -> Seq<Option<TpcbV>> {
    Seq::new(
        ts.len(),
        |i: int|
            match ts[i] {
                Some(t) => Some(t@),
                None => None,
            },
    )
}

impl View for Shan {
    type V = ShanV;

    open spec fn view(&self) -> ShanV {
        ShanV {
            unk1: self.unk1,
            tpcb_count: self.tpcb_count,
            unk3: self.unk3,
            name: self.name@,
            tpcb_starting_frames: self.tpcb_starting_frames@,
            tpcbs: tpcbs_view(self.tpcbs@),
        }
    }
}

// ---------------------------------------------------------------------------
// Decoding
// ---------------------------------------------------------------------------
/// The view of a decode outcome: the view of the value on success, the
/// error itself on failure.
pub open spec fn tpcb_result_view(r: Result<Tpcb, ShanError>) -> Result<TpcbV, ShanError> {
    match r {
        Ok(t) => Ok(t@),
        Err(e) => Err(e),
    }
}

/// The view of a container decode outcome.
pub open spec fn shan_result_view(r: Result<Shan, ShanError>) -> Result<ShanV, ShanError> {
    match r {
        Ok(s) => Ok(s@),
        Err(e) => Err(e),
    }
}

/// The view of an optional-array decode outcome.
pub open spec fn grid_result_view<T>(r: Result<Grid<T>, ShanError>) -> Result<
    Option<Seq<T>>,
    ShanError,
> {
    match r {
        Ok(g) => Ok(g@),
        Err(e) => Err(e),
    }
}

/// Checks that `n` bytes can be read at position `pos` of a buffer of
/// `len` bytes, reporting how the read fails when it cannot be served.
fn check_range(len: usize, pos: u64, n: u64) -> (r: Option<ShanError>)
    requires
        pos + n <= u64::MAX,
    ensures
        r == range_check_len(len as int, pos as int, n as int),
{
    if pos > len as u64 {
        Some(ShanError::SeekFailure { offset: pos })
    } else if pos + n > len as u64 {
        Some(ShanError::TruncatedInput { offset: pos, needed: n })
    } else {
        None
    }
}

/// Reads the compressed coefficient triple at `pos`.
fn read_coeff(b: &[u8], pos: usize) -> (r: CompressedShCoefficients)
    requires
        pos + 12 <= b@.len(),
        b@.len() <= usize::MAX,
    ensures
        r == coeff_at(b@, pos as int),
{
    let rr = [b[pos], b[pos + 1], b[pos + 2], b[pos + 3]];
    let gg = [b[pos + 4], b[pos + 5], b[pos + 6], b[pos + 7]];
    let bb = [b[pos + 8], b[pos + 9], b[pos + 10], b[pos + 11]];
    proof {
        assert(rr@ =~= coeff_at(b@, pos as int).r@);
        assert(gg@ =~= coeff_at(b@, pos as int).g@);
        assert(bb@ =~= coeff_at(b@, pos as int).b@);
    }
    CompressedShCoefficients { r: rr, g: gg, b: bb }
}

/// Reads the triple of 32-bit values at `pos`.
fn read_vec3(b: &[u8], pos: usize) -> (r: [u32; 3])
    requires
        pos + 12 <= b@.len(),
        b@.len() <= usize::MAX,
    ensures
        r == vec3_at(b@, pos as int),
{
    let r = [read_u32_le(b, pos), read_u32_le(b, pos + 4), read_u32_le(b, pos + 8)];
    proof {
        assert(r@ =~= vec3_at(b@, pos as int)@);
    }
    r
}

/// Reads the fixed record header at `pos`.
fn read_header(b: &[u8], pos: usize) -> (h: TpcbHeader)
    requires
        pos + 80 <= b@.len(),
        b@.len() <= usize::MAX,
    ensures
        h == header_at(b@, pos as int),
{
    TpcbHeader {
        unk1_1: read_u16_le(b, pos),
        unk1_2: read_u16_le(b, pos + 2),
        grid_cell_count_xyz: read_vec3(b, pos + 4),
        grid_spacing_xyz: read_vec3(b, pos + 16),
        grid_dimensions_xyz: read_vec3(b, pos + 28),
        grid_range_min_xyz: read_vec3(b, pos + 40),
        grid_range_max_xyz: read_vec3(b, pos + 52),
        unk4: read_u32_le(b, pos + 64),
        unk5: read_u32_le(b, pos + 68),
        unk6: read_u32_le(b, pos + 72),
        grid_cell_count: read_u32_le(b, pos + 76),
    }
}

/// Reads an optional array of cell indices at `base + off`, absent when
/// `off` is zero.
fn read_grid_u16(b: &[u8], base: u64, off: u32, c: u32) -> (r: Result<Grid<u16>, ShanError>)
    requires
        base <= u32::MAX,
    ensures
        grid_result_view(r) == parse_grid_u16(b@, base as int, off, c),
{
    if off == 0 {
        return Ok(Grid(None));
    }
    let start: u64 = base + off as u64;
    let n: u64 = 2 * (c as u64);
    if let Some(e) = check_range(b.len(), start, n) {
        return Err(e);
    }
    let mut v: Vec<u16> = Vec::new();
    let mut k: u32 = 0;
    while k < c
        invariant
            k <= c,
            base <= u32::MAX,
            start == base + off as u64,
            off != 0,
            start + 2 * (c as int) <= b@.len(),
            b@.len() <= usize::MAX,
            v@ == Seq::new(k as nat, |i: int| le16_at(b@, start as int + 2 * i)),
        decreases c - k,
    {
        proof {
            assert(start + 2 * (k as u64) + 2 <= b@.len());
        }
        let idx = (start + 2 * (k as u64)) as usize;
        let x = read_u16_le(b, idx);
        v.push(x);
        k = k + 1;
        proof {
            assert(v@ =~= Seq::new(k as nat, |i: int| le16_at(b@, start as int + 2 * i)));
        }
    }
    proof {
        assert(v@ =~= Seq::new(c as nat, |i: int| le16_at(b@, start as int + 2 * i)));
    }
    Ok(Grid(Some(v)))
}

/// Reads an optional array of compressed coefficient triples.
fn read_grid_coeffs(b: &[u8], base: u64, off: u32, c: u32) -> (r: Result<
    Grid<CompressedShCoefficients>,
    ShanError,
>)
    requires
        base <= u32::MAX,
    ensures
        grid_result_view(r) == parse_grid_coeffs(b@, base as int, off, c),
{
    if off == 0 {
        return Ok(Grid(None));
    }
    let start: u64 = base + off as u64;
    let n: u64 = 12 * (c as u64);
    if let Some(e) = check_range(b.len(), start, n) {
        return Err(e);
    }
    let mut v: Vec<CompressedShCoefficients> = Vec::new();
    let mut k: u32 = 0;
    while k < c
        invariant
            k <= c,
            base <= u32::MAX,
            start == base + off as u64,
            off != 0,
            start + 12 * (c as int) <= b@.len(),
            b@.len() <= usize::MAX,
            v@ == Seq::new(k as nat, |i: int| coeff_at(b@, start as int + 12 * i)),
        decreases c - k,
    {
        proof {
            assert(start + 12 * (k as u64) + 12 <= b@.len());
        }
        let idx = (start + 12 * (k as u64)) as usize;
        let x = read_coeff(b, idx);
        v.push(x);
        k = k + 1;
        proof {
            assert(v@ =~= Seq::new(k as nat, |i: int| coeff_at(b@, start as int + 12 * i)));
        }
    }
    proof {
        assert(v@ =~= Seq::new(c as nat, |i: int| coeff_at(b@, start as int + 12 * i)));
    }
    Ok(Grid(Some(v)))
}

/// Reads an optional array of 32-bit triples.
fn read_grid_vec3(b: &[u8], base: u64, off: u32, c: u32) -> (r: Result<Grid<[u32; 3]>, ShanError>)
    requires
        base <= u32::MAX,
    ensures
        grid_result_view(r) == parse_grid_vec3(b@, base as int, off, c),
{
    if off == 0 {
        return Ok(Grid(None));
    }
    let start: u64 = base + off as u64;
    let n: u64 = 12 * (c as u64);
    if let Some(e) = check_range(b.len(), start, n) {
        return Err(e);
    }
    let mut v: Vec<[u32; 3]> = Vec::new();
    let mut k: u32 = 0;
    while k < c
        invariant
            k <= c,
            base <= u32::MAX,
            start == base + off as u64,
            off != 0,
            start + 12 * (c as int) <= b@.len(),
            b@.len() <= usize::MAX,
            v@ == Seq::new(k as nat, |i: int| vec3_at(b@, start as int + 12 * i)),
        decreases c - k,
    {
        proof {
            assert(start + 12 * (k as u64) + 12 <= b@.len());
        }
        let idx = (start + 12 * (k as u64)) as usize;
        let x = read_vec3(b, idx);
        v.push(x);
        k = k + 1;
        proof {
            assert(v@ =~= Seq::new(k as nat, |i: int| vec3_at(b@, start as int + 12 * i)));
        }
    }
    proof {
        assert(v@ =~= Seq::new(c as nat, |i: int| vec3_at(b@, start as int + 12 * i)));
    }
    Ok(Grid(Some(v)))
}

impl Tpcb {
    /// Decodes the TPCB record at absolute position `pos` of the buffer.
    pub fn read_at(b: &[u8], pos: u64) -> (r: Result<Tpcb, ShanError>)
        requires
            pos <= u32::MAX,
        ensures
            tpcb_result_view(r) == parse_tpcb(b@, pos as int),
    {
        if let Some(e) = check_range(b.len(), pos, 4) {
            return Err(e);
        }
        let p = pos as usize;
        let m = [b[p], b[p + 1], b[p + 2], b[p + 3]];
        proof {
            assert(m@ =~= b@.subrange(pos as int, pos as int + 4));
            assert(magic_tpcb() =~= seq![0x54u8, 0x50u8, 0x43u8, 0x42u8]);
        }
        if !(m[0] == 0x54 && m[1] == 0x50 && m[2] == 0x43 && m[3] == 0x42) {
            proof {
                assert(b@.subrange(pos as int, pos as int + 4) != magic_tpcb());
            }
            return Err(ShanError::BadMagic { offset: pos, found: m });
        }
        proof {
            assert(b@.subrange(pos as int, pos as int + 4) =~= magic_tpcb());
        }
        if let Some(e) = check_range(b.len(), pos + 4, 92) {
            return Err(e);
        }
        let o1 = read_u32_le(b, p + 4);
        let o2 = read_u32_le(b, p + 8);
        let o3 = read_u32_le(b, p + 12);
        let header = read_header(b, p + 16);
        let c = header.grid_cell_count;
        let grid_indices = match read_grid_u16(b, pos, o1, c) {
            Ok(g) => g,
            Err(e) => {
                return Err(e);
            },
        };
        let grid_sh_coefficients = match read_grid_coeffs(b, pos, o2, c) {
            Ok(g) => g,
            Err(e) => {
                return Err(e);
            },
        };
        let grid_unk_values = match read_grid_vec3(b, pos, o3, c) {
            Ok(g) => g,
            Err(e) => {
                return Err(e);
            },
        };
        Ok(
            Tpcb {
                inner: TpcbInner { header, grid_indices, grid_sh_coefficients, grid_unk_values },
            },
        )
    }
}

/// An error at one record makes the whole record pass fail with it.
proof fn lemma_parse_records_err(b: Seq<u8>, ptrs: int, k: int, j: int)
    requires
        0 <= k <= j,
        parse_records(b, ptrs, k) is Err,
    ensures
        parse_records(b, ptrs, j) == parse_records(b, ptrs, k),
    decreases j - k,
{
    if j > k {
        lemma_parse_records_err(b, ptrs, k, j - 1);
    }
}

/// Reads the fixed part of a container: magic, the three scalar fields
/// and the length-prefixed name.
fn read_prefix(b: &[u8]) -> (r: Result<(u32, u32, u32, NameStr), ShanError>)
    ensures
        match r {
            Ok(p) => parse_shan_prefix(b@) == Ok::<(u32, u32, u32, NameStrV), ShanError>(
                (p.0, p.1, p.2, p.3@),
            ),
            Err(e) => parse_shan_prefix(b@) == Err::<(u32, u32, u32, NameStrV), ShanError>(e),
        },
{
    if let Some(e) = check_range(b.len(), 0, 4) {
        return Err(e);
    }
    let m = [b[0], b[1], b[2], b[3]];
    proof {
        assert(m@ =~= b@.subrange(0, 4));
        assert(magic_shan() =~= seq![0x53u8, 0x48u8, 0x41u8, 0x4eu8]);
    }
    if !(m[0] == 0x53 && m[1] == 0x48 && m[2] == 0x41 && m[3] == 0x4e) {
        proof {
            assert(b@.subrange(0, 4) != magic_shan());
        }
        return Err(ShanError::BadMagic { offset: 0, found: m });
    }
    proof {
        assert(b@.subrange(0, 4) =~= magic_shan());
    }
    if let Some(e) = check_range(b.len(), 4, 16) {
        return Err(e);
    }
    let unk1 = read_u32_le(b, 4);
    let tpcb_count = read_u32_le(b, 8);
    let unk3 = read_u32_le(b, 12);
    let length = read_u32_le(b, 16);
    if let Some(e) = check_range(b.len(), 20, length as u64) {
        return Err(e);
    }
    let mut name_bytes: Vec<u8> = Vec::new();
    let mut i: u32 = 0;
    while i < length
        invariant
            i <= length,
            20 + length as int <= b@.len(),
            b@.len() <= usize::MAX,
            name_bytes@ == b@.subrange(20, 20 + i as int),
        decreases length - i,
    {
        proof {
            assert(20 + (i as u64) < b@.len());
        }
        name_bytes.push(b[(20 + i as u64) as usize]);
        i = i + 1;
        proof {
            assert(name_bytes@ =~= b@.subrange(20, 20 + i as int));
        }
    }
    let name = NameStr { length, bytes: name_bytes };
    proof {
        assert(name@ == (NameStrV { length, bytes: b@.subrange(20, 20 + length as int) }));
    }
    Ok((unk1, tpcb_count, unk3, name))
}

/// Reads the `count` starting frames at absolute offset 128.
fn read_frames(b: &[u8], count: u32) -> (r: Result<Vec<u32>, ShanError>)
    ensures
        match r {
            Ok(v) => parse_frames(b@, count) == Ok::<Seq<u32>, ShanError>(v@),
            Err(e) => parse_frames(b@, count) == Err::<Seq<u32>, ShanError>(e),
        },
{
    if let Some(e) = check_range(b.len(), 128, 4 * (count as u64)) {
        return Err(e);
    }
    let mut v: Vec<u32> = Vec::new();
    let mut k: u32 = 0;
    while k < count
        invariant
            k <= count,
            128 + 4 * (count as int) <= b@.len(),
            b@.len() <= usize::MAX,
            v@ == Seq::new(k as nat, |i: int| le32_at(b@, 128 + 4 * i)),
        decreases count - k,
    {
        proof {
            assert(128 + 4 * (k as u64) + 4 <= b@.len());
        }
        let x = read_u32_le(b, (128 + 4 * (k as u64)) as usize);
        v.push(x);
        k = k + 1;
        proof {
            assert(v@ =~= Seq::new(k as nat, |i: int| le32_at(b@, 128 + 4 * i)));
        }
    }
    proof {
        assert(v@ =~= Seq::new(count as nat, |i: int| le32_at(b@, 128 + 4 * i)));
    }
    Ok(v)
}

/// Reads the pointer table that follows the starting frames, and decodes
/// every record it points to.
fn read_records(b: &[u8], count: u32) -> (r: Result<Vec<Option<Tpcb>>, ShanError>)
    ensures
        match r {
            Ok(v) => parse_ptr_records(b@, count) == Ok::<Seq<Option<TpcbV>>, ShanError>(
                tpcbs_view(v@),
            ),
            Err(e) => parse_ptr_records(b@, count) == Err::<Seq<Option<TpcbV>>, ShanError>(e),
        },
{
    let ptrs: u64 = 128 + 4 * (count as u64);
    if let Some(e) = check_range(b.len(), ptrs, 4 * (count as u64)) {
        return Err(e);
    }
    let mut tpcbs: Vec<Option<Tpcb>> = Vec::new();
    proof {
        assert(tpcbs_view(tpcbs@) =~= Seq::<Option<TpcbV>>::empty());
    }
    let mut k: u32 = 0;
    while k < count
        invariant
            k <= count,
            ptrs == 128 + 4 * (count as int),
            ptrs + 4 * (count as int) <= b@.len(),
            b@.len() <= usize::MAX,
            tpcbs@.len() == k,
            parse_records(b@, ptrs as int, k as int) == Ok::<Seq<Option<TpcbV>>, ShanError>(
                tpcbs_view(tpcbs@),
            ),
        decreases count - k,
    {
        let ghost prev = tpcbs_view(tpcbs@);
        proof {
            assert(ptrs + 4 * (k as u64) + 4 <= b@.len());
        }
        let ptr = read_u32_le(b, (ptrs + 4 * (k as u64)) as usize);
        if ptr == 0 {
            tpcbs.push(None);
            proof {
                assert(tpcbs_view(tpcbs@) =~= prev.push(None));
            }
        } else {
            match Tpcb::read_at(b, ptr as u64) {
                Ok(t) => {
                    tpcbs.push(Some(t));
                    proof {
                        assert(tpcbs_view(tpcbs@) =~= prev.push(Some(t@)));
                    }
                },
                Err(e) => {
                    proof {
                        assert(parse_records(b@, ptrs as int, k as int + 1) == Err::<
                            Seq<Option<TpcbV>>,
                            ShanError,
                        >(e));
                        lemma_parse_records_err(b@, ptrs as int, k as int + 1, count as int);
                    }
                    return Err(e);
                },
            }
        }
        k = k + 1;
    }
    Ok(tpcbs)
}

impl Shan {
    /// Decodes a whole container from a byte buffer.
    ///
    /// Succeeds exactly when [`parse_shan`] does on the buffer's bytes, and
    /// then returns the container it describes; fails with the same error
    /// otherwise.
    pub fn read(b: &[u8]) -> (r: Result<Shan, ShanError>)
        ensures
            shan_result_view(r) == parse_shan(b@),
    {
        let (unk1, tpcb_count, unk3, name) = match read_prefix(b) {
            Ok(p) => p,
            Err(e) => {
                return Err(e);
            },
        };
        let tpcb_starting_frames = match read_frames(b, tpcb_count) {
            Ok(v) => v,
            Err(e) => {
                return Err(e);
            },
        };
        let tpcbs = match read_records(b, tpcb_count) {
            Ok(v) => v,
            Err(e) => {
                return Err(e);
            },
        };
        Ok(Shan { unk1, tpcb_count, unk3, name, tpcb_starting_frames, tpcbs })
    }
}

// ---------------------------------------------------------------------------
// Encoding
// ---------------------------------------------------------------------------
/// Rounds `n` up to the next multiple of 16.
fn pad16_up(n: u64) -> (r: u64)
    requires
        n + 16 <= u64::MAX,
    ensures
        r == pad16(n as int),
{
    if n % 16 == 0 {
        n
    } else {
        n + (16 - n % 16)
    }
}

/// Appends `n` zero bytes.
fn push_zeros(out: &mut Vec<u8>, n: u64)
    ensures
        final(out)@ == old(out)@ + zero_bytes(n as int),
{
    let mut i: u64 = 0;
    while i < n
        invariant
            i <= n,
            out@ == old(out)@ + zero_bytes(i as int),
        decreases n - i,
    {
        out.push(0);
        i = i + 1;
        proof {
            assert(out@ =~= old(out)@ + zero_bytes(i as int));
        }
    }
}

/// Appends the 80 bytes of a record header.
fn push_header(out: &mut Vec<u8>, h: &TpcbHeader)
    ensures
        final(out)@ == old(out)@ + header_bytes(*h),
{
    push_u16_le(out, h.unk1_1);
    push_u16_le(out, h.unk1_2);
    push_u32_le(out, h.grid_cell_count_xyz[0]);
    push_u32_le(out, h.grid_cell_count_xyz[1]);
    push_u32_le(out, h.grid_cell_count_xyz[2]);
    push_u32_le(out, h.grid_spacing_xyz[0]);
    push_u32_le(out, h.grid_spacing_xyz[1]);
    push_u32_le(out, h.grid_spacing_xyz[2]);
    push_u32_le(out, h.grid_dimensions_xyz[0]);
    push_u32_le(out, h.grid_dimensions_xyz[1]);
    push_u32_le(out, h.grid_dimensions_xyz[2]);
    push_u32_le(out, h.grid_range_min_xyz[0]);
    push_u32_le(out, h.grid_range_min_xyz[1]);
    push_u32_le(out, h.grid_range_min_xyz[2]);
    push_u32_le(out, h.grid_range_max_xyz[0]);
    push_u32_le(out, h.grid_range_max_xyz[1]);
    push_u32_le(out, h.grid_range_max_xyz[2]);
    push_u32_le(out, h.unk4);
    push_u32_le(out, h.unk5);
    push_u32_le(out, h.unk6);
    push_u32_le(out, h.grid_cell_count);
    proof {
        assert(out@ =~= old(out)@ + header_bytes(*h));
    }
}

/// Appends the bytes of every cell index.
fn push_u16s(out: &mut Vec<u8>, v: &Vec<u16>)
    ensures
        final(out)@ == old(out)@ + u16s_bytes(v@),
{
    let mut k: usize = 0;
    proof {
        assert(v@.take(0) =~= Seq::<u16>::empty());
        assert(out@ =~= old(out)@ + u16s_bytes(v@.take(0)));
    }
    while k < v.len()
        invariant
            k <= v@.len(),
            out@ == old(out)@ + u16s_bytes(v@.take(k as int)),
        decreases v@.len() - k,
    {
        push_u16_le(out, v[k]);
        k = k + 1;
        proof {
            assert(v@.take(k as int).drop_last() =~= v@.take(k as int - 1));
            assert(out@ =~= old(out)@ + u16s_bytes(v@.take(k as int)));
        }
    }
    proof {
        assert(v@.take(v@.len() as int) =~= v@);
    }
}

/// Appends the given bytes unchanged.
fn push_byte_vec(out: &mut Vec<u8>, v: &Vec<u8>)
    ensures
        final(out)@ == old(out)@ + v@,
{
    let mut k: usize = 0;
    proof {
        assert(out@ =~= old(out)@ + v@.take(0));
    }
    while k < v.len()
        invariant
            k <= v@.len(),
            out@ == old(out)@ + v@.take(k as int),
        decreases v@.len() - k,
    {
        out.push(v[k]);
        k = k + 1;
        proof {
            assert(out@ =~= old(out)@ + v@.take(k as int));
        }
    }
    proof {
        assert(v@.take(v@.len() as int) =~= v@);
    }
}

/// Appends the bytes of every 32-bit value.
fn push_u32s(out: &mut Vec<u8>, v: &Vec<u32>)
    ensures
        final(out)@ == old(out)@ + u32s_bytes(v@),
{
    let mut k: usize = 0;
    proof {
        assert(v@.take(0) =~= Seq::<u32>::empty());
        assert(out@ =~= old(out)@ + u32s_bytes(v@.take(0)));
    }
    while k < v.len()
        invariant
            k <= v@.len(),
            out@ == old(out)@ + u32s_bytes(v@.take(k as int)),
        decreases v@.len() - k,
    {
        push_u32_le(out, v[k]);
        k = k + 1;
        proof {
            assert(v@.take(k as int).drop_last() =~= v@.take(k as int - 1));
            assert(out@ =~= old(out)@ + u32s_bytes(v@.take(k as int)));
        }
    }
    proof {
        assert(v@.take(v@.len() as int) =~= v@);
    }
}

/// Appends the twelve bytes of one compressed coefficient triple.
fn push_coeff(out: &mut Vec<u8>, c: &CompressedShCoefficients)
    ensures
        final(out)@ == old(out)@ + coeff_bytes(*c),
{
    out.push(c.r[0]);
    out.push(c.r[1]);
    out.push(c.r[2]);
    out.push(c.r[3]);
    out.push(c.g[0]);
    out.push(c.g[1]);
    out.push(c.g[2]);
    out.push(c.g[3]);
    out.push(c.b[0]);
    out.push(c.b[1]);
    out.push(c.b[2]);
    out.push(c.b[3]);
    proof {
        assert(out@ =~= old(out)@ + coeff_bytes(*c));
    }
}

/// Appends the bytes of every compressed coefficient triple.
fn push_coeffs(out: &mut Vec<u8>, v: &Vec<CompressedShCoefficients>)
    ensures
        final(out)@ == old(out)@ + coeffs_bytes(v@),
{
    let mut k: usize = 0;
    proof {
        assert(v@.take(0) =~= Seq::<CompressedShCoefficients>::empty());
        assert(out@ =~= old(out)@ + coeffs_bytes(v@.take(0)));
    }
    while k < v.len()
        invariant
            k <= v@.len(),
            out@ == old(out)@ + coeffs_bytes(v@.take(k as int)),
        decreases v@.len() - k,
    {
        push_coeff(out, &v[k]);
        k = k + 1;
        proof {
            assert(v@.take(k as int).drop_last() =~= v@.take(k as int - 1));
            assert(out@ =~= old(out)@ + coeffs_bytes(v@.take(k as int)));
        }
    }
    proof {
        assert(v@.take(v@.len() as int) =~= v@);
    }
}

/// Appends the twelve bytes of one triple of 32-bit values.
fn push_vec3(out: &mut Vec<u8>, v: &[u32; 3])
    ensures
        final(out)@ == old(out)@ + vec3_bytes(*v),
{
    push_u32_le(out, v[0]);
    push_u32_le(out, v[1]);
    push_u32_le(out, v[2]);
    proof {
        assert(out@ =~= old(out)@ + vec3_bytes(*v));
    }
}

/// Appends the bytes of every triple of 32-bit values.
fn push_vec3s(out: &mut Vec<u8>, v: &Vec<[u32; 3]>)
    ensures
        final(out)@ == old(out)@ + vec3s_bytes(v@),
{
    let mut k: usize = 0;
    proof {
        assert(v@.take(0) =~= Seq::<[u32; 3]>::empty());
        assert(out@ =~= old(out)@ + vec3s_bytes(v@.take(0)));
    }
    while k < v.len()
        invariant
            k <= v@.len(),
            out@ == old(out)@ + vec3s_bytes(v@.take(k as int)),
        decreases v@.len() - k,
    {
        push_vec3(out, &v[k]);
        k = k + 1;
        proof {
            assert(v@.take(k as int).drop_last() =~= v@.take(k as int - 1));
            assert(out@ =~= old(out)@ + vec3s_bytes(v@.take(k as int)));
        }
    }
    proof {
        assert(v@.take(v@.len() as int) =~= v@);
    }
}

impl Tpcb {
    /// Records are aligned to 16 bytes inside a container.
    pub fn alignment_in_bytes() -> (r: u64)
        ensures
            r == 16,
    {
        16
    }

    /// Size in bytes of this record once encoded.
    pub fn encoded_len(&self) -> (r: u64)
        requires
            tpcb_len(self@.inner) <= u32::MAX,
        ensures
            r == tpcb_len(self@.inner),
    {
        let mut r: u64 = 96;
        if let Some(v) = &self.inner.grid_indices.0 {
            proof {
                assert(opt_len(self@.inner.grid_indices, 2) == 2 * v@.len());
            }
            r = r + 2 * (v.len() as u64);
        }
        if let Some(v) = &self.inner.grid_sh_coefficients.0 {
            proof {
                assert(opt_len(self@.inner.grid_sh_coefficients, 12) == 12 * v@.len());
            }
            r = r + 12 * (v.len() as u64);
        }
        if let Some(v) = &self.inner.grid_unk_values.0 {
            proof {
                assert(opt_len(self@.inner.grid_unk_values, 12) == 12 * v@.len());
            }
            r = r + 12 * (v.len() as u64);
        }
        r
    }

    /// Appends the encoding of this record: magic, the three offset fields
    /// recomputed from the data present, the header, then the arrays that
    /// are present.
    #[verifier::rlimit(100)]
    pub fn write_to(&self, out: &mut Vec<u8>)
        requires
            self@.wf(),
        ensures
            final(out)@ == old(out)@ + tpcb_enc(self@.inner),
    {
        let ghost t = self@.inner;
        out.push(0x54);
        out.push(0x50);
        out.push(0x43);
        out.push(0x42);
        proof {
            assert(out@ =~= old(out)@ + magic_tpcb());
        }
        let c = self.inner.header.grid_cell_count;
        let offset1: u32 = 96;
        let offset2: u32 = 96 + c * 2;
        let offset3: u32 = if self.inner.grid_unk_values.0.is_some() {
            96 + c * 14
        } else {
            0
        };
        push_u32_le(out, offset1);
        push_u32_le(out, offset2);
        push_u32_le(out, offset3);
        proof {
            assert(offset2 == tpcb_offset2(t.header.grid_cell_count));
            assert(offset3 == tpcb_offset3(t));
            assert(out@ =~= old(out)@ + magic_tpcb() + u32_bytes(96) + u32_bytes(
                tpcb_offset2(t.header.grid_cell_count),
            ) + u32_bytes(tpcb_offset3(t)));
        }
        push_header(out, &self.inner.header);
        let ghost mid = old(out)@ + magic_tpcb() + u32_bytes(96) + u32_bytes(
            tpcb_offset2(t.header.grid_cell_count),
        ) + u32_bytes(tpcb_offset3(t)) + header_bytes(t.header);
        proof {
            assert(out@ =~= mid);
        }
        if let Some(v) = &self.inner.grid_indices.0 {
            push_u16s(out, v);
        }
        proof {
            assert(out@ =~= mid + opt_u16s_bytes(t.grid_indices));
        }
        if let Some(v) = &self.inner.grid_sh_coefficients.0 {
            push_coeffs(out, v);
        }
        proof {
            assert(out@ =~= mid + opt_u16s_bytes(t.grid_indices) + opt_coeffs_bytes(
                t.grid_sh_coefficients,
            ));
        }
        if let Some(v) = &self.inner.grid_unk_values.0 {
            push_vec3s(out, v);
        }
        proof {
            assert(out@ =~= old(out)@ + tpcb_enc(t));
        }
    }
}

impl Shan {
    /// Decides whether the encoder accepts this container: exactly when its
    /// view is well-formed.
    pub fn is_wf(&self) -> (r: bool)
        ensures
            r == self@.wf(),
    {
        if self.name.bytes.len() > 108 {
            return false;
        }
        if self.name.length as u64 != self.name.bytes.len() as u64 {
            return false;
        }
        if self.tpcb_starting_frames.len() as u64 != self.tpcb_count as u64 {
            return false;
        }
        if self.tpcbs.len() as u64 != self.tpcb_count as u64 {
            return false;
        }
        let ghost ts = self@.tpcbs;
        let ghost st = rec_start(self@);
        let start: u64 = 128 + 8 * (self.tpcb_count as u64);
        proof {
            assert(start == st);
        }
        let n = self.tpcbs.len();
        if start > 0xffff_ffff {
            proof {
                lemma_records_end_mono(ts, 0, ts.len() as int, st);
                assert(!self@.wf());
            }
            return false;
        }
        let mut end: u64 = start;
        let mut k: usize = 0;
        while k < n
            invariant
                k <= n,
                n == ts.len(),
                ts == self@.tpcbs,
                st == rec_start(self@),
                start == st,
                n == self.tpcbs@.len(),
                self@.name.wf(),
                self@.tpcb_starting_frames.len() == self@.tpcb_count,
                self@.tpcbs.len() == self@.tpcb_count,
                forall|j: int| 0 <= j < k ==> (#[trigger] ts[j] matches Some(t) ==> t.wf()),
                end == records_end(ts, k as int, st),
                end <= u32::MAX,
            decreases n - k,
        {
            match &self.tpcbs[k] {
                None => {
                    proof {
                        assert(ts[k as int] is None);
                    }
                },
                Some(t) => {
                    proof {
                        assert(ts[k as int] == Some(t@));
                    }
                    let c = t.inner.header.grid_cell_count;
                    if 96 + 14 * (c as u64) > 0xffff_ffff {
                        proof {
                            assert(!t@.wf());
                            assert(!self@.wf());
                        }
                        return false;
                    }
                    let mut tl: u64 = 96;
                    if let Some(vv) = &t.inner.grid_indices.0 {
                        if vv.len() as u64 != c as u64 {
                            proof {
                                assert(!t@.wf());
                                assert(!self@.wf());
                            }
                            return false;
                        }
                        tl = tl + 2 * (vv.len() as u64);
                    }
                    if let Some(vv) = &t.inner.grid_sh_coefficients.0 {
                        if vv.len() as u64 != c as u64 {
                            proof {
                                assert(!t@.wf());
                                assert(!self@.wf());
                            }
                            return false;
                        }
                        tl = tl + 12 * (vv.len() as u64);
                    }
                    if let Some(vv) = &t.inner.grid_unk_values.0 {
                        if vv.len() as u64 != c as u64 {
                            proof {
                                assert(!t@.wf());
                                assert(!self@.wf());
                            }
                            return false;
                        }
                        tl = tl + 12 * (vv.len() as u64);
                    }
                    proof {
                        assert(t@.wf());
                        assert(tl == tpcb_len(t@.inner));
                    }
                    let p = pad16_up(end);
                    let newend = p + tl;
                    proof {
                        assert(newend == records_end(ts, k as int + 1, st));
                    }
                    if newend > 0xffff_ffff {
                        proof {
                            lemma_records_end_mono(ts, k as int + 1, ts.len() as int, st);
                            assert(!self@.wf());
                        }
                        return false;
                    }
                    end = newend;
                },
            }
            k = k + 1;
        }
        true
    }

    /// Encodes the container, laying the bytes out exactly as [`shan_enc`]
    /// describes: the 128-byte prefix, the starting frames, the pointer
    /// table, then each present record in order on a 16-byte boundary.
    ///
    /// When the container is round-trippable, decoding the output yields
    /// the container back.
    #[verifier::rlimit(100)]
    pub fn write(&self) -> (out: Vec<u8>)
        requires
            self@.wf(),
        ensures
            out@ == shan_enc(self@),
            self@.round_trippable() ==> parse_shan(out@) == Ok::<ShanV, ShanError>(self@),
    {
        let ghost v = self@;
        let ghost ts = self@.tpcbs;
        let ghost st = rec_start(self@);
        let mut out: Vec<u8> = Vec::new();
        out.push(0x53);
        out.push(0x48);
        out.push(0x41);
        out.push(0x4e);
        push_u32_le(&mut out, self.unk1);
        push_u32_le(&mut out, self.tpcb_count);
        push_u32_le(&mut out, self.unk3);
        push_u32_le(&mut out, self.name.length);
        push_byte_vec(&mut out, &self.name.bytes);
        let nlen = self.name.bytes.len();
        push_zeros(&mut out, (108 - nlen) as u64);
        proof {
            assert(out@ =~= shan_prefix(v));
        }
        push_u32s(&mut out, &self.tpcb_starting_frames);
        let ghost pre2 = shan_prefix(v) + u32s_bytes(v.tpcb_starting_frames);
        proof {
            assert(out@ =~= pre2);
        }
        let start: u64 = 128 + 8 * (self.tpcb_count as u64);
        proof {
            assert(start == st);
        }
        let n = self.tpcbs.len();
        let mut ptr_vals: Vec<u32> = Vec::new();
        let mut end: u64 = start;
        let mut k: usize = 0;
        proof {
            lemma_records_end_mono(ts, 0, ts.len() as int, st);
        }
        while k < n
            invariant
                k <= n,
                n == ts.len(),
                self@.wf(),
                ts == self@.tpcbs,
                st == rec_start(self@),
                start == st,
                n == self.tpcbs@.len(),
                end == records_end(ts, k as int, st),
                end <= u32::MAX,
                ptr_vals@ == Seq::new(k as nat, |j: int| rec_ptr(ts, j, st)),
            decreases n - k,
        {
            proof {
                lemma_records_end_mono(ts, k as int + 1, ts.len() as int, st);
                lemma_records_end_ge(ts, k as int, st);
            }
            match &self.tpcbs[k] {
                None => {
                    ptr_vals.push(0);
                    proof {
                        assert(ts[k as int] is None);
                        assert(ptr_vals@ =~= Seq::new(
                            (k + 1) as nat,
                            |j: int| rec_ptr(ts, j, st),
                        ));
                    }
                },
                Some(t) => {
                    proof {
                        assert(ts[k as int] == Some(t@));
                        assert(records_end(ts, k as int + 1, st) == pad16(end as int) + tpcb_len(
                            t@.inner,
                        ));
                        assert(pad16(end as int) >= end as int);
                        assert(opt_len(t@.inner.grid_indices, 2) >= 0);
                        assert(opt_len(t@.inner.grid_sh_coefficients, 12) >= 0);
                        assert(opt_len(t@.inner.grid_unk_values, 12) >= 0);
                    }
                    let p = pad16_up(end);
                    let tl = t.encoded_len();
                    ptr_vals.push(p as u32);
                    end = p + tl;
                    proof {
                        assert(ptr_vals@ =~= Seq::new(
                            (k + 1) as nat,
                            |j: int| rec_ptr(ts, j, st),
                        ));
                    }
                },
            }
            k = k + 1;
        }
        push_u32s(&mut out, &ptr_vals);
        let ghost pre3 = pre2 + ptr_table(v);
        proof {
            assert(ptr_vals@ =~= Seq::new(ts.len(), |j: int| rec_ptr(ts, j, st)));
            assert(out@ =~= pre3);
        }
        let mut end2: u64 = start;
        let mut k2: usize = 0;
        proof {
            lemma_records_end_mono(ts, 0, ts.len() as int, st);
        }
        while k2 < n
            invariant
                k2 <= n,
                n == ts.len(),
                self@.wf(),
                ts == self@.tpcbs,
                st == rec_start(self@),
                start == st,
                n == self.tpcbs@.len(),
                end2 == records_end(ts, k2 as int, st),
                end2 <= u32::MAX,
                pre3 == shan_prefix(v) + u32s_bytes(v.tpcb_starting_frames) + ptr_table(v),
                v == self@,
                out@ == pre3 + records_blob(ts, k2 as int, st),
            decreases n - k2,
        {
            proof {
                lemma_records_end_mono(ts, k2 as int + 1, ts.len() as int, st);
                lemma_records_end_ge(ts, k2 as int, st);
            }
            match &self.tpcbs[k2] {
                None => {
                    proof {
                        assert(ts[k2 as int] is None);
                        assert(records_blob(ts, k2 as int + 1, st) == records_blob(
                            ts,
                            k2 as int,
                            st,
                        ));
                    }
                },
                Some(t) => {
                    proof {
                        assert(ts[k2 as int] == Some(t@));
                        assert(records_end(ts, k2 as int + 1, st) == pad16(end2 as int)
                            + tpcb_len(t@.inner));
                        assert(pad16(end2 as int) >= end2 as int);
                        assert(opt_len(t@.inner.grid_indices, 2) >= 0);
                        assert(opt_len(t@.inner.grid_sh_coefficients, 12) >= 0);
                        assert(opt_len(t@.inner.grid_unk_values, 12) >= 0);
                    }
                    let p = pad16_up(end2);
                    push_zeros(&mut out, p - end2);
                    t.write_to(&mut out);
                    let tl = t.encoded_len();
                    end2 = p + tl;
                    proof {
                        assert(out@ =~= pre3 + records_blob(ts, k2 as int + 1, st));
                    }
                },
            }
            k2 = k2 + 1;
        }
        proof {
            assert(out@ =~= shan_enc(v));
            if v.round_trippable() {
                crate::roundtrip::lemma_shan_roundtrip(v);
            }
        }
        out
    }
}

} // verus!
