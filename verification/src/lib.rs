//! Decoding and encoding of SHAN spherical-harmonic probe-grid containers.
//!
//! A SHAN container stores a named sequence of TPCB probe-grid records keyed
//! by starting animation frame.  Each record holds a fixed header followed by
//! up to three optional arrays addressed by self-relative byte offsets that
//! may be null.  This crate decodes and encodes the whole container over a
//! flat byte buffer, proves that parsing an encoded container yields the
//! container back, and offers a higher-level model where each record is a
//! grid of per-cell quantized coefficient triples.
//!
//! Fields that hold IEEE-754 binary32 values in the file are carried as
//! their 32-bit bit patterns; expanding the quantized coefficients to
//! floating point is left to the caller.

use vstd::prelude::*;

pub mod bytes;
pub mod format;
pub mod roundtrip;
pub mod shan;

use crate::shan::{lossy_utf8, CompressedShCoefficients, Grid, NameStr, NameStrV, Shan, ShanV, Tpcb, TpcbHeader, TpcbInner, TpcbInnerV, TpcbV};

verus! {

/// The bit pattern of 1.0 as a binary32 value: the grid spacing used for
/// any axis with at most one cell.
pub const SPACING_ONE_BITS: u32 = 0x3f80_0000;

/// The decoded payload of one probe-grid record: the grid geometry, the
/// two quantization parameters, and one compressed coefficient triple per
/// cell in row-major order for x, then y, then z.
///
/// The `xyz` range fields and `unk5`/`unk6` hold binary32 bit patterns.
#[derive(Debug, Clone, PartialEq)]
pub struct GridCoefficients {
    pub grid_cell_count_xyz: [u32; 3],
    pub grid_range_min_xyz: [u32; 3],
    pub grid_range_max_xyz: [u32; 3],
    /// Quantization shift parameter.
    pub unk5: u32,
    /// Quantization scale parameter.
    pub unk6: u32,
    pub coefficients: Vec<CompressedShCoefficients>,
}

pub ghost struct GridCoefficientsV {
    pub grid_cell_count_xyz: [u32; 3],
    pub grid_range_min_xyz: [u32; 3],
    pub grid_range_max_xyz: [u32; 3],
    pub unk5: u32,
    pub unk6: u32,
    pub coefficients: Seq<CompressedShCoefficients>,
}

impl View for GridCoefficients {
    type V = GridCoefficientsV;

    open spec fn view(&self) -> GridCoefficientsV {
        GridCoefficientsV {
            grid_cell_count_xyz: self.grid_cell_count_xyz,
            grid_range_min_xyz: self.grid_range_min_xyz,
            grid_range_max_xyz: self.grid_range_max_xyz,
            unk5: self.unk5,
            unk6: self.unk6,
            coefficients: self.coefficients@,
        }
    }
}

/// One record of the high-level model: a probe grid and the frame at which
/// it starts.
#[derive(Debug, Clone, PartialEq)]
pub struct TpcbData {
    pub starting_frame: u32,
    pub coefficients: GridCoefficients,
}

pub ghost struct TpcbDataV {
    pub starting_frame: u32,
    pub coefficients: GridCoefficientsV,
}

impl View for TpcbData {
    type V = TpcbDataV;

    open spec fn view(&self) -> TpcbDataV {
        TpcbDataV { starting_frame: self.starting_frame, coefficients: self.coefficients@ }
    }
}

/// The high-level model of a whole container.
#[derive(Debug, Clone, PartialEq)]
pub struct ShanFile {
    pub name: String,
    pub tpcbs: Vec<TpcbData>,
}

pub ghost struct ShanFileV {
    pub name: Seq<char>,
    pub tpcbs: Seq<TpcbDataV>,
}

impl View for ShanFile {
    type V = ShanFileV;

    open spec fn view(&self) -> ShanFileV {
        ShanFileV {
            name: self.name@,
            tpcbs: Seq::new(self.tpcbs@.len(), |i: int| self.tpcbs@[i]@),
        }
    }
}

/// The values a rebuilt record header derives from floating-point range
/// arithmetic: the grid dimensions (range maximum minus range minimum, per
/// axis) and the spacing ratio (dimension divided by cell count minus one,
/// per axis), both as binary32 bit patterns.  The caller computes them;
/// the ratio is only used on axes with more than one cell.
#[derive(Debug, Clone, Copy, PartialEq)]
pub struct GridGeometry {
    pub grid_dimensions_xyz: [u32; 3],
    pub spacing_ratio_xyz: [u32; 3],
}

/// The spacing stored for one axis: the given ratio where the axis has
/// more than one cell, 1.0 otherwise.
pub open spec fn spacing_of(count: u32, ratio: u32) -> u32 {
    if count > 1 {
        ratio
    } else {
        SPACING_ONE_BITS
    }
}

/// The cell indices a rebuilt record stores: the identity sequence
/// `0, 1, ..., n - 1`.
pub open spec fn identity_indices(n: int) -> Seq<u16> {
    Seq::new(n as nat, |i: int| i as u16)
}

/// The header of a record rebuilt from decoded grid coefficients.
pub open spec fn rebuilt_header(g: GridCoefficientsV, geo: GridGeometry) -> TpcbHeader {
    TpcbHeader {
        unk1_1: 1,
        unk1_2: 35,
        grid_cell_count_xyz: g.grid_cell_count_xyz,
        grid_spacing_xyz: [
            spacing_of(g.grid_cell_count_xyz[0], geo.spacing_ratio_xyz[0]),
            spacing_of(g.grid_cell_count_xyz[1], geo.spacing_ratio_xyz[1]),
            spacing_of(g.grid_cell_count_xyz[2], geo.spacing_ratio_xyz[2]),
        ],
        grid_dimensions_xyz: geo.grid_dimensions_xyz,
        grid_range_min_xyz: g.grid_range_min_xyz,
        grid_range_max_xyz: g.grid_range_max_xyz,
        unk4: 12,
        unk5: g.unk5,
        unk6: g.unk6,
        grid_cell_count: g.coefficients.len() as u32,
    }
}

/// A record rebuilt from decoded grid coefficients: the recomputed header,
/// regenerated identity indices, and no coefficient or auxiliary array.
pub open spec fn rebuilt_tpcb(g: GridCoefficientsV, geo: GridGeometry) -> TpcbV {
    TpcbV {
        inner: TpcbInnerV {
            header: rebuilt_header(g, geo),
            grid_indices: Some(identity_indices(g.coefficients.len() as int)),
            grid_sh_coefficients: None,
            grid_unk_values: None,
        },
    }
}

/// The grid payload a record carries.
pub open spec fn grid_of_tpcb(t: TpcbV) -> GridCoefficientsV
    recommends
        t.inner.grid_sh_coefficients is Some,
{
    GridCoefficientsV {
        grid_cell_count_xyz: t.inner.header.grid_cell_count_xyz,
        grid_range_min_xyz: t.inner.header.grid_range_min_xyz,
        grid_range_max_xyz: t.inner.header.grid_range_max_xyz,
        unk5: t.inner.header.unk5,
        unk6: t.inner.header.unk6,
        coefficients: t.inner.grid_sh_coefficients->Some_0,
    }
}

/// The high-level model of a decoded container: each record paired with
/// its starting frame, the name decoded lossily.
pub open spec fn file_of_shan(s: ShanV) -> ShanFileV
    recommends
        s.tpcbs.len() == s.tpcb_starting_frames.len(),
        forall|k: int| 0 <= k < s.tpcbs.len() ==> s.tpcbs[k] is Some,
{
    ShanFileV {
        name: lossy_utf8(s.name.bytes),
        tpcbs: Seq::new(
            s.tpcbs.len(),
            |k: int|
                TpcbDataV {
                    starting_frame: s.tpcb_starting_frames[k],
                    coefficients: grid_of_tpcb(s.tpcbs[k]->Some_0),
                },
        ),
    }
}

/// The largest starting frame of the model's records, 0 when there are
/// none.
pub open spec fn max_frame(ts: Seq<TpcbDataV>) -> u32
    decreases ts.len(),
{
    if ts.len() == 0 {
        0
    } else {
        let m = max_frame(ts.drop_last());
        if ts.last().starting_frame > m {
            ts.last().starting_frame
        } else {
            m
        }
    }
}

/// The container rebuilt from the high-level model: `unk1` becomes the
/// largest starting frame, the flag `unk3` is reset to 0, and each record
/// is rebuilt with the geometry supplied for it.
pub open spec fn shan_of_file(f: ShanFileV, geo: Seq<GridGeometry>) -> ShanV
    recommends
        geo.len() == f.tpcbs.len(),
{
    ShanV {
        unk1: max_frame(f.tpcbs),
        tpcb_count: f.tpcbs.len() as u32,
        unk3: 0,
        name: NameStrV {
            length: vstd::utf8::encode_utf8(f.name).len() as u32,
            bytes: vstd::utf8::encode_utf8(f.name),
        },
        tpcb_starting_frames: Seq::new(f.tpcbs.len(), |k: int| f.tpcbs[k].starting_frame),
        tpcbs: Seq::new(
            f.tpcbs.len(),
            |k: int| Some(rebuilt_tpcb(f.tpcbs[k].coefficients, geo[k])),
        ),
    }
}

/// The spacing stored for one axis, as [`spacing_of`] says.
fn spacing_from(count: u32, ratio: u32) -> (r: u32)
    ensures
        r == spacing_of(count, ratio),
{
    if count > 1 {
        ratio
    } else {
        SPACING_ONE_BITS
    }
}

impl GridCoefficients {
    /// Extracts the grid payload of a record that carries its coefficient
    /// array.
    pub fn from_tpcb(t: &Tpcb) -> (r: GridCoefficients)
        requires
            t@.inner.grid_sh_coefficients is Some,
        ensures
            r@ == grid_of_tpcb(t@),
    {
        let src = match &t.inner.grid_sh_coefficients.0 {
            Some(v) => v,
            None => vstd::pervasive::unreached(),
        };
        let mut coefficients: Vec<CompressedShCoefficients> = Vec::new();
        let mut i: usize = 0;
        while i < src.len()
            invariant
                i <= src@.len(),
                coefficients@ == src@.take(i as int),
            decreases src@.len() - i,
        {
            coefficients.push(src[i]);
            i = i + 1;
            proof {
                assert(coefficients@ =~= src@.take(i as int));
            }
        }
        proof {
            assert(src@.take(src@.len() as int) =~= src@);
        }
        GridCoefficients {
            grid_cell_count_xyz: t.inner.header.grid_cell_count_xyz,
            grid_range_min_xyz: t.inner.header.grid_range_min_xyz,
            grid_range_max_xyz: t.inner.header.grid_range_max_xyz,
            unk5: t.inner.header.unk5,
            unk6: t.inner.header.unk6,
            coefficients,
        }
    }
}

impl Tpcb {
    /// Rebuilds a record from decoded grid coefficients, recomputing the
    /// header and regenerating the indices as the identity sequence.  The
    /// cell count must fit the 16-bit index type the format stores.
    pub fn from_grid(g: &GridCoefficients, geo: GridGeometry) -> (r: Tpcb)
        requires
            g@.coefficients.len() <= 0xffff,
        ensures
            r@ == rebuilt_tpcb(g@, geo),
    {
        let n = g.coefficients.len();
        let mut indices: Vec<u16> = Vec::new();
        let mut i: usize = 0;
        while i < n
            invariant
                i <= n,
                n <= 0xffff,
                indices@ == identity_indices(i as int),
            decreases n - i,
        {
            indices.push(i as u16);
            i = i + 1;
            proof {
                assert(indices@ =~= identity_indices(i as int));
            }
        }
        let header = TpcbHeader {
            unk1_1: 1,
            unk1_2: 35,
            grid_cell_count_xyz: g.grid_cell_count_xyz,
            grid_spacing_xyz: [
                spacing_from(g.grid_cell_count_xyz[0], geo.spacing_ratio_xyz[0]),
                spacing_from(g.grid_cell_count_xyz[1], geo.spacing_ratio_xyz[1]),
                spacing_from(g.grid_cell_count_xyz[2], geo.spacing_ratio_xyz[2]),
            ],
            grid_dimensions_xyz: geo.grid_dimensions_xyz,
            grid_range_min_xyz: g.grid_range_min_xyz,
            grid_range_max_xyz: g.grid_range_max_xyz,
            unk4: 12,
            unk5: g.unk5,
            unk6: g.unk6,
            grid_cell_count: n as u32,
        };
        proof {
            assert(header.grid_spacing_xyz =~= rebuilt_header(g@, geo).grid_spacing_xyz);
            assert(header == rebuilt_header(g@, geo));
        }
        Tpcb {
            inner: TpcbInner {
                header,
                grid_indices: Grid(Some(indices)),
                grid_sh_coefficients: Grid(None),
                grid_unk_values: Grid(None),
            },
        }
    }
}

impl ShanFile {
    /// Builds the high-level model of a decoded container whose records
    /// are all present and carry their coefficient arrays.
    pub fn from_shan(s: &Shan) -> (r: ShanFile)
        requires
            s@.tpcbs.len() == s@.tpcb_starting_frames.len(),
            forall|k: int|
                0 <= k < s@.tpcbs.len() ==> (#[trigger] s@.tpcbs[k] matches Some(t)
                    && t.inner.grid_sh_coefficients is Some),
        ensures
            r@ == file_of_shan(s@),
    {
        let name = s.name.to_string_lossy();
        let n = s.tpcbs.len();
        let mut tpcbs: Vec<TpcbData> = Vec::new();
        let mut k: usize = 0;
        while k < n
            invariant
                k <= n,
                n == s.tpcbs@.len(),
                s@.tpcbs.len() == s@.tpcb_starting_frames.len(),
                forall|j: int|
                    0 <= j < s@.tpcbs.len() ==> (#[trigger] s@.tpcbs[j] matches Some(t)
                        && t.inner.grid_sh_coefficients is Some),
                tpcbs@.len() == k,
                forall|j: int|
                    0 <= j < k ==> #[trigger] tpcbs@[j]@ == (TpcbDataV {
                        starting_frame: s@.tpcb_starting_frames[j],
                        coefficients: grid_of_tpcb(s@.tpcbs[j]->Some_0),
                    }),
            decreases n - k,
        {
            proof {
                assert(s@.tpcbs[k as int] matches Some(t)
                    && t.inner.grid_sh_coefficients is Some);
            }
            match &s.tpcbs[k] {
                Some(t) => {
                    let data = TpcbData {
                        starting_frame: s.tpcb_starting_frames[k],
                        coefficients: GridCoefficients::from_tpcb(t),
                    };
                    tpcbs.push(data);
                },
                None => {
                    proof {
                        assert(false);
                    }
                },
            }
            k = k + 1;
        }
        let r = ShanFile { name, tpcbs };
        proof {
            assert(r@.tpcbs =~= file_of_shan(s@).tpcbs);
        }
        r
    }
}

impl Shan {
    /// Rebuilds a container from the high-level model, one geometry entry
    /// per record: `unk1` becomes the largest starting frame, the flag is
    /// reset to 0, and each record is rebuilt as [`rebuilt_tpcb`] says.
    pub fn from_shan_file(f: &ShanFile, geo: &Vec<GridGeometry>) -> (r: Shan)
        requires
            geo@.len() == f@.tpcbs.len(),
            f@.tpcbs.len() <= u32::MAX,
            vstd::utf8::encode_utf8(f@.name).len() <= u32::MAX,
            forall|k: int|
                0 <= k < f@.tpcbs.len() ==> (#[trigger] f@.tpcbs[k]).coefficients.coefficients.len()
                    <= 0xffff,
        ensures
            r@ == shan_of_file(f@, geo@),
    {
        let n = f.tpcbs.len();
        let mut unk1: u32 = 0;
        let mut k: usize = 0;
        while k < n
            invariant
                k <= n,
                n == f.tpcbs@.len(),
                unk1 == max_frame(f@.tpcbs.take(k as int)),
            decreases n - k,
        {
            let frame = f.tpcbs[k].starting_frame;
            proof {
                assert(f@.tpcbs.take(k as int + 1).drop_last() =~= f@.tpcbs.take(k as int));
                assert(f@.tpcbs.take(k as int + 1).last() == f@.tpcbs[k as int]);
            }
            if frame > unk1 {
                unk1 = frame;
            }
            k = k + 1;
        }
        proof {
            assert(f@.tpcbs.take(n as int) =~= f@.tpcbs);
        }
        let name = NameStr::from_string(&f.name);
        let mut tpcb_starting_frames: Vec<u32> = Vec::new();
        let mut k: usize = 0;
        while k < n
            invariant
                k <= n,
                n == f.tpcbs@.len(),
                tpcb_starting_frames@ == Seq::new(
                    k as nat,
                    |j: int| f@.tpcbs[j].starting_frame,
                ),
            decreases n - k,
        {
            tpcb_starting_frames.push(f.tpcbs[k].starting_frame);
            k = k + 1;
            proof {
                assert(tpcb_starting_frames@ =~= Seq::new(
                    k as nat,
                    |j: int| f@.tpcbs[j].starting_frame,
                ));
            }
        }
        let mut tpcbs: Vec<Option<Tpcb>> = Vec::new();
        let mut k: usize = 0;
        while k < n
            invariant
                k <= n,
                n == f.tpcbs@.len(),
                geo@.len() == f@.tpcbs.len(),
                forall|j: int|
                    0 <= j < f@.tpcbs.len() ==> (#[trigger] f@.tpcbs[j]).coefficients.coefficients.len()
                        <= 0xffff,
                tpcbs@.len() == k,
                forall|j: int|
                    0 <= j < k ==> (#[trigger] tpcbs@[j] matches Some(t) && t@ == rebuilt_tpcb(
                        f@.tpcbs[j].coefficients,
                        geo@[j],
                    )),
            decreases n - k,
        {
            proof {
                assert(f@.tpcbs[k as int] == f.tpcbs@[k as int]@);
                assert(f@.tpcbs[k as int].coefficients.coefficients.len() <= 0xffff);
            }
            let t = Tpcb::from_grid(&f.tpcbs[k].coefficients, geo[k]);
            tpcbs.push(Some(t));
            k = k + 1;
        }
        let r = Shan {
            unk1,
            tpcb_count: n as u32,
            unk3: 0,
            name,
            tpcb_starting_frames,
            tpcbs,
        };
        proof {
            assert(r@.tpcb_starting_frames =~= shan_of_file(f@, geo@).tpcb_starting_frames);
            assert(r@.tpcbs =~= shan_of_file(f@, geo@).tpcbs);
        }
        r
    }
}

/// Rebuilding the container from the model of a decoded container
/// preserves its structure: the record count, the starting frames, the
/// name, and, where it was 0, the flag.  The flag is reset to 0 on
/// rebuild, so a container whose flag was 1 does not keep it; `unk1` is
/// likewise recomputed as the largest starting frame.
pub proof fn lemma_rebuild_preserves_structure(s: ShanV, geo: Seq<GridGeometry>)
    requires
        s.tpcbs.len() == s.tpcb_starting_frames.len(),
        s.tpcb_count == s.tpcbs.len(),
        s.unk3 == 0,
        s.name.length == s.name.bytes.len(),
        vstd::utf8::valid_utf8(s.name.bytes),
        geo.len() == s.tpcbs.len(),
    ensures
        shan_of_file(file_of_shan(s), geo).tpcb_count == s.tpcb_count,
        shan_of_file(file_of_shan(s), geo).unk3 == s.unk3,
        shan_of_file(file_of_shan(s), geo).name == s.name,
        shan_of_file(file_of_shan(s), geo).tpcb_starting_frames == s.tpcb_starting_frames,
{
    let f = file_of_shan(s);
    let s2 = shan_of_file(f, geo);
    assert(s2.tpcb_starting_frames =~= s.tpcb_starting_frames);
    vstd::utf8::decode_utf8_encode_utf8(s.name.bytes);
    assert(s2.name.bytes == s.name.bytes);
}

} // verus!

