// Tests of the byte-level container codec: exact encodings, round trips,
// null-array handling, and each way a decode can fail.

use shpc::shan::{
    CompressedShCoefficients, Grid, NameStr, Shan, ShanError, Tpcb, TpcbHeader, TpcbInner,
};

fn le32(x: u32) -> [u8; 4] {
    x.to_le_bytes()
}

fn simple_header(cell_count: u32) -> TpcbHeader {
    TpcbHeader {
        unk1_1: 1,
        unk1_2: 35,
        grid_cell_count_xyz: [cell_count, 1, 1],
        grid_spacing_xyz: [1.0f32.to_bits(); 3],
        grid_dimensions_xyz: [0.0f32.to_bits(); 3],
        grid_range_min_xyz: [0.0f32.to_bits(); 3],
        grid_range_max_xyz: [0.0f32.to_bits(); 3],
        unk4: 12,
        unk5: (-1.25f32).to_bits(),
        unk6: 0.02f32.to_bits(),
        grid_cell_count: cell_count,
    }
}

fn coeff(seed: u8) -> CompressedShCoefficients {
    CompressedShCoefficients {
        r: [seed, seed + 1, seed + 2, seed + 3],
        g: [seed + 4, seed + 5, seed + 6, seed + 7],
        b: [seed + 8, seed + 9, seed + 10, seed + 11],
    }
}

fn one_record_container(unk_values: Option<Vec<[u32; 3]>>) -> Shan {
    let tpcb = Tpcb {
        inner: TpcbInner {
            header: simple_header(2),
            grid_indices: Grid(Some(vec![0, 1])),
            grid_sh_coefficients: Grid(Some(vec![coeff(10), coeff(40)])),
            grid_unk_values: Grid(unk_values),
        },
    };
    Shan {
        unk1: 60,
        tpcb_count: 1,
        unk3: 0,
        name: NameStr::from_string(&String::from("stage")),
        tpcb_starting_frames: vec![60],
        tpcbs: vec![Some(tpcb)],
    }
}

#[test]
fn empty_container_bytes() {
    let shan = Shan {
        unk1: 5,
        tpcb_count: 0,
        unk3: 1,
        name: NameStr::from_string(&String::from("abc")),
        tpcb_starting_frames: Vec::new(),
        tpcbs: Vec::new(),
    };
    assert!(shan.is_wf());
    let out = shan.write();
    assert_eq!(out.len(), 128);
    let mut expected = Vec::new();
    expected.extend_from_slice(b"SHAN");
    expected.extend_from_slice(&le32(5));
    expected.extend_from_slice(&le32(0));
    expected.extend_from_slice(&le32(1));
    expected.extend_from_slice(&le32(3));
    expected.extend_from_slice(b"abc");
    expected.resize(128, 0);
    assert_eq!(out, expected);

    let back = Shan::read(&out).unwrap();
    assert_eq!(back, shan);
}

#[test]
fn one_record_container_bytes() {
    let shan = one_record_container(None);
    assert!(shan.is_wf());
    let out = shan.write();
    // prefix 128, frames 4, pointer table 4, then the record at the next
    // 16-byte boundary: 144.
    assert_eq!(&out[0..4], b"SHAN");
    assert_eq!(out[128..132], le32(60));
    assert_eq!(out[132..136], le32(144));
    assert_eq!(&out[144..148], b"TPCB");
    // offsets: fixed 96, 96 + 2 indices * 2 bytes, and 0 for the absent
    // auxiliary array.
    assert_eq!(out[148..152], le32(96));
    assert_eq!(out[152..156], le32(100));
    assert_eq!(out[156..160], le32(0));
    // the indices at record start + 96, the coefficients right after
    assert_eq!(out[240..244], [0, 0, 1, 0]);
    assert_eq!(out[244..248], [10, 11, 12, 13]);
    // total: record start 144 + 96 fixed + 4 indices + 24 coefficients
    assert_eq!(out.len(), 268);
}

#[test]
fn round_trip_preserves_container() {
    let shan = one_record_container(None);
    let out = shan.write();
    let back = Shan::read(&out).unwrap();
    assert_eq!(back, shan);
}

#[test]
fn round_trip_preserves_aux_values() {
    let shan = one_record_container(Some(vec![[1, 2, 3], [4, 5, 6]]));
    assert!(shan.is_wf());
    let out = shan.write();
    let back = Shan::read(&out).unwrap();
    assert_eq!(back, shan);
}

#[test]
fn absent_aux_array_stays_absent() {
    let shan = one_record_container(None);
    let once = Shan::read(&shan.write()).unwrap();
    assert!(once.is_wf());
    let twice = Shan::read(&once.write()).unwrap();
    let tpcb = twice.tpcbs[0].as_ref().unwrap();
    assert_eq!(tpcb.inner.grid_unk_values.0, None);
    assert_eq!(twice, shan);
}

#[test]
fn null_record_pointer_decodes_to_empty() {
    let shan = Shan {
        unk1: 0,
        tpcb_count: 2,
        unk3: 0,
        name: NameStr::from_string(&String::new()),
        tpcb_starting_frames: vec![0, 10],
        tpcbs: vec![None, None],
    };
    assert!(shan.is_wf());
    let out = shan.write();
    assert_eq!(out.len(), 144);
    assert_eq!(out[136..140], le32(0));
    assert_eq!(out[140..144], le32(0));
    let back = Shan::read(&out).unwrap();
    assert_eq!(back, shan);
}

#[test]
fn truncated_input_reported() {
    let r = Shan::read(&[]);
    assert_eq!(r, Err(ShanError::TruncatedInput { offset: 0, needed: 4 }));

    let mut b = Vec::new();
    b.extend_from_slice(b"SHAN");
    b.extend_from_slice(&le32(0));
    let r = Shan::read(&b);
    assert_eq!(r, Err(ShanError::TruncatedInput { offset: 4, needed: 16 }));
}

#[test]
fn bad_magic_reported() {
    let b = *b"XHANxxxxxxxxxxxxxxxx";
    let r = Shan::read(&b);
    assert_eq!(
        r,
        Err(ShanError::BadMagic { offset: 0, found: [b'X', b'H', b'A', b'N'] })
    );
}

#[test]
fn seek_failure_reported() {
    // A valid 20-byte prefix with no name bytes: the starting frames live
    // at absolute offset 128, beyond this buffer.
    let mut b = Vec::new();
    b.extend_from_slice(b"SHAN");
    b.extend_from_slice(&le32(0));
    b.extend_from_slice(&le32(1));
    b.extend_from_slice(&le32(0));
    b.extend_from_slice(&le32(0));
    let r = Shan::read(&b);
    assert_eq!(r, Err(ShanError::SeekFailure { offset: 128 }));
}

#[test]
fn truncated_name_reported() {
    let mut b = Vec::new();
    b.extend_from_slice(b"SHAN");
    b.extend_from_slice(&le32(0));
    b.extend_from_slice(&le32(0));
    b.extend_from_slice(&le32(0));
    b.extend_from_slice(&le32(100));
    let r = Shan::read(&b);
    assert_eq!(r, Err(ShanError::TruncatedInput { offset: 20, needed: 100 }));
}

#[test]
fn bad_record_magic_reported() {
    let shan = one_record_container(None);
    let mut out = shan.write();
    // corrupt the record's magic tag
    out[144] = b'X';
    let r = Shan::read(&out);
    assert_eq!(
        r,
        Err(ShanError::BadMagic { offset: 144, found: [b'X', b'P', b'C', b'B'] })
    );
}

#[test]
fn truncated_record_array_reported() {
    let shan = one_record_container(None);
    let out = shan.write();
    // cut the buffer in the middle of the coefficient array
    let r = Shan::read(&out[..250]);
    assert_eq!(r, Err(ShanError::TruncatedInput { offset: 244, needed: 24 }));
}

#[test]
fn name_survives_round_trip() {
    let name = NameStr::from_string(&String::from("ch\u{e9}teau"));
    assert_eq!(name.to_string_lossy(), "ch\u{e9}teau");
}

#[test]
fn invalid_name_bytes_decode_lossily() {
    // A container whose name holds a stray continuation byte: the lossy
    // decoding replaces it with U+FFFD.
    let mut b = Vec::new();
    b.extend_from_slice(b"SHAN");
    b.extend_from_slice(&le32(0));
    b.extend_from_slice(&le32(0));
    b.extend_from_slice(&le32(0));
    b.extend_from_slice(&le32(2));
    b.push(0xff);
    b.push(b'A');
    b.resize(128, 0);
    let shan = Shan::read(&b).unwrap();
    assert_eq!(shan.name.to_string_lossy(), "\u{fffd}A");
}

#[test]
fn non_wf_containers_detected() {
    // length prefix out of step with the stored bytes is impossible through
    // the public constructors, but mismatched sequence lengths are not
    let shan = Shan {
        unk1: 0,
        tpcb_count: 2,
        unk3: 0,
        name: NameStr::from_string(&String::new()),
        tpcb_starting_frames: vec![0],
        tpcbs: vec![None, None],
    };
    assert!(!shan.is_wf());

    let long_name: String = "x".repeat(109);
    let shan = Shan {
        unk1: 0,
        tpcb_count: 0,
        unk3: 0,
        name: NameStr::from_string(&long_name),
        tpcb_starting_frames: Vec::new(),
        tpcbs: Vec::new(),
    };
    assert!(!shan.is_wf());

    let shan = Shan {
        unk1: 0,
        tpcb_count: 1,
        unk3: 0,
        name: NameStr::from_string(&String::new()),
        tpcb_starting_frames: vec![0],
        tpcbs: vec![Some(Tpcb {
            inner: TpcbInner {
                header: simple_header(2),
                // one index too few for the header's cell count
                grid_indices: Grid(Some(vec![0])),
                grid_sh_coefficients: Grid(None),
                grid_unk_values: Grid(None),
            },
        })],
    };
    assert!(!shan.is_wf());
}

#[test]
fn alignment_is_sixteen_bytes() {
    assert_eq!(Tpcb::alignment_in_bytes(), 16);
}

#[test]
fn record_decodes_at_its_own_offset() {
    let shan = one_record_container(Some(vec![[7, 8, 9], [10, 11, 12]]));
    let out = shan.write();
    let tpcb = Tpcb::read_at(&out, 144).unwrap();
    assert_eq!(&tpcb, shan.tpcbs[0].as_ref().unwrap());
}
