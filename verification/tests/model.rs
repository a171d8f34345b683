// Tests of the high-level model conversions, on captured containers.
// Floating-point header fields are carried as binary32 bit patterns, so the
// expected values are written as `f32::to_bits` of the captured floats.

use shpc::shan::{Grid, NameStr, Shan, Tpcb, TpcbHeader, TpcbInner};
use shpc::{GridCoefficients, GridGeometry, ShanFile, TpcbData};

fn bits3(v: [f32; 3]) -> [u32; 3] {
    [v[0].to_bits(), v[1].to_bits(), v[2].to_bits()]
}

#[test]
fn shan_file_xeno_gaur() {
    // stage/xeno_gaur/normal/render/chara.shpcanim
    // Just test the overall structure and frame counts.
    let tpcb = Tpcb {
        inner: TpcbInner {
            header: TpcbHeader {
                unk1_1: 1,
                unk1_2: 3,
                grid_cell_count_xyz: [0; 3],
                grid_spacing_xyz: bits3([0.0; 3]),
                grid_dimensions_xyz: bits3([0.0; 3]),
                grid_range_min_xyz: bits3([0.0; 3]),
                grid_range_max_xyz: bits3([0.0; 3]),
                unk4: 12,
                unk5: (-1.0247978f32).to_bits(),
                unk6: 0.0313374f32.to_bits(),
                grid_cell_count: 21,
            },
            grid_indices: Grid(None),
            grid_sh_coefficients: Grid(Some(Vec::new())),
            grid_unk_values: Grid(None),
        },
    };
    let shan = Shan {
        unk1: 7200,
        tpcb_count: 9,
        unk3: 0,
        name: NameStr::from_string(&String::new()),
        tpcb_starting_frames: vec![0, 2800, 3000, 3400, 3600, 6400, 6600, 7000, 7200],
        tpcbs: vec![Some(tpcb); 9],
    };

    let coefficients = GridCoefficients {
        grid_cell_count_xyz: [0; 3],
        grid_range_min_xyz: bits3([0.0; 3]),
        grid_range_max_xyz: bits3([0.0; 3]),
        unk5: (-1.0247978f32).to_bits(),
        unk6: 0.0313374f32.to_bits(),
        coefficients: Vec::new(),
    };
    let shan_file = ShanFile {
        name: String::new(),
        tpcbs: vec![
            TpcbData { starting_frame: 0, coefficients: coefficients.clone() },
            TpcbData { starting_frame: 2800, coefficients: coefficients.clone() },
            TpcbData { starting_frame: 3000, coefficients: coefficients.clone() },
            TpcbData { starting_frame: 3400, coefficients: coefficients.clone() },
            TpcbData { starting_frame: 3600, coefficients: coefficients.clone() },
            TpcbData { starting_frame: 6400, coefficients: coefficients.clone() },
            TpcbData { starting_frame: 6600, coefficients: coefficients.clone() },
            TpcbData { starting_frame: 7000, coefficients: coefficients.clone() },
            TpcbData { starting_frame: 7200, coefficients: coefficients.clone() },
        ],
    };

    let new_shan_file = ShanFile::from_shan(&shan);
    assert_eq!(new_shan_file, shan_file);

    let geo = vec![
        GridGeometry {
            grid_dimensions_xyz: bits3([0.0; 3]),
            spacing_ratio_xyz: [0; 3],
        };
        9
    ];
    let new_shan = Shan::from_shan_file(&shan_file, &geo);
    assert_eq!(new_shan.unk1, shan.unk1);
    assert_eq!(new_shan.tpcb_count, shan.tpcb_count);
    assert_eq!(new_shan.unk3, shan.unk3);
    assert_eq!(new_shan.name, shan.name);
    assert_eq!(new_shan.tpcb_starting_frames, shan.tpcb_starting_frames);
}

fn training_geometry() -> GridGeometry {
    let range_min = [-563.37305f32, -98.03044, 0.0];
    let range_max = [65.51749f32, 127.32863, 0.0];
    let counts = [21u32, 10, 1];
    let mut dims = [0.0f32; 3];
    for i in 0..3 {
        dims[i] = range_max[i] - range_min[i];
    }
    let mut ratio = [0.0f32; 3];
    for i in 0..3 {
        if counts[i] > 1 {
            ratio[i] = dims[i] / (counts[i] as f32 - 1.0);
        }
    }
    GridGeometry { grid_dimensions_xyz: bits3(dims), spacing_ratio_xyz: bits3(ratio) }
}

#[test]
fn grid_coefficients_training() {
    // stage/training/normal/render/chara.shpcanim
    let tpcb = Tpcb {
        inner: TpcbInner {
            header: TpcbHeader {
                unk1_1: 1,
                unk1_2: 35,
                grid_cell_count_xyz: [21, 10, 1],
                grid_spacing_xyz: bits3([31.444525, 25.039896, 1.0]),
                grid_dimensions_xyz: bits3([628.8905, 225.35907, 0.0]),
                grid_range_min_xyz: bits3([-563.37305, -98.03044, 0.0]),
                grid_range_max_xyz: bits3([65.51749, 127.32863, 0.0]),
                unk4: 12,
                unk5: (-1.2438285f32).to_bits(),
                unk6: 0.020140974f32.to_bits(),
                grid_cell_count: 210,
            },
            grid_indices: Grid(Some((0..210u16).collect())),
            grid_sh_coefficients: Grid(Some(Vec::new())),
            grid_unk_values: Grid(None),
        },
    };

    let grid = GridCoefficients {
        grid_cell_count_xyz: [21, 10, 1],
        grid_range_min_xyz: bits3([-563.37305, -98.03044, 0.0]),
        grid_range_max_xyz: bits3([65.51749, 127.32863, 0.0]),
        unk5: (-1.2438285f32).to_bits(),
        unk6: 0.020140974f32.to_bits(),
        coefficients: vec![
            shpc::shan::CompressedShCoefficients { r: [0; 4], g: [0; 4], b: [0; 4] };
            210
        ],
    };

    // Test GridCoefficients -> Tpcb
    let new_tpcb = Tpcb::from_grid(&grid, training_geometry());
    assert_eq!(new_tpcb.inner.header, tpcb.inner.header);
    assert_eq!(new_tpcb.inner.grid_indices.0, tpcb.inner.grid_indices.0);

    // Test Tpcb -> GridCoefficients
    let new_grid = GridCoefficients::from_tpcb(&tpcb);
    assert_eq!(new_grid.grid_cell_count_xyz, grid.grid_cell_count_xyz);
    assert_eq!(new_grid.grid_range_min_xyz, grid.grid_range_min_xyz);
    assert_eq!(new_grid.grid_range_min_xyz, grid.grid_range_min_xyz);
}

#[test]
fn grid_coefficients_xeno_gaur() {
    // stage/xeno_gaur/normal/render/chara.shpcanim
    let tpcb = Tpcb {
        inner: TpcbInner {
            header: TpcbHeader {
                unk1_1: 1,
                unk1_2: 3,
                grid_cell_count_xyz: [0, 0, 0],
                grid_spacing_xyz: bits3([1.0, 1.0, 1.0]),
                grid_dimensions_xyz: bits3([0.0, 0.0, 0.0]),
                grid_range_min_xyz: bits3([0.0, 0.0, 0.0]),
                grid_range_max_xyz: bits3([0.0, 0.0, 0.0]),
                unk4: 12,
                unk5: (-1.0247978f32).to_bits(),
                unk6: 0.0313374f32.to_bits(),
                grid_cell_count: 21,
            },
            grid_indices: Grid(Some((0..21u16).collect())),
            grid_sh_coefficients: Grid(Some(Vec::new())),
            grid_unk_values: Grid(None),
        },
    };

    let grid = GridCoefficients {
        grid_cell_count_xyz: [0, 0, 0],
        grid_range_min_xyz: bits3([0.0, 0.0, 0.0]),
        grid_range_max_xyz: bits3([0.0, 0.0, 0.0]),
        unk5: (-1.0247978f32).to_bits(),
        unk6: 0.0313374f32.to_bits(),
        coefficients: vec![
            shpc::shan::CompressedShCoefficients { r: [0; 4], g: [0; 4], b: [0; 4] };
            21
        ],
    };

    // Test GridCoefficients -> Tpcb
    // The rebuilt record stores the recomputed dimensions, 0.0 on every
    // axis here, and spacing 1.0 because no axis has more than one cell.
    let geo = GridGeometry {
        grid_dimensions_xyz: bits3([0.0, 0.0, 0.0]),
        spacing_ratio_xyz: [0; 3],
    };
    let new_tpcb = Tpcb::from_grid(&grid, geo);
    // The header differs from the captured record only where the rebuild
    // recomputes fields: unk1_2 is always written as 35.
    let mut expected_header = tpcb.inner.header;
    expected_header.unk1_2 = 35;
    assert_eq!(new_tpcb.inner.header, expected_header);
    assert_eq!(new_tpcb.inner.grid_indices.0, tpcb.inner.grid_indices.0);

    // Test Tpcb -> GridCoefficients
    let new_grid = GridCoefficients::from_tpcb(&tpcb);
    assert_eq!(new_grid.grid_cell_count_xyz, grid.grid_cell_count_xyz);
    assert_eq!(new_grid.grid_range_min_xyz, grid.grid_range_min_xyz);
    assert_eq!(new_grid.grid_range_min_xyz, grid.grid_range_min_xyz);
}

#[test]
fn lib_grid_coefficients_training() {
    // stage/training/normal/render/chara.shpcanim
    let tpcb = Tpcb {
        inner: TpcbInner {
            header: TpcbHeader {
                unk1_1: 1,
                unk1_2: 35,
                grid_cell_count_xyz: [21, 10, 1],
                grid_spacing_xyz: bits3([31.444525, 25.039896, 1.0]),
                grid_dimensions_xyz: bits3([628.8905, 225.35907, 0.0]),
                grid_range_min_xyz: bits3([-563.37305, -98.03044, 0.0]),
                grid_range_max_xyz: bits3([65.51749, 127.32863, 0.0]),
                unk4: 12,
                unk5: (-1.2438285f32).to_bits(),
                unk6: 0.020140974f32.to_bits(),
                grid_cell_count: 210,
            },
            grid_indices: Grid(Some((0..210u16).collect())),
            grid_sh_coefficients: Grid(Some(Vec::new())),
            grid_unk_values: Grid(None),
        },
    };

    let grid = GridCoefficients {
        grid_cell_count_xyz: [21, 10, 1],
        grid_range_min_xyz: bits3([-563.37305, -98.03044, 0.0]),
        grid_range_max_xyz: bits3([65.51749, 127.32863, 0.0]),
        unk5: (-1.2438285f32).to_bits(),
        unk6: 0.020140974f32.to_bits(),
        coefficients: vec![
            shpc::shan::CompressedShCoefficients { r: [0; 4], g: [0; 4], b: [0; 4] };
            210
        ],
    };

    let new_tpcb = Tpcb::from_grid(&grid, training_geometry());
    assert_eq!(new_tpcb.inner.header, tpcb.inner.header);
    assert_eq!(new_tpcb.inner.grid_indices.0, tpcb.inner.grid_indices.0);

    let new_grid = GridCoefficients::from_tpcb(&tpcb);
    assert_eq!(new_grid.grid_cell_count_xyz, grid.grid_cell_count_xyz);
    assert_eq!(new_grid.grid_range_min_xyz, grid.grid_range_min_xyz);
    assert_eq!(new_grid.grid_range_min_xyz, grid.grid_range_min_xyz);
}
