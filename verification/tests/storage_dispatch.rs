use linalg::dispatch::{select_kernel, KernelChoice, KernelDatum};
use linalg::fuse::{apply_pipeline, lower, FusedSpec};
use linalg::kernel::{run_row_major_8x4, MatMatMulI8x8x4, MatMatMulI8xI32x8x4, MatMatMulKer};
use linalg::storage::{read_tile, write_tile, PanelStore};

#[test]
fn strided_matches_packed() {
    let mr = 8usize;
    let nr = 4usize;
    let tile: Vec<i32> = (0..(mr * nr) as i32).map(|x| 3 * x - 7).collect();
    let packed = PanelStore::Packed { base: 0 };
    let strided = PanelStore::Strides {
        base: 0,
        row_byte_stride: (nr * std::mem::size_of::<i32>()) as isize,
        col_byte_stride: std::mem::size_of::<i32>() as isize,
        item_size: std::mem::size_of::<i32>(),
    };
    let mut b1 = vec![-1i32; mr * nr];
    let mut b2 = vec![-1i32; mr * nr];
    write_tile(&mut b1, &packed, &tile, mr, nr);
    write_tile(&mut b2, &strided, &tile, mr, nr);
    assert_eq!(b1, b2);
    assert_eq!(b1, tile);
}

#[test]
fn strided_write_honours_gaps() {
    let mr = 2usize;
    let nr = 2usize;
    let tile = vec![10, 20, 30, 40];
    // one unused item between rows, and a nonzero base
    let store = PanelStore::Strides {
        base: 4,
        row_byte_stride: 12,
        col_byte_stride: 4,
        item_size: 4,
    };
    let mut buf = vec![0i32; 8];
    write_tile(&mut buf, &store, &tile, mr, nr);
    assert_eq!(buf, vec![0, 10, 20, 0, 30, 40, 0, 0]);
    let back = read_tile(&buf, &store, mr, nr);
    assert_eq!(back, tile);
}

#[test]
fn dispatch_selects_accelerated_or_fallback() {
    assert_eq!(select_kernel(true, KernelDatum::I8), KernelChoice::I8x8x4);
    assert_eq!(
        select_kernel(true, KernelDatum::I8I32),
        KernelChoice::I8xI32x8x4
    );
    assert_eq!(select_kernel(true, KernelDatum::F32), KernelChoice::F32x8x4);
    assert_eq!(select_kernel(false, KernelDatum::I8), KernelChoice::Generic);
    assert_eq!(
        select_kernel(false, KernelDatum::F32),
        KernelChoice::Generic
    );
}

#[test]
fn kernel_contract_constants() {
    assert_eq!(MatMatMulI8x8x4::mr(), 8);
    assert_eq!(MatMatMulI8x8x4::nr(), 4);
    assert_eq!(MatMatMulI8x8x4::alignment_bytes_packed_a(), 32);
    assert_eq!(MatMatMulI8x8x4::alignment_bytes_packed_b(), 4);
    assert_eq!(MatMatMulI8x8x4::end_padding_packed_a(), 0);
    assert_eq!(MatMatMulI8x8x4::end_padding_packed_b(), 0);
    assert_eq!(MatMatMulI8x8x4::name(), "neon");
    assert_eq!(MatMatMulI8xI32x8x4::mr(), 8);
    assert_eq!(MatMatMulI8xI32x8x4::nr(), 4);
    assert_eq!(MatMatMulI8xI32x8x4::alignment_bytes_packed_a(), 4);
    assert_eq!(MatMatMulI8xI32x8x4::alignment_bytes_packed_b(), 4);
    assert_eq!(MatMatMulI8xI32x8x4::name(), "neon");
}

#[test]
fn lowered_pipeline_runs_like_rich_spec() {
    let mr = 8usize;
    let nr = 4usize;
    let len = mr * nr;
    let bias_rows: Vec<i32> = (0..mr as i32).collect();
    let bias_cols: Vec<i32> = (10..10 + nr as i32).collect();
    let rich = vec![
        FusedSpec::AddC,
        FusedSpec::PerRowAdd(bias_rows.clone()),
        FusedSpec::PerColMul(bias_cols.clone()),
        FusedSpec::Min(400),
        FusedSpec::Max(-400),
        FusedSpec::ScalarAdd(1),
    ];
    let (ops, tables) = lower(&rich);
    let mut tile = vec![0i32; len];
    let cin: Vec<i32> = (0..len as i32).map(|x| x - 16).collect();
    apply_pipeline(&mut tile, &ops, &tables, &cin, mr, nr);
    let expected: Vec<i32> = (0..len)
        .map(|ix| {
            let row = ix / nr;
            let col = ix % nr;
            let v = cin[ix] + bias_rows[row];
            let v = v * bias_cols[col];
            let v = v.min(400).max(-400);
            v + 1
        })
        .collect();
    assert_eq!(tile, expected);
}

#[test]
fn lowering_binds_unicast_strides() {
    let mr = 8usize;
    let nr = 4usize;
    let len = mr * nr;
    let d: Vec<i32> = (0..len as i32).map(|x| 100 - x).collect();
    let rich = vec![
        FusedSpec::AddC,
        FusedSpec::AddUnicast(
            d.clone(),
            nr * std::mem::size_of::<i32>(),
            std::mem::size_of::<i32>(),
        ),
    ];
    let (ops, tables) = lower(&rich);
    let mut tile = vec![0i32; len];
    let cin: Vec<i32> = (0..len as i32).collect();
    apply_pipeline(&mut tile, &ops, &tables, &cin, mr, nr);
    let expected: Vec<i32> = (0..len as i32).map(|x| x + (100 - x)).collect();
    assert_eq!(tile, expected);
}

#[test]
fn run_row_major_accepts_and_computes() {
    let mr = 8usize;
    let nr = 4usize;
    let k = 2usize;
    let a: Vec<i8> = (0..(k * mr) as i32).map(|x| (x % 5) as i8 - 2).collect();
    let b: Vec<i8> = (0..(k * nr) as i32).map(|x| (x % 3) as i8 - 1).collect();
    let mut c: Vec<i32> = (0..(mr * nr) as i32).collect();
    let bias: Vec<i32> = (0..mr as i32).map(|x| 10 * x).collect();
    let specs = vec![FusedSpec::AddC, FusedSpec::PerRowAdd(bias.clone())];
    let c0 = c.clone();
    let ok = run_row_major_8x4(&a, &b, &mut c, k, &specs);
    assert!(ok);
    for r in 0..mr {
        for col in 0..nr {
            let mut acc = 0i32;
            for i in 0..k {
                acc += a[i * mr + r] as i32 * b[i * nr + col] as i32;
            }
            let expected = acc + c0[r * nr + col] + bias[r];
            assert_eq!(c[r * nr + col], expected);
        }
    }
}

#[test]
fn run_row_major_rejects_bad_calls() {
    let a: Vec<i8> = vec![0; 8];
    let b: Vec<i8> = vec![0; 4];
    let mut c: Vec<i32> = vec![7; 32];
    // operand panel too short for the reduction
    assert!(!run_row_major_8x4(&a, &b, &mut c, 2, &Vec::new()));
    assert!(c.iter().all(|&x| x == 7));
    // a bias vector shorter than the tile height
    let specs = vec![FusedSpec::PerRowAdd(vec![1, 2, 3])];
    assert!(!run_row_major_8x4(&a, &b, &mut c, 1, &specs));
    assert!(c.iter().all(|&x| x == 7));
    // an output buffer shorter than one tile
    let mut short: Vec<i32> = vec![0; 31];
    assert!(!run_row_major_8x4(&a, &b, &mut short, 1, &Vec::new()));
    // a quantization shift of zero is out of range
    let specs = vec![FusedSpec::QAway(1 << 30, 0)];
    assert!(!run_row_major_8x4(&a, &b, &mut c, 1, &specs));
    assert!(c.iter().all(|&x| x == 7));
}

use linalg::kernel::run_packed_8x4;

#[test]
fn packed_and_row_major_runs_agree() {
    let mr = 8usize;
    let nr = 4usize;
    let k = 2usize;
    let a: Vec<i8> = (0..(k * mr) as i32).map(|x| (x % 9) as i8 - 4).collect();
    let b: Vec<i8> = (0..(k * nr) as i32).map(|x| (x % 5) as i8 - 2).collect();
    let specs = vec![
        FusedSpec::AddC,
        FusedSpec::ScalarMul(3),
        FusedSpec::Min(50),
        FusedSpec::Max(-50),
    ];
    let mut c1: Vec<i32> = (0..(mr * nr) as i32).collect();
    let mut c2 = c1.clone();
    assert!(run_packed_8x4(&a, &b, &mut c1, k, &specs));
    assert!(run_row_major_8x4(&a, &b, &mut c2, k, &specs));
    // the row-major layout with row stride = tile width is byte-identical
    // to the packed layout
    assert_eq!(c1, c2);
}
