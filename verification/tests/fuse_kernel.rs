use linalg::fuse::FusedKerSpec;
use linalg::kernel::{LinearSpec, MatMatMulI8xI32x8x4, MatMatMulKer, MatMatMulKerSpec};
use linalg::storage::PanelStore;

fn null_packed_storage() -> PanelStore {
    PanelStore::Packed { base: 0 }
}

fn mmm_stride_storage(rsc: usize) -> PanelStore {
    PanelStore::Strides {
        base: 0,
        row_byte_stride: (std::mem::size_of::<i32>() * rsc) as isize,
        col_byte_stride: std::mem::size_of::<i32>() as isize,
        item_size: std::mem::size_of::<i32>(),
    }
}

fn fused_ops(c: &[i32], ops: &[FusedKerSpec], tables: Vec<Vec<i32>>) -> Vec<i32> {
    let mr = MatMatMulI8xI32x8x4::mr();
    let nr = MatMatMulI8xI32x8x4::nr();
    assert_eq!(c.len(), mr * nr);
    let mut v = c.to_vec();
    let mut pipeline = vec![FusedKerSpec::AddC];
    pipeline.extend_from_slice(ops);
    pipeline.push(FusedKerSpec::Done);
    let spec = MatMatMulKerSpec {
        a: null_packed_storage(),
        b: null_packed_storage(),
        c: mmm_stride_storage(nr),
        linear: LinearSpec::k(0),
        non_linear: pipeline,
        tables,
    };
    let a: Vec<i8> = Vec::new();
    let b: Vec<i8> = Vec::new();
    let err = MatMatMulI8xI32x8x4::kernel(&spec, &a, &b, &mut v);
    assert_eq!(err, 0);
    v
}

#[test]
fn check_non_linear_enum_size() {
    assert_eq!(
        std::mem::size_of::<FusedKerSpec>(),
        4 * std::mem::size_of::<usize>()
    )
}

#[test]
fn return_zeros() {
    let mr = MatMatMulI8xI32x8x4::mr();
    let nr = MatMatMulI8xI32x8x4::nr();
    let mut v = vec![i32::MAX; mr * nr];
    let spec = MatMatMulKerSpec {
        a: null_packed_storage(),
        b: null_packed_storage(),
        c: mmm_stride_storage(nr),
        linear: LinearSpec::k(0),
        non_linear: Vec::new(),
        tables: Vec::new(),
    };
    let a: Vec<i8> = Vec::new();
    let b: Vec<i8> = Vec::new();
    let err = MatMatMulI8xI32x8x4::kernel(&spec, &a, &b, &mut v);
    assert_eq!(err, 0);
    let expected = vec![0i32; mr * nr];
    assert_eq!(v, expected);
}

#[test]
fn return_c() {
    let len = MatMatMulI8xI32x8x4::mr() * MatMatMulI8xI32x8x4::nr();
    let v: Vec<i32> = (0..len as i32).collect();
    let found = fused_ops(&v, &[], Vec::new());
    assert_eq!(found, v);
}

#[test]
fn return_c_mul_row() {
    let mr = MatMatMulI8xI32x8x4::mr();
    let nr = MatMatMulI8xI32x8x4::nr();
    let len = mr * nr;
    let v: Vec<i32> = (0..len as i32).collect();
    let bias: Vec<i32> = (0..mr as i32).collect();
    let found = fused_ops(&v, &[FusedKerSpec::PerRowMul(0)], vec![bias.clone()]);
    let expected: Vec<i32> = (0..len)
        .map(|ix| {
            let row = ix / nr;
            (ix as i32) * bias[row]
        })
        .collect();
    assert_eq!(found, expected);
}

#[test]
fn return_c_add_row() {
    let mr = MatMatMulI8xI32x8x4::mr();
    let nr = MatMatMulI8xI32x8x4::nr();
    let len = mr * nr;
    let v: Vec<i32> = (0..len as i32).collect();
    let bias: Vec<i32> = (0..mr as i32).collect();
    let found = fused_ops(&v, &[FusedKerSpec::PerRowAdd(0)], vec![bias.clone()]);
    assert!(found.iter().enumerate().all(|(ix, &a)| {
        let row = ix / nr;
        a == ix as i32 + bias[row]
    }));
}

#[test]
fn return_c_mul_col() {
    let mr = MatMatMulI8xI32x8x4::mr();
    let nr = MatMatMulI8xI32x8x4::nr();
    let len = mr * nr;
    let v: Vec<i32> = (0..len as i32).collect();
    let bias: Vec<i32> = (0..nr as i32).collect();
    let found = fused_ops(&v, &[FusedKerSpec::PerColMul(0)], vec![bias.clone()]);
    assert!(found.iter().enumerate().all(|(ix, &a)| {
        let col = ix % nr;
        a == ix as i32 * bias[col]
    }));
}

#[test]
fn return_c_add_col() {
    let mr = MatMatMulI8xI32x8x4::mr();
    let nr = MatMatMulI8xI32x8x4::nr();
    let len = mr * nr;
    let v: Vec<i32> = (0..len as i32).collect();
    let bias: Vec<i32> = (0..nr as i32).collect();
    let found = fused_ops(&v, &[FusedKerSpec::PerColAdd(0)], vec![bias.clone()]);
    let expected: Vec<i32> = (0..len)
        .map(|ix| {
            let col = ix % nr;
            ix as i32 + bias[col]
        })
        .collect();
    assert_eq!(found, expected);
    // an 8x4 tile with c[i] = i and a [0, 1, 2, 3] column bias adds i % 4
    assert!(found.iter().enumerate().all(|(ix, &a)| a == (ix + ix % 4) as i32));
}

#[test]
fn return_c_add_row_col_product() {
    let mr = MatMatMulI8xI32x8x4::mr();
    let nr = MatMatMulI8xI32x8x4::nr();
    let len = mr * nr;
    let v: Vec<i32> = (0..len as i32).collect();
    let rows: Vec<i32> = (0..mr as i32).collect();
    let cols: Vec<i32> = (0..nr as i32).collect();
    let found = fused_ops(
        &v,
        &[FusedKerSpec::AddRowColProducts(0, 1)],
        vec![rows.clone(), cols.clone()],
    );
    let expected: Vec<i32> = (0..len)
        .map(|ix| {
            let row = ix / nr;
            let col = ix % nr;
            ix as i32 + cols[col] * rows[row]
        })
        .collect();
    assert_eq!(found, expected);
}

#[test]
fn return_c_max() {
    let len = MatMatMulI8xI32x8x4::mr() * MatMatMulI8xI32x8x4::nr();
    let v: Vec<i32> = (0..len as i32).collect();
    let found = fused_ops(&v, &[FusedKerSpec::Max(5)], Vec::new());
    assert!(found
        .iter()
        .enumerate()
        .all(|(ix, &a)| a == if ix as i32 > 5 { ix as i32 } else { 5 }));
}

#[test]
fn return_c_min() {
    let len = MatMatMulI8xI32x8x4::mr() * MatMatMulI8xI32x8x4::nr();
    let v: Vec<i32> = (0..len as i32).collect();
    let found = fused_ops(&v, &[FusedKerSpec::Min(5)], Vec::new());
    assert!(found
        .iter()
        .enumerate()
        .all(|(ix, &a)| a == if (ix as i32) < 5 { ix as i32 } else { 5 }));
}

#[test]
fn return_c_scalar_mul() {
    let len = MatMatMulI8xI32x8x4::mr() * MatMatMulI8xI32x8x4::nr();
    let v: Vec<i32> = (0..len as i32).collect();
    let found = fused_ops(&v, &[FusedKerSpec::ScalarMul(5)], Vec::new());
    assert!(found.iter().enumerate().all(|(ix, &a)| a == ix as i32 * 5));
}

#[test]
fn return_c_scalar_add() {
    let len = MatMatMulI8xI32x8x4::mr() * MatMatMulI8xI32x8x4::nr();
    let v: Vec<i32> = (0..len as i32).collect();
    let found = fused_ops(&v, &[FusedKerSpec::ScalarAdd(5)], Vec::new());
    assert!(found.iter().enumerate().all(|(ix, &a)| a == ix as i32 + 5));
}

#[test]
fn return_c_plus_d() {
    let mr = MatMatMulI8xI32x8x4::mr();
    let nr = MatMatMulI8xI32x8x4::nr();
    let len = mr * nr;
    let v: Vec<i32> = (0..len as i32).collect();
    let d: Vec<i32> = (0..len).map(|f| ((3 * f) % 7) as i32).collect();
    let expected: Vec<i32> = (0..len).map(|ix| ix as i32 + d[ix]).collect();
    let found = fused_ops(
        &v,
        &[FusedKerSpec::AddUnicast(
            0,
            nr * std::mem::size_of::<i32>(),
            std::mem::size_of::<i32>(),
        )],
        vec![d.clone()],
    );
    assert_eq!(found, expected);
}

#[test]
fn return_q_towards_even() {
    let len = MatMatMulI8xI32x8x4::mr() * MatMatMulI8xI32x8x4::nr();
    let half_len = (len / 2) as i32;
    let v: Vec<i32> = (0..len as i32).map(|f| f - half_len).collect();
    let found = fused_ops(
        &v,
        &[
            FusedKerSpec::ScalarMul(2),
            FusedKerSpec::QTowardsEven(1 << 30, 2),
        ],
        Vec::new(),
    );
    assert!(found.iter().zip(v.iter()).all(|(&found, &input)| {
        let input = (input as i64) >> 1;
        let trunc = input.abs();
        let nudge = (trunc & 0x3 == 0x3) as i64;
        let mut trunc = (trunc + nudge) >> 1;
        if input.is_negative() {
            trunc = -trunc;
        }
        trunc == found as i64
    }));
}

#[test]
fn return_q_towards_plusinf() {
    let len = MatMatMulI8xI32x8x4::mr() * MatMatMulI8xI32x8x4::nr();
    let half_len = (len / 2) as i32;
    let v: Vec<i32> = (0..len as i32).map(|f| f - half_len).collect();
    let found = fused_ops(
        &v,
        &[
            FusedKerSpec::ScalarMul(2),
            FusedKerSpec::QTowardsPlusInf(1 << 30, 2),
        ],
        Vec::new(),
    );
    let expected: Vec<i32> = v
        .iter()
        .map(|&input| ((((input as i64) >> 1) + 1) >> 1) as i32)
        .collect();
    assert_eq!(found, expected);
}

#[test]
fn return_q_away() {
    let len = MatMatMulI8xI32x8x4::mr() * MatMatMulI8xI32x8x4::nr();
    let half_len = (len / 2) as i32;
    let v: Vec<i32> = (0..len as i32).map(|f| f - half_len).collect();
    let found = fused_ops(
        &v,
        &[
            FusedKerSpec::ScalarMul(2),
            FusedKerSpec::QAway(1 << 30, 2),
        ],
        Vec::new(),
    );
    let expected: Vec<i32> = v
        .iter()
        .map(|&input| {
            let input = input as i64;
            ((((input.abs() >> 1) + 1) >> 1) * input.signum()) as i32
        })
        .collect();
    assert_eq!(found, expected);
}

#[test]
fn return_q_towards_plusinf_1() {
    let len = MatMatMulI8xI32x8x4::mr() * MatMatMulI8xI32x8x4::nr();
    let mut v = vec![0i32; len - 1];
    v.push(2);
    let found = fused_ops(
        &v,
        &[
            FusedKerSpec::ScalarMul(2),
            FusedKerSpec::QTowardsPlusInf(1 << 30, 2),
        ],
        Vec::new(),
    );
    let expected: Vec<i32> = v
        .iter()
        .map(|&input| ((((input as i64) >> 1) + 1) >> 1) as i32)
        .collect();
    assert_eq!(found, expected);
}

#[test]
fn matmul_accumulates_products() {
    let mr = MatMatMulI8xI32x8x4::mr();
    let nr = MatMatMulI8xI32x8x4::nr();
    let k = 3usize;
    // a holds one mr-column per reduction step, b one nr-row per step
    let a: Vec<i8> = (0..(k * mr) as i32).map(|x| (x % 11) as i8 - 5).collect();
    let b: Vec<i8> = (0..(k * nr) as i32).map(|x| (x % 7) as i8 - 3).collect();
    let mut v = vec![0i32; mr * nr];
    let spec = MatMatMulKerSpec {
        a: null_packed_storage(),
        b: null_packed_storage(),
        c: mmm_stride_storage(nr),
        linear: LinearSpec::k(k),
        non_linear: Vec::new(),
        tables: Vec::new(),
    };
    let err = MatMatMulI8xI32x8x4::kernel(&spec, &a, &b, &mut v);
    assert_eq!(err, 0);
    for r in 0..mr {
        for c in 0..nr {
            let mut acc = 0i32;
            for i in 0..k {
                acc += a[i * mr + r] as i32 * b[i * nr + c] as i32;
            }
            assert_eq!(v[r * nr + c], acc);
        }
    }
}

use linalg::kernel::MatMatMulI8x8x4;

fn mmm_stride_storage_i8(rsc: usize) -> PanelStore {
    PanelStore::Strides {
        base: 0,
        row_byte_stride: rsc as isize,
        col_byte_stride: 1,
        item_size: 1,
    }
}

fn fused_ops_i8(c: &[i8], ops: &[FusedKerSpec], tables: Vec<Vec<i32>>) -> Vec<i8> {
    let mr = MatMatMulI8x8x4::mr();
    let nr = MatMatMulI8x8x4::nr();
    assert_eq!(c.len(), mr * nr);
    let mut v = c.to_vec();
    let mut pipeline = vec![FusedKerSpec::AddC];
    pipeline.extend_from_slice(ops);
    pipeline.push(FusedKerSpec::Done);
    let spec = MatMatMulKerSpec {
        a: null_packed_storage(),
        b: null_packed_storage(),
        c: mmm_stride_storage_i8(nr),
        linear: LinearSpec::k(0),
        non_linear: pipeline,
        tables,
    };
    let a: Vec<i8> = Vec::new();
    let b: Vec<i8> = Vec::new();
    let err = MatMatMulI8x8x4::kernel_i8(&spec, &a, &b, &mut v);
    assert_eq!(err, 0);
    v
}

#[test]
fn return_zeros_narrow_output() {
    let mr = MatMatMulI8x8x4::mr();
    let nr = MatMatMulI8x8x4::nr();
    let mut v = vec![i8::MAX; mr * nr];
    let spec = MatMatMulKerSpec {
        a: null_packed_storage(),
        b: null_packed_storage(),
        c: mmm_stride_storage_i8(nr),
        linear: LinearSpec::k(0),
        non_linear: Vec::new(),
        tables: Vec::new(),
    };
    let a: Vec<i8> = Vec::new();
    let b: Vec<i8> = Vec::new();
    let err = MatMatMulI8x8x4::kernel_i8(&spec, &a, &b, &mut v);
    assert_eq!(err, 0);
    assert_eq!(v, vec![0i8; mr * nr]);
}

#[test]
fn return_c_narrow_output() {
    let len = MatMatMulI8x8x4::mr() * MatMatMulI8x8x4::nr();
    let v: Vec<i8> = (0..len as i8).collect();
    let found = fused_ops_i8(&v, &[], Vec::new());
    assert_eq!(found, v);
}

#[test]
fn narrow_output_saturates() {
    let len = MatMatMulI8x8x4::mr() * MatMatMulI8x8x4::nr();
    let v: Vec<i8> = (0..len as i8).collect();
    let high = fused_ops_i8(&v, &[FusedKerSpec::ScalarAdd(200)], Vec::new());
    assert!(high.iter().all(|&x| x == 127));
    let low = fused_ops_i8(&v, &[FusedKerSpec::ScalarAdd(-400)], Vec::new());
    assert!(low.iter().all(|&x| x == -128));
}
