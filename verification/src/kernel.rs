//! The kernel contract: the capability every architecture-specific
//! tile-multiply implementation must satisfy, and the portable engine the
//! integer kernels run on here. A kernel accumulates an `mr` x `nr` tile of
//! partial products over the reduction length, applies the fused pipeline to
//! the accumulator, and performs a single store pass honouring the output
//! storage's layout. The 32-bit-float kernels of specialised instruction
//! sets stay outside the verified core; their structs are declared here so a
//! dispatcher can name them.

use vstd::prelude::*;

verus! {

use crate::arith::{wrap32, wadd};
use crate::fuse::{FusedKerSpec, FusedSpec, ops_wf, apply_ops, apply_pipeline, apply_rich, rich_wf, lower, tables_view};
use crate::storage::{PanelStore, tile_of, tile_of_i8, write_post, write_post8, read_tile, read_tile_i8, write_tile, write_tile_i8, lemma_packed_wf32, lemma_row_major_strides_wf32};

/// The reduction-length descriptor of one call: the number of
/// multiply-accumulate steps over the packed operand panels.
#[derive(Clone, Copy, Debug)]
pub struct LinearSpec {
    pub k: usize,
}

impl LinearSpec {
    /// A descriptor for a reduction of length `k`.
    pub fn k(k: usize) -> (r: LinearSpec)
        ensures
            r.k == k,
    {
        LinearSpec { k }
    }
}

/// One kernel call: operand panel layouts, output layout, reduction length,
/// the fused pipeline, and the vector tables the pipeline entries index.
/// The addressed buffers stay with the caller and are passed beside it.
pub struct MatMatMulKerSpec {
    pub a: PanelStore,
    pub b: PanelStore,
    pub c: PanelStore,
    pub linear: LinearSpec,
    pub non_linear: Vec<FusedKerSpec>,
    pub tables: Vec<Vec<i32>>,
}

/// Base offset of a panel.
pub open spec fn base_of(p: PanelStore) -> int {
    match p {
        PanelStore::Packed { base } => base as int,
        PanelStore::Strides { base, .. } => base as int,
    }
}

/// The accumulator element at tile position (r, c) after `k` reduction
/// steps: each step adds (with 32-bit wrap) the product of the step's
/// operand items, the packed A panel holding one `mr`-column per step and
/// the packed B panel one `nr`-row per step.
pub open spec fn acc_elem(
    a: Seq<i8>,
    b: Seq<i8>,
    a_base: int,
    b_base: int,
    k: int,
    r: int,
    c: int,
    mr: int,
    nr: int,
) -> int
    decreases k,
{
    if k <= 0 {
        0
    } else {
        wrap32(
            acc_elem(a, b, a_base, b_base, k - 1, r, c, mr, nr) + a[a_base + (k - 1) * mr + r]
                * b[b_base + (k - 1) * nr + c],
        )
    }
}

/// The whole accumulator tile after `k` reduction steps, row-major.
pub open spec fn acc_tile(
    a: Seq<i8>,
    b: Seq<i8>,
    a_base: int,
    b_base: int,
    k: int,
    mr: int,
    nr: int,
) -> Seq<i32> {
    Seq::new((mr * nr) as nat, |i: int| acc_elem(a, b, a_base, b_base, k, i / nr, i % nr, mr, nr) as i32)
}

impl MatMatMulKerSpec {
    /// Validity of one call against everything but the output layout:
    /// packed operand panels long enough for the reduction, and a valid
    /// pipeline.
    pub open spec fn wf_core(self, mr: int, nr: int, alen: int, blen: int) -> bool {
        &&& 1 <= mr <= 0xffff
        &&& 1 <= nr <= 0xffff
        &&& match self.a {
            PanelStore::Packed { base } => base + self.linear.k * mr <= alen,
            PanelStore::Strides { .. } => false,
        }
        &&& match self.b {
            PanelStore::Packed { base } => base + self.linear.k * nr <= blen,
            PanelStore::Strides { .. } => false,
        }
        &&& ops_wf(self.non_linear@, tables_view(self.tables@), mr, nr)
    }

    /// Validity of one call whose output storage holds 32-bit items.
    pub open spec fn wf(self, mr: int, nr: int, alen: int, blen: int, clen: int) -> bool {
        &&& self.wf_core(mr, nr, alen, blen)
        &&& self.c.wf32(mr, nr, clen)
    }

    /// Validity of one call whose output storage holds 8-bit items.
    pub open spec fn wf_i8(self, mr: int, nr: int, alen: int, blen: int, clen: int) -> bool {
        &&& self.wf_core(mr, nr, alen, blen)
        &&& self.c.wf8(mr, nr, clen)
    }
}

/// The tile a call computes before the store pass: the accumulator over
/// the full reduction, transformed by the fused pipeline, `AddC` loading
/// the tile `cin` the output storage held when the call began.
pub open spec fn computed_tile(
    op: MatMatMulKerSpec,
    a: Seq<i8>,
    b: Seq<i8>,
    cin: Seq<i32>,
    mr: int,
    nr: int,
) -> Seq<i32> {
    apply_ops(
        op.non_linear@,
        acc_tile(a, b, base_of(op.a), base_of(op.b), op.linear.k as int, mr, nr),
        tables_view(op.tables@),
        cin,
        mr,
        nr,
    )
}

/// The tile a call writes into a 32-bit output storage.
pub open spec fn kernel_output(
    op: MatMatMulKerSpec,
    a: Seq<i8>,
    b: Seq<i8>,
    c0: Seq<i32>,
    mr: int,
    nr: int,
) -> Seq<i32> {
    computed_tile(op, a, b, tile_of(c0, op.c, mr, nr), mr, nr)
}

/// What a successful call leaves in the output buffer: the output tile
/// stands at the positions the output storage addresses, and every other
/// item of the buffer is unchanged.
pub open spec fn kernel_post(
    op: MatMatMulKerSpec,
    a: Seq<i8>,
    b: Seq<i8>,
    c0: Seq<i32>,
    c1: Seq<i32>,
    mr: int,
    nr: int,
) -> bool {
    write_post(c0, c1, op.c, kernel_output(op, a, b, c0, mr, nr), mr, nr)
}

/// What a successful call of the narrow-output family leaves in its 8-bit
/// output buffer: the computed tile, each element saturated to the 8-bit
/// range, the existing narrow tile widened as the `AddC` input.
pub open spec fn kernel_post8(
    op: MatMatMulKerSpec,
    a: Seq<i8>,
    b: Seq<i8>,
    c0: Seq<i8>,
    c1: Seq<i8>,
    mr: int,
    nr: int,
) -> bool {
    write_post8(
        c0,
        c1,
        op.c,
        computed_tile(op, a, b, tile_of_i8(c0, op.c, mr, nr), mr, nr),
        mr,
        nr,
    )
}

/// The computation every kernel of the integer family shares: accumulate
/// the tile over the reduction, then apply the fused pipeline, `AddC`
/// loading the given `cin` tile.
fn compute_tile_exec(
    op: &MatMatMulKerSpec,
    a: &Vec<i8>,
    b: &Vec<i8>,
    cin: &Vec<i32>,
    mr: usize,
    nr: usize,
) -> (t: Vec<i32>)
    requires
        op.wf_core(mr as int, nr as int, a@.len() as int, b@.len() as int),
        cin@.len() == mr * nr,
    ensures
        t@ == computed_tile(*op, a@, b@, cin@, mr as int, nr as int),
        t@.len() == mr * nr,
{
    proof {
        assert((mr as int) * (nr as int) <= 0xffff * 0xffff) by (nonlinear_arith)
            requires
                0 <= (mr as int) <= 0xffff,
                0 <= (nr as int) <= 0xffff,
        {}
    }
    let len = mr * nr;
    let ghost a_base_g = base_of(op.a);
    let ghost b_base_g = base_of(op.b);
    let a_base: usize = match &op.a {
        PanelStore::Packed { base } => *base,
        PanelStore::Strides { .. } => 0,
    };
    let b_base: usize = match &op.b {
        PanelStore::Packed { base } => *base,
        PanelStore::Strides { .. } => 0,
    };
    let k = op.linear.k;
    let alen = a.len();
    let blen = b.len();

    let mut tile: Vec<i32> = Vec::new();
    let mut i: usize = 0;
    while i < len
        invariant
            i <= len,
            tile@.len() == i,
            forall|j: int| 0 <= j < i ==> tile@[j] == 0i32,
        decreases len - i,
    {
        tile.push(0);
        i = i + 1;
    }
    proof {
        assert(tile@ =~= acc_tile(a@, b@, a_base_g, b_base_g, 0, mr as int, nr as int));
    }
    let mut step: usize = 0;
    while step < k
        invariant
            step <= k,
            len == mr * nr,
            1 <= mr <= 0xffff,
            1 <= nr <= 0xffff,
            a_base as int == a_base_g,
            b_base as int == b_base_g,
            k == op.linear.k,
            a_base + k * mr <= alen,
            b_base + k * nr <= blen,
            alen == a@.len(),
            blen == b@.len(),
            tile@.len() == len,
            tile@ == acc_tile(a@, b@, a_base_g, b_base_g, step as int, mr as int, nr as int),
        decreases k - step,
    {
        let ghost tile_in = tile@;
        let mut i: usize = 0;
        while i < len
            invariant
                i <= len,
                step < k,
                len == mr * nr,
                1 <= mr <= 0xffff,
                1 <= nr <= 0xffff,
                a_base as int == a_base_g,
                b_base as int == b_base_g,
                a_base + k * mr <= alen,
                b_base + k * nr <= blen,
                alen == a@.len(),
                blen == b@.len(),
                tile@.len() == len,
                tile_in == acc_tile(a@, b@, a_base_g, b_base_g, step as int, mr as int, nr as int),
                forall|j: int|
                    0 <= j < i ==> tile@[j] == acc_tile(
                        a@,
                        b@,
                        a_base_g,
                        b_base_g,
                        step + 1,
                        mr as int,
                        nr as int,
                    )[j],
                forall|j: int| i <= j < len ==> tile@[j] == tile_in[j],
            decreases len - i,
        {
            proof {
                crate::fuse::lemma_tile_index(i as int, mr as int, nr as int);
                assert((step as int) * (mr as int) + (i as int) / (nr as int) < (k as int) * (
                mr as int)) by (nonlinear_arith)
                    requires
                        0 <= (step as int) < (k as int),
                        0 <= (i as int) / (nr as int) < (mr as int),
                {}
                assert((step as int) * (nr as int) + (i as int) % (nr as int) < (k as int) * (
                nr as int)) by (nonlinear_arith)
                    requires
                        0 <= (step as int) < (k as int),
                        0 <= (i as int) % (nr as int) < (nr as int),
                {}
            }
            let r = i / nr;
            let cc = i % nr;
            let av = a[a_base + step * mr + r];
            let bv = b[b_base + step * nr + cc];
            proof {
                assert(-0x8000_0000 <= (av as int) * (bv as int) < 0x8000_0000)
                    by (nonlinear_arith)
                    requires
                        -128 <= (av as int) <= 127,
                        -128 <= (bv as int) <= 127,
                {}
            }
            let prod: i32 = (av as i32) * (bv as i32);
            let w = wadd(tile[i], prod);
            tile.set(i, w);
            proof {
                let ii = i as int;
                let rr = ii / (nr as int);
                let ccc = ii % (nr as int);
                assert(tile_in[ii] as int == acc_elem(
                    a@,
                    b@,
                    a_base_g,
                    b_base_g,
                    step as int,
                    rr,
                    ccc,
                    mr as int,
                    nr as int,
                ));
                assert(acc_elem(a@, b@, a_base_g, b_base_g, step + 1, rr, ccc, mr as int, nr as int)
                    == wrap32(
                    acc_elem(a@, b@, a_base_g, b_base_g, step as int, rr, ccc, mr as int, nr as int)
                        + a@[a_base_g + (step as int) * (mr as int) + rr] * b@[b_base_g + (
                    step as int) * (nr as int) + ccc],
                ));
                assert(tile@[ii] as int == acc_elem(
                    a@,
                    b@,
                    a_base_g,
                    b_base_g,
                    step + 1,
                    rr,
                    ccc,
                    mr as int,
                    nr as int,
                ));
            }
            i = i + 1;
        }
        proof {
            assert(tile@ =~= acc_tile(
                a@,
                b@,
                a_base_g,
                b_base_g,
                step + 1,
                mr as int,
                nr as int,
            ));
        }
        step = step + 1;
    }
    proof {
        crate::fuse::lemma_apply_ops_len(
            op.non_linear@,
            tile@,
            tables_view(op.tables@),
            cin@,
            mr as int,
            nr as int,
        );
    }
    apply_pipeline(&mut tile, &op.non_linear, &op.tables, cin, mr, nr);
    tile
}

/// The portable reference engine over a 32-bit output storage: accumulate,
/// fuse, store. Returns the success status 0; the nonzero range stays
/// reserved for fault conditions.
pub fn kernel_impl(
    op: &MatMatMulKerSpec,
    a: &Vec<i8>,
    b: &Vec<i8>,
    c: &mut Vec<i32>,
    mr: usize,
    nr: usize,
) -> (r: isize)
    requires
        op.wf(mr as int, nr as int, a@.len() as int, b@.len() as int, old(c)@.len() as int),
    ensures
        r == 0,
        kernel_post(*op, a@, b@, old(c)@, final(c)@, mr as int, nr as int),
{
    let cin = read_tile(c, &op.c, mr, nr);
    let tile = compute_tile_exec(op, a, b, &cin, mr, nr);
    write_tile(c, &op.c, &tile, mr, nr);
    0
}

/// The portable reference engine over an 8-bit output storage, the
/// narrow-output family: the existing narrow tile is widened for `AddC`,
/// and the computed tile is stored saturated to the 8-bit range.
pub fn kernel_impl_i8(
    op: &MatMatMulKerSpec,
    a: &Vec<i8>,
    b: &Vec<i8>,
    c: &mut Vec<i8>,
    mr: usize,
    nr: usize,
) -> (r: isize)
    requires
        op.wf_i8(mr as int, nr as int, a@.len() as int, b@.len() as int, old(c)@.len() as int),
    ensures
        r == 0,
        kernel_post8(*op, a@, b@, old(c)@, final(c)@, mr as int, nr as int),
{
    let cin = read_tile_i8(c, &op.c, mr, nr);
    let tile = compute_tile_exec(op, a, b, &cin, mr, nr);
    write_tile_i8(c, &op.c, &tile, mr, nr);
    0
}

/// The contract every architecture- and data-type-specific tile-multiply
/// implementation satisfies: a fixed tile shape, the alignment and padding
/// the packer must honour, and the single `kernel` entry point.
pub trait MatMatMulKer: Sized {
    spec fn spec_mr() -> int;

    spec fn spec_nr() -> int;

    spec fn spec_alignment_a() -> int;

    spec fn spec_alignment_b() -> int;

    spec fn spec_end_padding_a() -> int;

    spec fn spec_end_padding_b() -> int;

    /// The tile shape is fixed and fits the storage index arithmetic.
    proof fn shape_bounds()
        ensures
            1 <= Self::spec_mr() <= 0xffff,
            1 <= Self::spec_nr() <= 0xffff,
    ;

    fn name() -> (r: &'static str);

    /// Rows of the accumulator tile.
    fn mr() -> (r: usize)
        ensures
            r as int == Self::spec_mr(),
    ;

    /// Columns of the accumulator tile.
    fn nr() -> (r: usize)
        ensures
            r as int == Self::spec_nr(),
    ;

    /// Minimum alignment, in bytes, the packer must guarantee for an A panel.
    fn alignment_bytes_packed_a() -> (r: usize)
        ensures
            r as int == Self::spec_alignment_a(),
    ;

    /// Minimum alignment, in bytes, the packer must guarantee for a B panel.
    fn alignment_bytes_packed_b() -> (r: usize)
        ensures
            r as int == Self::spec_alignment_b(),
    ;

    /// Zero padding, in items, the packer must append to an A panel.
    fn end_padding_packed_a() -> (r: usize)
        ensures
            r as int == Self::spec_end_padding_a(),
    ;

    /// Zero padding, in items, the packer must append to a B panel.
    fn end_padding_packed_b() -> (r: usize)
        ensures
            r as int == Self::spec_end_padding_b(),
    ;

    /// Run one tile: accumulate over the reduction length, apply the fused
    /// pipeline, store through the output layout. Returns 0 on success; a
    /// nonzero status stays reserved for fault conditions.
    fn kernel(op: &MatMatMulKerSpec, a: &Vec<i8>, b: &Vec<i8>, c: &mut Vec<i32>) -> (r: isize)
        requires
            op.wf(
                Self::spec_mr(),
                Self::spec_nr(),
                a@.len() as int,
                b@.len() as int,
                old(c)@.len() as int,
            ),
        ensures
            r == 0,
            kernel_post(*op, a@, b@, old(c)@, final(c)@, Self::spec_mr(), Self::spec_nr()),
    ;
}

/// 8-bit-operand 8x4 kernel with a 32-bit accumulator, narrow output
/// family; here it runs on the portable engine.
#[derive(Clone, Copy, Debug)]
pub struct MatMatMulI8x8x4;

/// 8-bit-operand 8x4 kernel keeping the full 32-bit accumulator as output;
/// here it runs on the portable engine.
#[derive(Clone, Copy, Debug)]
pub struct MatMatMulI8xI32x8x4;

impl MatMatMulKer for MatMatMulI8x8x4 {
    open spec fn spec_mr() -> int {
        8
    }

    open spec fn spec_nr() -> int {
        4
    }

    open spec fn spec_alignment_a() -> int {
        32
    }

    open spec fn spec_alignment_b() -> int {
        4
    }

    open spec fn spec_end_padding_a() -> int {
        0
    }

    open spec fn spec_end_padding_b() -> int {
        0
    }

    proof fn shape_bounds() {
    }

    fn name() -> (r: &'static str) {
        "neon"
    }

    fn mr() -> (r: usize) {
        8
    }

    fn nr() -> (r: usize) {
        4
    }

    fn alignment_bytes_packed_a() -> (r: usize) {
        32
    }

    fn alignment_bytes_packed_b() -> (r: usize) {
        4
    }

    fn end_padding_packed_a() -> (r: usize) {
        0
    }

    fn end_padding_packed_b() -> (r: usize) {
        0
    }

    fn kernel(op: &MatMatMulKerSpec, a: &Vec<i8>, b: &Vec<i8>, c: &mut Vec<i32>) -> (r: isize) {
        kernel_impl(op, a, b, c, 8, 4)
    }
}

impl MatMatMulI8x8x4 {
    /// Run one tile of the narrow-output family: the output storage holds
    /// 8-bit items, read widened for `AddC` and written back saturated.
    pub fn kernel_i8(op: &MatMatMulKerSpec, a: &Vec<i8>, b: &Vec<i8>, c: &mut Vec<i8>) -> (r:
        isize)
        requires
            op.wf_i8(8, 4, a@.len() as int, b@.len() as int, old(c)@.len() as int),
        ensures
            r == 0,
            kernel_post8(*op, a@, b@, old(c)@, final(c)@, 8, 4),
    {
        kernel_impl_i8(op, a, b, c, 8, 4)
    }
}

impl MatMatMulKer for MatMatMulI8xI32x8x4 {
    open spec fn spec_mr() -> int {
        8
    }

    open spec fn spec_nr() -> int {
        4
    }

    open spec fn spec_alignment_a() -> int {
        4
    }

    open spec fn spec_alignment_b() -> int {
        4
    }

    open spec fn spec_end_padding_a() -> int {
        0
    }

    open spec fn spec_end_padding_b() -> int {
        0
    }

    proof fn shape_bounds() {
    }

    fn name() -> (r: &'static str) {
        "neon"
    }

    fn mr() -> (r: usize) {
        8
    }

    fn nr() -> (r: usize) {
        4
    }

    fn alignment_bytes_packed_a() -> (r: usize) {
        4
    }

    fn alignment_bytes_packed_b() -> (r: usize) {
        4
    }

    fn end_padding_packed_a() -> (r: usize) {
        0
    }

    fn end_padding_packed_b() -> (r: usize) {
        0
    }

    fn kernel(op: &MatMatMulKerSpec, a: &Vec<i8>, b: &Vec<i8>, c: &mut Vec<i32>) -> (r: isize) {
        kernel_impl(op, a, b, c, 8, 4)
    }
}

/// 32-bit-float 8x4 kernel of the specialised instruction set. Floating
/// point stays outside the verified core; the implementation lives in the
/// surrounding application crate.
#[derive(Clone, Copy, Debug)]
pub struct MatMatMulF32x8x4;

/// 32-bit-float 32x1 kernel of the specialised instruction set. Floating
/// point stays outside the verified core; the implementation lives in the
/// surrounding application crate.
#[derive(Clone, Copy, Debug)]
pub struct MatMatMulF32x32x1;

/// Vectorised elementwise sigmoid over 32-bit floats. Floating point stays
/// outside the verified core; the implementation lives in the surrounding
/// application crate.
#[derive(Clone, Copy, Debug)]
pub struct SigmoidF32x4n;

/// Vectorised elementwise hyperbolic tangent over 32-bit floats. Floating
/// point stays outside the verified core; the implementation lives in the
/// surrounding application crate.
#[derive(Clone, Copy, Debug)]
pub struct TanhF32x4n;

/// The standard row-major output layout of one 8x4 tile at the start of a
/// buffer: row stride = tile width times item size, column stride = item
/// size.
pub open spec fn row_major_out_8x4() -> PanelStore {
    PanelStore::Strides { base: 0, row_byte_stride: 16, col_byte_stride: 4, item_size: 4 }
}

/// Whether one caller-facing fused operation fits the tile shape.
fn fused_spec_wf_check(sp: &FusedSpec, mr: usize, nr: usize) -> (b: bool)
    requires
        1 <= mr <= 0xffff,
        1 <= nr <= 0xffff,
    ensures
        b == sp.wf(mr as int, nr as int),
{
    match sp {
        FusedSpec::Min(_) => true,
        FusedSpec::Max(_) => true,
        FusedSpec::AddC => true,
        FusedSpec::PerRowMul(v) => v.len() >= mr,
        FusedSpec::PerRowAdd(v) => v.len() >= mr,
        FusedSpec::PerColMul(v) => v.len() >= nr,
        FusedSpec::PerColAdd(v) => v.len() >= nr,
        FusedSpec::AddRowColProducts(rv, cv) => rv.len() >= mr && cv.len() >= nr,
        FusedSpec::ScalarMul(_) => true,
        FusedSpec::ScalarAdd(_) => true,
        FusedSpec::QTowardsEven(_, shift) => 1 <= *shift && *shift < 64,
        FusedSpec::QTowardsPlusInf(_, shift) => 1 <= *shift && *shift < 64,
        FusedSpec::QAway(_, shift) => 1 <= *shift && *shift < 64,
        FusedSpec::AddUnicast(d, rbs, isz) => {
            if *isz != 4 || rbs % 4 != 0 {
                false
            } else {
                let m1 = (mr - 1) as u128;
                let rq = (*rbs / 4) as u128;
                proof {
                    assert(m1 * rq <= 0xffff * 0x4000_0000_0000_0000) by (nonlinear_arith)
                        requires
                            0 <= m1 <= 0xffff,
                            0 <= rq <= 0x4000_0000_0000_0000,
                    {}
                }
                m1 * rq + ((nr - 1) as u128) < d.len() as u128
            }
        },
    }
}

/// Run one 8x4 integer tile against row-major buffers: lower the
/// caller-facing fused sequence, bind the standard layouts at the start of
/// each buffer, and run the kernel. The tile is computed and stored exactly
/// when the operand panels cover the reduction, the output holds one tile,
/// and every fused operation fits the tile shape; otherwise nothing is
/// touched.
pub fn run_row_major_8x4(
    a: &Vec<i8>,
    b: &Vec<i8>,
    c: &mut Vec<i32>,
    k: usize,
    specs: &Vec<FusedSpec>,
) -> (ok: bool)
    ensures
        ok == (a@.len() >= k * 8 && b@.len() >= k * 4 && old(c)@.len() >= 32 && rich_wf(
            specs@,
            8,
            4,
        )),
        ok ==> write_post(
            old(c)@,
            final(c)@,
            row_major_out_8x4(),
            apply_rich(
                specs@,
                acc_tile(a@, b@, 0, 0, k as int, 8, 4),
                tile_of(old(c)@, row_major_out_8x4(), 8, 4),
                4,
            ),
            8,
            4,
        ),
        !ok ==> final(c)@ == old(c)@,
{
    if (a.len() as u128) < (k as u128) * 8 {
        return false;
    }
    if (b.len() as u128) < (k as u128) * 4 {
        return false;
    }
    if c.len() < 32 {
        return false;
    }
    let n = specs.len();
    let mut i: usize = 0;
    while i < n
        invariant
            i <= n == specs@.len(),
            forall|j: int| 0 <= j < i ==> #[trigger] specs@[j].wf(8, 4),
        decreases n - i,
    {
        if !fused_spec_wf_check(&specs[i], 8, 4) {
            proof {
                assert(!specs@[i as int].wf(8, 4));
                assert(!rich_wf(specs@, 8, 4));
            }
            return false;
        }
        i = i + 1;
    }
    proof {
        assert(rich_wf(specs@, 8, 4));
        lemma_row_major_strides_wf32(0, 4, 8, 4, c@.len() as int);
    }
    let (ops, tables) = lower(specs);
    let op = MatMatMulKerSpec {
        a: PanelStore::Packed { base: 0 },
        b: PanelStore::Packed { base: 0 },
        c: PanelStore::Strides { base: 0, row_byte_stride: 16, col_byte_stride: 4, item_size: 4 },
        linear: LinearSpec::k(k),
        non_linear: ops,
        tables,
    };
    proof {
        assert(op.c == row_major_out_8x4());
        assert(ops_wf(op.non_linear@, tables_view(op.tables@), 8, 4));
        assert(op.wf(8, 4, a@.len() as int, b@.len() as int, c@.len() as int));
    }
    let r = MatMatMulI8xI32x8x4::kernel(&op, a, b, c);
    proof {
        assert(r == 0);
        assert(apply_ops(
            op.non_linear@,
            acc_tile(a@, b@, 0, 0, k as int, 8, 4),
            tables_view(op.tables@),
            tile_of(old(c)@, op.c, 8, 4),
            8,
            4,
        ) == apply_rich(specs@, acc_tile(a@, b@, 0, 0, k as int, 8, 4), tile_of(old(c)@, op.c, 8, 4), 4));
    }
    true
}

/// The packed output layout of one 8x4 tile at the start of a buffer.
pub open spec fn packed_out_8x4() -> PanelStore {
    PanelStore::Packed { base: 0 }
}

/// As `run_row_major_8x4`, with the output stored packed at the start of
/// its buffer.
pub fn run_packed_8x4(
    a: &Vec<i8>,
    b: &Vec<i8>,
    c: &mut Vec<i32>,
    k: usize,
    specs: &Vec<FusedSpec>,
) -> (ok: bool)
    ensures
        ok == (a@.len() >= k * 8 && b@.len() >= k * 4 && old(c)@.len() >= 32 && rich_wf(
            specs@,
            8,
            4,
        )),
        ok ==> write_post(
            old(c)@,
            final(c)@,
            packed_out_8x4(),
            apply_rich(
                specs@,
                acc_tile(a@, b@, 0, 0, k as int, 8, 4),
                tile_of(old(c)@, packed_out_8x4(), 8, 4),
                4,
            ),
            8,
            4,
        ),
        !ok ==> final(c)@ == old(c)@,
{
    if (a.len() as u128) < (k as u128) * 8 {
        return false;
    }
    if (b.len() as u128) < (k as u128) * 4 {
        return false;
    }
    if c.len() < 32 {
        return false;
    }
    let n = specs.len();
    let mut i: usize = 0;
    while i < n
        invariant
            i <= n == specs@.len(),
            forall|j: int| 0 <= j < i ==> #[trigger] specs@[j].wf(8, 4),
        decreases n - i,
    {
        if !fused_spec_wf_check(&specs[i], 8, 4) {
            proof {
                assert(!specs@[i as int].wf(8, 4));
                assert(!rich_wf(specs@, 8, 4));
            }
            return false;
        }
        i = i + 1;
    }
    proof {
        assert(rich_wf(specs@, 8, 4));
        lemma_packed_wf32(0, 8, 4, c@.len() as int);
    }
    let (ops, tables) = lower(specs);
    let op = MatMatMulKerSpec {
        a: PanelStore::Packed { base: 0 },
        b: PanelStore::Packed { base: 0 },
        c: PanelStore::Packed { base: 0 },
        linear: LinearSpec::k(k),
        non_linear: ops,
        tables,
    };
    proof {
        assert(op.c == packed_out_8x4());
        assert(ops_wf(op.non_linear@, tables_view(op.tables@), 8, 4));
        assert(op.wf(8, 4, a@.len() as int, b@.len() as int, c@.len() as int));
    }
    let r = MatMatMulI8xI32x8x4::kernel(&op, a, b, c);
    proof {
        assert(r == 0);
        assert(apply_ops(
            op.non_linear@,
            acc_tile(a@, b@, 0, 0, k as int, 8, 4),
            tables_view(op.tables@),
            tile_of(old(c)@, op.c, 8, 4),
            8,
            4,
        ) == apply_rich(specs@, acc_tile(a@, b@, 0, 0, k as int, 8, 4), tile_of(old(c)@, op.c, 8, 4), 4));
    }
    true
}

} // verus!
