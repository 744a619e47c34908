//! The reference model every kernel implementation must match: the
//! properties the conformance harness checks, stated and proved against the
//! pipeline and kernel semantics themselves.

use vstd::prelude::*;

verus! {

use crate::arith::lemma_wrap32_id;
use crate::fuse::{
    FusedKerSpec,
    apply_ops,
    apply_op,
    lemma_apply_ops_step,
    lemma_apply_ops_done,
    map_add_c,
    map_per_row_add,
    map_row_col_products,
    map_scalar_mul,
    map_q_even,
    map_q_plus_inf,
    map_q_away,
    zero_tile,
};
use crate::kernel::{MatMatMulKerSpec, kernel_output, kernel_post, acc_tile, base_of};
use crate::quant::{
    ref_even,
    ref_plus_inf,
    ref_away,
    lemma_round_half_policies,
};
use crate::storage::{PanelStore, tile_of, write_post, lemma_strided_matches_packed, lemma_write_agree};
use vstd::arithmetic::div_mod::lemma_fundamental_div_mod_converse;

/// An empty reduction with an empty pipeline produces the additive
/// identity: the output tile of such a call is entirely zero, whatever the
/// operand panels and whatever the output buffer held.
pub proof fn lemma_empty_pipeline_zeros(
    op: MatMatMulKerSpec,
    a: Seq<i8>,
    b: Seq<i8>,
    c0: Seq<i32>,
    mr: int,
    nr: int,
)
    requires
        op.non_linear@.len() == 0 || op.non_linear@[0] is Done,
        op.linear.k == 0,
    ensures
        kernel_output(op, a, b, c0, mr, nr) == zero_tile(mr * nr),
{
    assert(acc_tile(a, b, base_of(op.a), base_of(op.b), 0, mr, nr) =~= zero_tile(mr * nr));
}

/// Identity: loading the existing output tile and running no further fused
/// operation reproduces that tile unchanged, for any tile of the kernel's
/// shape.
pub proof fn lemma_identity(cin: Seq<i32>, tables: Seq<Seq<i32>>, mr: int, nr: int)
    requires
        1 <= mr,
        1 <= nr,
        cin.len() == mr * nr,
    ensures
        apply_ops(
            seq![FusedKerSpec::AddC, FusedKerSpec::Done],
            zero_tile(mr * nr),
            tables,
            cin,
            mr,
            nr,
        ) == cin,
{
    let s = seq![FusedKerSpec::AddC, FusedKerSpec::Done];
    let z = zero_tile(mr * nr);
    let t1 = map_add_c(z, cin);
    assert forall|i: int| 0 <= i < t1.len() implies t1[i] == cin[i] by {
        lemma_wrap32_id(0 + cin[i]);
    }
    assert(t1 =~= cin);
    lemma_apply_ops_step(s, z, tables, cin, mr, nr);
    assert(apply_op(s[0], z, tables, cin, mr, nr) == t1);
    assert(s.drop_first()[0] is Done);
    lemma_apply_ops_done(s.drop_first(), t1, tables, cin, mr, nr);
}

/// A per-row bias: after loading the tile `c` and adding the bias vector
/// `bv` broadcast across columns, element (row, col) holds
/// `c[row * nr + col] + bv[row]`, wherever that sum stays in the
/// accumulator's range.
pub proof fn lemma_per_row_add(c: Seq<i32>, bv: Seq<i32>, mr: int, nr: int, row: int, col: int)
    requires
        1 <= mr,
        1 <= nr,
        c.len() == mr * nr,
        bv.len() == mr,
        0 <= row < mr,
        0 <= col < nr,
        -0x8000_0000 <= c[row * nr + col] + bv[row] < 0x8000_0000,
    ensures
        apply_ops(
            seq![FusedKerSpec::AddC, FusedKerSpec::PerRowAdd(0), FusedKerSpec::Done],
            zero_tile(mr * nr),
            seq![bv],
            c,
            mr,
            nr,
        )[row * nr + col] == c[row * nr + col] + bv[row],
{
    let s = seq![FusedKerSpec::AddC, FusedKerSpec::PerRowAdd(0), FusedKerSpec::Done];
    let tables = seq![bv];
    let z = zero_tile(mr * nr);
    let t1 = map_add_c(z, c);
    assert forall|i: int| 0 <= i < t1.len() implies t1[i] == c[i] by {
        lemma_wrap32_id(0 + c[i]);
    }
    assert(t1 =~= c);
    let t2 = map_per_row_add(c, bv, nr);
    lemma_apply_ops_step(s, z, tables, c, mr, nr);
    assert(apply_op(s[0], z, tables, c, mr, nr) == t1);
    let s1 = s.drop_first();
    assert(s1[0] == FusedKerSpec::PerRowAdd(0usize));
    lemma_apply_ops_step(s1, c, tables, c, mr, nr);
    assert(apply_op(s1[0], c, tables, c, mr, nr) == t2);
    assert(s1.drop_first()[0] is Done);
    lemma_apply_ops_done(s1.drop_first(), t2, tables, c, mr, nr);
    assert(apply_ops(s, z, tables, c, mr, nr) == t2);
    assert(0 <= row * nr + col < mr * nr) by (nonlinear_arith)
        requires
            0 <= row < mr,
            0 <= col < nr,
    {}
    let i = row * nr + col;
    lemma_fundamental_div_mod_converse(i, nr, row, col);
    assert(i / nr == row);
    lemma_wrap32_id(c[i] + bv[row]);
}

/// The rank-1 zero-point correction: after loading the tile `c` and adding
/// the outer product of `rv` and `cv`, element (row, col) holds
/// `c[row * nr + col] + rv[row] * cv[col]`, wherever product and sum stay in
/// the accumulator's range.
pub proof fn lemma_add_row_col_products(
    c: Seq<i32>,
    rv: Seq<i32>,
    cv: Seq<i32>,
    mr: int,
    nr: int,
    row: int,
    col: int,
)
    requires
        1 <= mr,
        1 <= nr,
        c.len() == mr * nr,
        rv.len() == mr,
        cv.len() == nr,
        0 <= row < mr,
        0 <= col < nr,
        -0x8000_0000 <= rv[row] * cv[col] < 0x8000_0000,
        -0x8000_0000 <= c[row * nr + col] + rv[row] * cv[col] < 0x8000_0000,
    ensures
        apply_ops(
            seq![FusedKerSpec::AddC, FusedKerSpec::AddRowColProducts(0, 1), FusedKerSpec::Done],
            zero_tile(mr * nr),
            seq![rv, cv],
            c,
            mr,
            nr,
        )[row * nr + col] == c[row * nr + col] + rv[row] * cv[col],
{
    let s = seq![FusedKerSpec::AddC, FusedKerSpec::AddRowColProducts(0, 1), FusedKerSpec::Done];
    let tables = seq![rv, cv];
    let z = zero_tile(mr * nr);
    let t1 = map_add_c(z, c);
    assert forall|i: int| 0 <= i < t1.len() implies t1[i] == c[i] by {
        lemma_wrap32_id(0 + c[i]);
    }
    assert(t1 =~= c);
    let t2 = map_row_col_products(c, rv, cv, nr);
    lemma_apply_ops_step(s, z, tables, c, mr, nr);
    assert(apply_op(s[0], z, tables, c, mr, nr) == t1);
    let s1 = s.drop_first();
    assert(s1[0] == FusedKerSpec::AddRowColProducts(0usize, 1usize));
    lemma_apply_ops_step(s1, c, tables, c, mr, nr);
    assert(apply_op(s1[0], c, tables, c, mr, nr) == t2);
    assert(s1.drop_first()[0] is Done);
    lemma_apply_ops_done(s1.drop_first(), t2, tables, c, mr, nr);
    assert(apply_ops(s, z, tables, c, mr, nr) == t2);
    assert(0 <= row * nr + col < mr * nr) by (nonlinear_arith)
        requires
            0 <= row < mr,
            0 <= col < nr,
    {}
    let i = row * nr + col;
    lemma_fundamental_div_mod_converse(i, nr, row, col);
    assert(i / nr == row);
    assert(i % nr == col);
    lemma_wrap32_id(rv[row] * cv[col]);
    lemma_wrap32_id(c[i] + rv[row] * cv[col]);
}

/// Rounding under the three policies: a tile of values in [-20, 20], loaded,
/// doubled, and requantized with a one-half Q31 multiplier and a shift of
/// two, matches each policy's closed-form reference exactly, half-way
/// inputs included.
pub proof fn lemma_rounding_policies(c: Seq<i32>, tables: Seq<Seq<i32>>, mr: int, nr: int)
    requires
        1 <= mr,
        1 <= nr,
        c.len() == mr * nr,
        forall|i: int| 0 <= i < c.len() ==> -20 <= #[trigger] c[i] <= 20,
    ensures
        apply_ops(
            seq![
                FusedKerSpec::AddC,
                FusedKerSpec::ScalarMul(2),
                FusedKerSpec::QTowardsEven(0x4000_0000, 2),
                FusedKerSpec::Done,
            ],
            zero_tile(mr * nr),
            tables,
            c,
            mr,
            nr,
        ) == Seq::new(c.len(), |i: int| ref_even(c[i] as int) as i32),
        apply_ops(
            seq![
                FusedKerSpec::AddC,
                FusedKerSpec::ScalarMul(2),
                FusedKerSpec::QTowardsPlusInf(0x4000_0000, 2),
                FusedKerSpec::Done,
            ],
            zero_tile(mr * nr),
            tables,
            c,
            mr,
            nr,
        ) == Seq::new(c.len(), |i: int| ref_plus_inf(c[i] as int) as i32),
        apply_ops(
            seq![
                FusedKerSpec::AddC,
                FusedKerSpec::ScalarMul(2),
                FusedKerSpec::QAway(0x4000_0000, 2),
                FusedKerSpec::Done,
            ],
            zero_tile(mr * nr),
            tables,
            c,
            mr,
            nr,
        ) == Seq::new(c.len(), |i: int| ref_away(c[i] as int) as i32),
{
    let z = zero_tile(mr * nr);
    let t1 = map_add_c(z, c);
    assert forall|i: int| 0 <= i < t1.len() implies t1[i] == c[i] by {
        lemma_wrap32_id(0 + c[i]);
    }
    assert(t1 =~= c);
    let t2 = map_scalar_mul(c, 2);
    assert forall|i: int| 0 <= i < t2.len() implies t2[i] as int == 2 * (c[i] as int) by {
        lemma_wrap32_id(c[i] * 2);
    }
    let te = map_q_even(t2, 0x4000_0000, 2);
    let tp = map_q_plus_inf(t2, 0x4000_0000, 2);
    let ta = map_q_away(t2, 0x4000_0000, 2);
    assert forall|i: int| 0 <= i < c.len() implies {
        &&& te[i] == ref_even(c[i] as int) as i32
        &&& tp[i] == ref_plus_inf(c[i] as int) as i32
        &&& ta[i] == ref_away(c[i] as int) as i32
    } by {
        lemma_round_half_policies(c[i] as int);
        assert(t2[i] as int == 2 * (c[i] as int));
    }
    let se = seq![
        FusedKerSpec::AddC,
        FusedKerSpec::ScalarMul(2),
        FusedKerSpec::QTowardsEven(0x4000_0000, 2),
        FusedKerSpec::Done,
    ];
    let sp = seq![
        FusedKerSpec::AddC,
        FusedKerSpec::ScalarMul(2),
        FusedKerSpec::QTowardsPlusInf(0x4000_0000, 2),
        FusedKerSpec::Done,
    ];
    let sa = seq![
        FusedKerSpec::AddC,
        FusedKerSpec::ScalarMul(2),
        FusedKerSpec::QAway(0x4000_0000, 2),
        FusedKerSpec::Done,
    ];
    lemma_apply_ops_step(se, z, tables, c, mr, nr);
    assert(apply_op(se[0], z, tables, c, mr, nr) == t1);
    let se1 = se.drop_first();
    assert(se1[0] == FusedKerSpec::ScalarMul(2i32));
    lemma_apply_ops_step(se1, c, tables, c, mr, nr);
    assert(apply_op(se1[0], c, tables, c, mr, nr) == t2);
    let se2 = se1.drop_first();
    assert(se2[0] == FusedKerSpec::QTowardsEven(0x4000_0000i32, 2usize));
    lemma_apply_ops_step(se2, t2, tables, c, mr, nr);
    assert(apply_op(se2[0], t2, tables, c, mr, nr) == te);
    assert(se2.drop_first()[0] is Done);
    lemma_apply_ops_done(se2.drop_first(), te, tables, c, mr, nr);
    assert(apply_ops(se, z, tables, c, mr, nr) == te);

    lemma_apply_ops_step(sp, z, tables, c, mr, nr);
    assert(apply_op(sp[0], z, tables, c, mr, nr) == t1);
    let sp1 = sp.drop_first();
    assert(sp1[0] == FusedKerSpec::ScalarMul(2i32));
    lemma_apply_ops_step(sp1, c, tables, c, mr, nr);
    assert(apply_op(sp1[0], c, tables, c, mr, nr) == t2);
    let sp2 = sp1.drop_first();
    assert(sp2[0] == FusedKerSpec::QTowardsPlusInf(0x4000_0000i32, 2usize));
    lemma_apply_ops_step(sp2, t2, tables, c, mr, nr);
    assert(apply_op(sp2[0], t2, tables, c, mr, nr) == tp);
    assert(sp2.drop_first()[0] is Done);
    lemma_apply_ops_done(sp2.drop_first(), tp, tables, c, mr, nr);
    assert(apply_ops(sp, z, tables, c, mr, nr) == tp);

    lemma_apply_ops_step(sa, z, tables, c, mr, nr);
    assert(apply_op(sa[0], z, tables, c, mr, nr) == t1);
    let sa1 = sa.drop_first();
    assert(sa1[0] == FusedKerSpec::ScalarMul(2i32));
    lemma_apply_ops_step(sa1, c, tables, c, mr, nr);
    assert(apply_op(sa1[0], c, tables, c, mr, nr) == t2);
    let sa2 = sa1.drop_first();
    assert(sa2[0] == FusedKerSpec::QAway(0x4000_0000i32, 2usize));
    lemma_apply_ops_step(sa2, t2, tables, c, mr, nr);
    assert(apply_op(sa2[0], t2, tables, c, mr, nr) == ta);
    assert(sa2.drop_first()[0] is Done);
    lemma_apply_ops_done(sa2.drop_first(), ta, tables, c, mr, nr);
    assert(apply_ops(sa, z, tables, c, mr, nr) == ta);
    assert(te =~= Seq::new(c.len(), |i: int| ref_even(c[i] as int) as i32));
    assert(tp =~= Seq::new(c.len(), |i: int| ref_plus_inf(c[i] as int) as i32));
    assert(ta =~= Seq::new(c.len(), |i: int| ref_away(c[i] as int) as i32));
}

/// Strided versus packed output: writing the same tile through a strided
/// store whose row stride is the tile width times the item size and whose
/// column stride is the item size leaves a buffer byte-identical to the one
/// a packed store at the same base leaves.
pub proof fn lemma_strided_packed_write_identical(
    b0: Seq<i32>,
    b1: Seq<i32>,
    b2: Seq<i32>,
    base: usize,
    tile: Seq<i32>,
    mr: int,
    nr: int,
)
    requires
        0 <= nr <= 0x1fff_ffff,
        write_post(b0, b1, PanelStore::Packed { base }, tile, mr, nr),
        write_post(
            b0,
            b2,
            PanelStore::Strides {
                base,
                row_byte_stride: (4 * nr) as isize,
                col_byte_stride: 4 as isize,
                item_size: 4,
            },
            tile,
            mr,
            nr,
        ),
    ensures
        b1 == b2,
{
    let packed = PanelStore::Packed { base };
    let strided = PanelStore::Strides {
        base,
        row_byte_stride: (4 * nr) as isize,
        col_byte_stride: 4 as isize,
        item_size: 4,
    };
    lemma_strided_matches_packed(base, mr, nr);
    assert forall|r: int, c: int| 0 <= r < mr && 0 <= c < nr implies #[trigger] packed.item_index(
        r,
        c,
        nr,
    ) == #[trigger] strided.item_index(r, c, nr) by {
        assert(strided.byte_offset(r, c, nr) == packed.byte_offset(r, c, nr));
    }
    lemma_write_agree(b0, b1, b2, packed, strided, tile, mr, nr);
}

/// The strided-versus-packed equivalence, at the level of one whole kernel
/// call: two calls that differ only in the output layout, one packed, one
/// strided with row stride = tile width times item size and column stride =
/// item size, leave byte-identical output buffers.
pub proof fn lemma_kernel_strided_packed(
    op1: MatMatMulKerSpec,
    op2: MatMatMulKerSpec,
    a: Seq<i8>,
    b: Seq<i8>,
    c0: Seq<i32>,
    c1: Seq<i32>,
    c2: Seq<i32>,
    base: usize,
    mr: int,
    nr: int,
)
    requires
        1 <= mr,
        1 <= nr <= 0x1fff_ffff,
        op1.c == (PanelStore::Packed { base }),
        op2.c == (PanelStore::Strides {
            base,
            row_byte_stride: (4 * nr) as isize,
            col_byte_stride: 4 as isize,
            item_size: 4,
        }),
        op1.a == op2.a,
        op1.b == op2.b,
        op1.linear == op2.linear,
        op1.non_linear == op2.non_linear,
        op1.tables == op2.tables,
        kernel_post(op1, a, b, c0, c1, mr, nr),
        kernel_post(op2, a, b, c0, c2, mr, nr),
    ensures
        c1 == c2,
{
    lemma_strided_matches_packed(base, mr, nr);
    assert forall|r: int, c: int| 0 <= r < mr && 0 <= c < nr implies #[trigger] op1.c.item_index(
        r,
        c,
        nr,
    ) == #[trigger] op2.c.item_index(r, c, nr) by {
        assert(op2.c.byte_offset(r, c, nr) == op1.c.byte_offset(r, c, nr));
    }
    assert forall|i: int| 0 <= i < mr * nr implies tile_of(c0, op1.c, mr, nr)[i] == tile_of(
        c0,
        op2.c,
        mr,
        nr,
    )[i] by {
        crate::fuse::lemma_tile_index(i, mr, nr);
        assert(op1.c.item_index(i / nr, i % nr, nr) == op2.c.item_index(i / nr, i % nr, nr));
    }
    assert(tile_of(c0, op1.c, mr, nr) =~= tile_of(c0, op2.c, mr, nr));
    assert(kernel_output(op1, a, b, c0, mr, nr) == kernel_output(op2, a, b, c0, mr, nr));
    lemma_write_agree(
        c0,
        c1,
        c2,
        op1.c,
        op2.c,
        kernel_output(op1, a, b, c0, mr, nr),
        mr,
        nr,
    );
}

/// The empty-pipeline property at the level of one whole call: a call with
/// an empty reduction and an empty pipeline leaves zero at every item its
/// output storage addresses and every other item unchanged.
pub proof fn lemma_kernel_empty_pipeline_zeros(
    op: MatMatMulKerSpec,
    a: Seq<i8>,
    b: Seq<i8>,
    c0: Seq<i32>,
    c1: Seq<i32>,
    mr: int,
    nr: int,
)
    requires
        op.non_linear@.len() == 0 || op.non_linear@[0] is Done,
        op.linear.k == 0,
        kernel_post(op, a, b, c0, c1, mr, nr),
    ensures
        forall|r: int, c: int|
            0 <= r < mr && 0 <= c < nr ==> c1[#[trigger] op.c.item_index(r, c, nr)] == 0i32,
        forall|j: int|
            0 <= j < c1.len() && (forall|r: int, c: int|
                0 <= r < mr && 0 <= c < nr ==> j != #[trigger] op.c.item_index(r, c, nr)) ==> c1[j]
                == c0[j],
{
    lemma_empty_pipeline_zeros(op, a, b, c0, mr, nr);
    assert forall|r: int, c: int| 0 <= r < mr && 0 <= c < nr implies c1[#[trigger] op.c.item_index(
        r,
        c,
        nr,
    )] == 0i32 by {
        assert(0 <= r * nr + c < mr * nr) by (nonlinear_arith)
            requires
                0 <= r < mr,
                0 <= c < nr,
        {}
        assert(kernel_output(op, a, b, c0, mr, nr)[r * nr + c] == 0i32);
    }
}

/// The identity property at the level of one whole call: a call with an
/// empty reduction whose pipeline only loads the existing output tile
/// leaves the whole output buffer exactly as it was.
pub proof fn lemma_kernel_identity(
    op: MatMatMulKerSpec,
    a: Seq<i8>,
    b: Seq<i8>,
    c0: Seq<i32>,
    c1: Seq<i32>,
    mr: int,
    nr: int,
)
    requires
        1 <= mr,
        1 <= nr,
        op.non_linear@ == seq![FusedKerSpec::AddC, FusedKerSpec::Done],
        op.linear.k == 0,
        op.c.wf32(mr, nr, c0.len() as int),
        kernel_post(op, a, b, c0, c1, mr, nr),
    ensures
        c1 == c0,
{
    let cin = tile_of(c0, op.c, mr, nr);
    let acc = acc_tile(a, b, base_of(op.a), base_of(op.b), 0, mr, nr);
    assert(acc =~= crate::fuse::zero_tile(mr * nr));
    lemma_identity(cin, crate::fuse::tables_view(op.tables@), mr, nr);
    assert(kernel_output(op, a, b, c0, mr, nr) == cin);
    assert forall|j: int| 0 <= j < c1.len() implies c1[j] == c0[j] by {
        if exists|r: int, c: int|
            0 <= r < mr && 0 <= c < nr && j == #[trigger] op.c.item_index(r, c, nr) {
            let (r, c) = choose|r: int, c: int|
                0 <= r < mr && 0 <= c < nr && j == #[trigger] op.c.item_index(r, c, nr);
            assert(c1[op.c.item_index(r, c, nr)] == cin[r * nr + c]);
            assert(0 <= r * nr + c < mr * nr) by (nonlinear_arith)
                requires
                    0 <= r < mr,
                    0 <= c < nr,
            {}
            lemma_fundamental_div_mod_converse(r * nr + c, nr, r, c);
            assert(cin[r * nr + c] == c0[op.c.item_index(r, c, nr)]);
        } else {
            assert(forall|r: int, c: int|
                0 <= r < mr && 0 <= c < nr ==> j != #[trigger] op.c.item_index(r, c, nr));
        }
    }
    assert(c1 =~= c0);
}

} // verus!
