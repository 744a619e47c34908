//! The fused post-processing pipeline: a fixed-size-per-entry instruction
//! sequence the kernel applies to the accumulator tile after the reduction,
//! before the single store pass back into the output storage.
//!
//! `FusedSpec` is the caller-facing form, holding its operand vectors.
//! `FusedKerSpec` is the wire form handed to a kernel: every entry occupies
//! four machine words whatever its kind, so that pipelines can cross the
//! architecture boundary; a vector operand is bound into the call's table of
//! vectors and the entry carries its index, together with any stride
//! metadata.

use vstd::prelude::*;

verus! {

use crate::arith::wrap32;
use crate::quant::{q_towards_even, q_towards_plus_inf, q_away};

/// One caller-facing fused operation, owning its vector operands.
#[derive(Clone, Debug)]
pub enum FusedSpec {
    Min(i32),
    Max(i32),
    AddC,
    PerRowMul(Vec<i32>),
    PerRowAdd(Vec<i32>),
    PerColMul(Vec<i32>),
    PerColAdd(Vec<i32>),
    AddRowColProducts(Vec<i32>, Vec<i32>),
    ScalarMul(i32),
    ScalarAdd(i32),
    QTowardsEven(i32, usize),
    QTowardsPlusInf(i32, usize),
    QAway(i32, usize),
    AddUnicast(Vec<i32>, usize, usize),
}

/// One wire-format pipeline entry. Vector operands are indices into the
/// call's table of bound vectors; `AddUnicast` carries a row byte stride and
/// an item byte size beside its index.
#[derive(Clone, Copy, Debug)]
pub enum FusedKerSpec {
    Done,
    Min(i32),
    Max(i32),
    AddC,
    PerRowMul(usize),
    PerRowAdd(usize),
    PerColMul(usize),
    PerColAdd(usize),
    AddRowColProducts(usize, usize),
    ScalarMul(i32),
    ScalarAdd(i32),
    QTowardsEven(i32, usize),
    QTowardsPlusInf(i32, usize),
    QAway(i32, usize),
    AddUnicast(usize, usize, usize),
}

/// A tile of all zeros: the additive identity the accumulator starts from
/// when the reduction is empty.
pub open spec fn zero_tile(n: int) -> Seq<i32> {
    Seq::new(n as nat, |i: int| 0i32)
}

pub open spec fn map_min(t: Seq<i32>, x: i32) -> Seq<i32> {
    Seq::new(t.len(), |i: int| if t[i] < x { t[i] } else { x })
}

pub open spec fn map_max(t: Seq<i32>, x: i32) -> Seq<i32> {
    Seq::new(t.len(), |i: int| if t[i] > x { t[i] } else { x })
}

pub open spec fn map_add_c(t: Seq<i32>, cin: Seq<i32>) -> Seq<i32> {
    Seq::new(t.len(), |i: int| wrap32(t[i] + cin[i]) as i32)
}

pub open spec fn map_per_row_mul(t: Seq<i32>, v: Seq<i32>, nr: int) -> Seq<i32> {
    Seq::new(t.len(), |i: int| wrap32(t[i] * v[i / nr]) as i32)
}

pub open spec fn map_per_row_add(t: Seq<i32>, v: Seq<i32>, nr: int) -> Seq<i32> {
    Seq::new(t.len(), |i: int| wrap32(t[i] + v[i / nr]) as i32)
}

pub open spec fn map_per_col_mul(t: Seq<i32>, v: Seq<i32>, nr: int) -> Seq<i32> {
    Seq::new(t.len(), |i: int| wrap32(t[i] * v[i % nr]) as i32)
}

pub open spec fn map_per_col_add(t: Seq<i32>, v: Seq<i32>, nr: int) -> Seq<i32> {
    Seq::new(t.len(), |i: int| wrap32(t[i] + v[i % nr]) as i32)
}

pub open spec fn map_row_col_products(t: Seq<i32>, rv: Seq<i32>, cv: Seq<i32>, nr: int) -> Seq<
    i32,
> {
    Seq::new(t.len(), |i: int| wrap32(t[i] + wrap32(rv[i / nr] * cv[i % nr])) as i32)
}

pub open spec fn map_scalar_mul(t: Seq<i32>, x: i32) -> Seq<i32> {
    Seq::new(t.len(), |i: int| wrap32(t[i] * x) as i32)
}

pub open spec fn map_scalar_add(t: Seq<i32>, x: i32) -> Seq<i32> {
    Seq::new(t.len(), |i: int| wrap32(t[i] + x) as i32)
}

pub open spec fn map_q_even(t: Seq<i32>, mult: i32, shift: nat) -> Seq<i32> {
    Seq::new(t.len(), |i: int| q_towards_even(t[i] as int, mult as int, shift) as i32)
}

pub open spec fn map_q_plus_inf(t: Seq<i32>, mult: i32, shift: nat) -> Seq<i32> {
    Seq::new(t.len(), |i: int| q_towards_plus_inf(t[i] as int, mult as int, shift) as i32)
}

pub open spec fn map_q_away(t: Seq<i32>, mult: i32, shift: nat) -> Seq<i32> {
    Seq::new(t.len(), |i: int| q_away(t[i] as int, mult as int, shift) as i32)
}

/// Adding a second tensor addressed with a row byte stride over 32-bit
/// items: element (r, c) of the added tensor sits at item r * (stride / 4) + c.
pub open spec fn map_add_unicast(t: Seq<i32>, d: Seq<i32>, row_byte_stride: int, nr: int) -> Seq<
    i32,
> {
    Seq::new(t.len(), |i: int| wrap32(t[i] + d[(i / nr) * (row_byte_stride / 4) + i % nr]) as i32)
}

/// Validity of one wire entry against the bound tables and the tile shape.
pub open spec fn op_wf(op: FusedKerSpec, tables: Seq<Seq<i32>>, mr: int, nr: int) -> bool {
    match op {
        FusedKerSpec::Done => true,
        FusedKerSpec::Min(_) => true,
        FusedKerSpec::Max(_) => true,
        FusedKerSpec::AddC => true,
        FusedKerSpec::PerRowMul(ti) => ti < tables.len() && tables[ti as int].len() >= mr,
        FusedKerSpec::PerRowAdd(ti) => ti < tables.len() && tables[ti as int].len() >= mr,
        FusedKerSpec::PerColMul(ti) => ti < tables.len() && tables[ti as int].len() >= nr,
        FusedKerSpec::PerColAdd(ti) => ti < tables.len() && tables[ti as int].len() >= nr,
        FusedKerSpec::AddRowColProducts(ri, ci) => ri < tables.len() && ci < tables.len()
            && tables[ri as int].len() >= mr && tables[ci as int].len() >= nr,
        FusedKerSpec::ScalarMul(_) => true,
        FusedKerSpec::ScalarAdd(_) => true,
        FusedKerSpec::QTowardsEven(_, shift) => 1 <= shift < 64,
        FusedKerSpec::QTowardsPlusInf(_, shift) => 1 <= shift < 64,
        FusedKerSpec::QAway(_, shift) => 1 <= shift < 64,
        FusedKerSpec::AddUnicast(ti, rbs, isz) => isz == 4 && rbs % 4 == 0 && ti < tables.len()
            && (mr - 1) * (rbs as int / 4) + (nr - 1) < tables[ti as int].len(),
    }
}

/// Validity of every entry a kernel will execute: entries standing after the
/// terminating `Done` are never read and need not be valid.
pub open spec fn ops_wf(ops: Seq<FusedKerSpec>, tables: Seq<Seq<i32>>, mr: int, nr: int) -> bool
    decreases ops.len(),
{
    if ops.len() == 0 {
        true
    } else if ops[0] is Done {
        true
    } else {
        op_wf(ops[0], tables, mr, nr) && ops_wf(ops.drop_first(), tables, mr, nr)
    }
}

/// The tile one entry leaves behind, elementwise over the working tile `t`.
/// `cin` is the tile the output storage held when the call began; `AddC`
/// loads it into the accumulator.
pub open spec fn apply_op(
    op: FusedKerSpec,
    t: Seq<i32>,
    tables: Seq<Seq<i32>>,
    cin: Seq<i32>,
    mr: int,
    nr: int,
) -> Seq<i32> {
    match op {
        FusedKerSpec::Done => t,
        FusedKerSpec::Min(x) => map_min(t, x),
        FusedKerSpec::Max(x) => map_max(t, x),
        FusedKerSpec::AddC => map_add_c(t, cin),
        FusedKerSpec::PerRowMul(ti) => map_per_row_mul(t, tables[ti as int], nr),
        FusedKerSpec::PerRowAdd(ti) => map_per_row_add(t, tables[ti as int], nr),
        FusedKerSpec::PerColMul(ti) => map_per_col_mul(t, tables[ti as int], nr),
        FusedKerSpec::PerColAdd(ti) => map_per_col_add(t, tables[ti as int], nr),
        FusedKerSpec::AddRowColProducts(ri, ci) => map_row_col_products(
            t,
            tables[ri as int],
            tables[ci as int],
            nr,
        ),
        FusedKerSpec::ScalarMul(x) => map_scalar_mul(t, x),
        FusedKerSpec::ScalarAdd(x) => map_scalar_add(t, x),
        FusedKerSpec::QTowardsEven(mult, shift) => map_q_even(t, mult, shift as nat),
        FusedKerSpec::QTowardsPlusInf(mult, shift) => map_q_plus_inf(t, mult, shift as nat),
        FusedKerSpec::QAway(mult, shift) => map_q_away(t, mult, shift as nat),
        FusedKerSpec::AddUnicast(ti, rbs, _) => map_add_unicast(t, tables[ti as int], rbs as int, nr),
    }
}

/// The tile the whole pipeline leaves behind: entries applied left to right
/// until the `Done` sentinel (or the end of the sequence).
pub open spec fn apply_ops(
    ops: Seq<FusedKerSpec>,
    t: Seq<i32>,
    tables: Seq<Seq<i32>>,
    cin: Seq<i32>,
    mr: int,
    nr: int,
) -> Seq<i32>
    decreases ops.len(),
{
    if ops.len() == 0 {
        t
    } else if ops[0] is Done {
        t
    } else {
        apply_ops(ops.drop_first(), apply_op(ops[0], t, tables, cin, mr, nr), tables, cin, mr, nr)
    }
}

/// The views of the bound vector tables.
pub open spec fn tables_view(ts: Seq<Vec<i32>>) -> Seq<Seq<i32>> {
    ts.map_values(|v: Vec<i32>| v@)
}

/// Row and column of element `i` in an `mr` x `nr` tile stay in range.
pub proof fn lemma_tile_index(i: int, mr: int, nr: int)
    requires
        0 <= i < mr * nr,
        1 <= mr,
        1 <= nr,
    ensures
        0 <= i / nr < mr,
        0 <= i % nr < nr,
{
    assert(i / nr < mr) by (nonlinear_arith)
        requires
            0 <= i < mr * nr,
            nr >= 1,
            mr >= 1,
    {
        vstd::arithmetic::div_mod::lemma_multiply_divide_lt(i, nr, mr);
    }
}

fn op_min(tile: &mut Vec<i32>, x: i32)
    ensures
        final(tile)@ == map_min(old(tile)@, x),
{
    let ghost t0 = tile@;
    let len = tile.len();
    let mut i: usize = 0;
    while i < len
        invariant
            i <= len,
            tile@.len() == len == t0.len(),
            forall|j: int| 0 <= j < i ==> tile@[j] == map_min(t0, x)[j],
            forall|j: int| i <= j < len ==> tile@[j] == t0[j],
        decreases len - i,
    {
        let v = tile[i];
        let w = if v < x { v } else { x };
        tile.set(i, w);
        i = i + 1;
    }
    proof {
        assert(tile@ =~= map_min(t0, x));
    }
}

fn op_max(tile: &mut Vec<i32>, x: i32)
    ensures
        final(tile)@ == map_max(old(tile)@, x),
{
    let ghost t0 = tile@;
    let len = tile.len();
    let mut i: usize = 0;
    while i < len
        invariant
            i <= len,
            tile@.len() == len == t0.len(),
            forall|j: int| 0 <= j < i ==> tile@[j] == map_max(t0, x)[j],
            forall|j: int| i <= j < len ==> tile@[j] == t0[j],
        decreases len - i,
    {
        let v = tile[i];
        let w = if v > x { v } else { x };
        tile.set(i, w);
        i = i + 1;
    }
    proof {
        assert(tile@ =~= map_max(t0, x));
    }
}

fn op_scalar_mul(tile: &mut Vec<i32>, x: i32)
    ensures
        final(tile)@ == map_scalar_mul(old(tile)@, x),
{
    let ghost t0 = tile@;
    let len = tile.len();
    let mut i: usize = 0;
    while i < len
        invariant
            i <= len,
            tile@.len() == len == t0.len(),
            forall|j: int| 0 <= j < i ==> tile@[j] == map_scalar_mul(t0, x)[j],
            forall|j: int| i <= j < len ==> tile@[j] == t0[j],
        decreases len - i,
    {
        let v = crate::arith::wmul(tile[i], x);
        tile.set(i, v);
        i = i + 1;
    }
    proof {
        assert(tile@ =~= map_scalar_mul(t0, x));
    }
}

fn op_scalar_add(tile: &mut Vec<i32>, x: i32)
    ensures
        final(tile)@ == map_scalar_add(old(tile)@, x),
{
    let ghost t0 = tile@;
    let len = tile.len();
    let mut i: usize = 0;
    while i < len
        invariant
            i <= len,
            tile@.len() == len == t0.len(),
            forall|j: int| 0 <= j < i ==> tile@[j] == map_scalar_add(t0, x)[j],
            forall|j: int| i <= j < len ==> tile@[j] == t0[j],
        decreases len - i,
    {
        let v = crate::arith::wadd(tile[i], x);
        tile.set(i, v);
        i = i + 1;
    }
    proof {
        assert(tile@ =~= map_scalar_add(t0, x));
    }
}

fn op_add_c(tile: &mut Vec<i32>, cin: &Vec<i32>)
    requires
        cin@.len() == old(tile)@.len(),
    ensures
        final(tile)@ == map_add_c(old(tile)@, cin@),
{
    let ghost t0 = tile@;
    let len = tile.len();
    let mut i: usize = 0;
    while i < len
        invariant
            i <= len,
            tile@.len() == len == t0.len(),
            cin@.len() == len,
            forall|j: int| 0 <= j < i ==> tile@[j] == map_add_c(t0, cin@)[j],
            forall|j: int| i <= j < len ==> tile@[j] == t0[j],
        decreases len - i,
    {
        let v = crate::arith::wadd(tile[i], cin[i]);
        tile.set(i, v);
        i = i + 1;
    }
    proof {
        assert(tile@ =~= map_add_c(t0, cin@));
    }
}

fn op_per_row_mul(tile: &mut Vec<i32>, v: &Vec<i32>, mr: usize, nr: usize)
    requires
        1 <= mr <= 0xffff,
        1 <= nr <= 0xffff,
        old(tile)@.len() == mr * nr,
        v@.len() >= mr,
    ensures
        final(tile)@ == map_per_row_mul(old(tile)@, v@, nr as int),
{
    let ghost t0 = tile@;
    let len = tile.len();
    let mut i: usize = 0;
    while i < len
        invariant
            i <= len,
            tile@.len() == len == t0.len(),
            len == mr * nr,
            1 <= mr,
            1 <= nr,
            v@.len() >= mr,
            forall|j: int| 0 <= j < i ==> tile@[j] == map_per_row_mul(t0, v@, nr as int)[j],
            forall|j: int| i <= j < len ==> tile@[j] == t0[j],
        decreases len - i,
    {
        proof {
            lemma_tile_index(i as int, mr as int, nr as int);
        }
        let r = i / nr;
        let w = crate::arith::wmul(tile[i], v[r]);
        tile.set(i, w);
        i = i + 1;
    }
    proof {
        assert(tile@ =~= map_per_row_mul(t0, v@, nr as int));
    }
}

fn op_per_row_add(tile: &mut Vec<i32>, v: &Vec<i32>, mr: usize, nr: usize)
    requires
        1 <= mr <= 0xffff,
        1 <= nr <= 0xffff,
        old(tile)@.len() == mr * nr,
        v@.len() >= mr,
    ensures
        final(tile)@ == map_per_row_add(old(tile)@, v@, nr as int),
{
    let ghost t0 = tile@;
    let len = tile.len();
    let mut i: usize = 0;
    while i < len
        invariant
            i <= len,
            tile@.len() == len == t0.len(),
            len == mr * nr,
            1 <= mr,
            1 <= nr,
            v@.len() >= mr,
            forall|j: int| 0 <= j < i ==> tile@[j] == map_per_row_add(t0, v@, nr as int)[j],
            forall|j: int| i <= j < len ==> tile@[j] == t0[j],
        decreases len - i,
    {
        proof {
            lemma_tile_index(i as int, mr as int, nr as int);
        }
        let r = i / nr;
        let w = crate::arith::wadd(tile[i], v[r]);
        tile.set(i, w);
        i = i + 1;
    }
    proof {
        assert(tile@ =~= map_per_row_add(t0, v@, nr as int));
    }
}

fn op_per_col_mul(tile: &mut Vec<i32>, v: &Vec<i32>, mr: usize, nr: usize)
    requires
        1 <= mr <= 0xffff,
        1 <= nr <= 0xffff,
        old(tile)@.len() == mr * nr,
        v@.len() >= nr,
    ensures
        final(tile)@ == map_per_col_mul(old(tile)@, v@, nr as int),
{
    let ghost t0 = tile@;
    let len = tile.len();
    let mut i: usize = 0;
    while i < len
        invariant
            i <= len,
            tile@.len() == len == t0.len(),
            len == mr * nr,
            1 <= mr,
            1 <= nr,
            v@.len() >= nr,
            forall|j: int| 0 <= j < i ==> tile@[j] == map_per_col_mul(t0, v@, nr as int)[j],
            forall|j: int| i <= j < len ==> tile@[j] == t0[j],
        decreases len - i,
    {
        let c = i % nr;
        let w = crate::arith::wmul(tile[i], v[c]);
        tile.set(i, w);
        i = i + 1;
    }
    proof {
        assert(tile@ =~= map_per_col_mul(t0, v@, nr as int));
    }
}

fn op_per_col_add(tile: &mut Vec<i32>, v: &Vec<i32>, mr: usize, nr: usize)
    requires
        1 <= mr <= 0xffff,
        1 <= nr <= 0xffff,
        old(tile)@.len() == mr * nr,
        v@.len() >= nr,
    ensures
        final(tile)@ == map_per_col_add(old(tile)@, v@, nr as int),
{
    let ghost t0 = tile@;
    let len = tile.len();
    let mut i: usize = 0;
    while i < len
        invariant
            i <= len,
            tile@.len() == len == t0.len(),
            len == mr * nr,
            1 <= mr,
            1 <= nr,
            v@.len() >= nr,
            forall|j: int| 0 <= j < i ==> tile@[j] == map_per_col_add(t0, v@, nr as int)[j],
            forall|j: int| i <= j < len ==> tile@[j] == t0[j],
        decreases len - i,
    {
        let c = i % nr;
        let w = crate::arith::wadd(tile[i], v[c]);
        tile.set(i, w);
        i = i + 1;
    }
    proof {
        assert(tile@ =~= map_per_col_add(t0, v@, nr as int));
    }
}

fn op_row_col_products(tile: &mut Vec<i32>, rv: &Vec<i32>, cv: &Vec<i32>, mr: usize, nr: usize)
    requires
        1 <= mr <= 0xffff,
        1 <= nr <= 0xffff,
        old(tile)@.len() == mr * nr,
        rv@.len() >= mr,
        cv@.len() >= nr,
    ensures
        final(tile)@ == map_row_col_products(old(tile)@, rv@, cv@, nr as int),
{
    let ghost t0 = tile@;
    let len = tile.len();
    let mut i: usize = 0;
    while i < len
        invariant
            i <= len,
            tile@.len() == len == t0.len(),
            len == mr * nr,
            1 <= mr,
            1 <= nr,
            rv@.len() >= mr,
            cv@.len() >= nr,
            forall|j: int| 0 <= j < i ==> tile@[j] == map_row_col_products(t0, rv@, cv@, nr as int)[j],
            forall|j: int| i <= j < len ==> tile@[j] == t0[j],
        decreases len - i,
    {
        proof {
            lemma_tile_index(i as int, mr as int, nr as int);
        }
        let r = i / nr;
        let c = i % nr;
        let p = crate::arith::wmul(rv[r], cv[c]);
        let w = crate::arith::wadd(tile[i], p);
        tile.set(i, w);
        i = i + 1;
    }
    proof {
        assert(tile@ =~= map_row_col_products(t0, rv@, cv@, nr as int));
    }
}

fn op_q_even(tile: &mut Vec<i32>, mult: i32, shift: usize)
    requires
        1 <= shift < 64,
    ensures
        final(tile)@ == map_q_even(old(tile)@, mult, shift as nat),
{
    let ghost t0 = tile@;
    let len = tile.len();
    let mut i: usize = 0;
    while i < len
        invariant
            i <= len,
            1 <= shift < 64,
            tile@.len() == len == t0.len(),
            forall|j: int| 0 <= j < i ==> tile@[j] == map_q_even(t0, mult, shift as nat)[j],
            forall|j: int| i <= j < len ==> tile@[j] == t0[j],
        decreases len - i,
    {
        let w = crate::quant::round_towards_even(tile[i], mult, shift);
        tile.set(i, w);
        i = i + 1;
    }
    proof {
        assert(tile@ =~= map_q_even(t0, mult, shift as nat));
    }
}

fn op_q_plus_inf(tile: &mut Vec<i32>, mult: i32, shift: usize)
    requires
        1 <= shift < 64,
    ensures
        final(tile)@ == map_q_plus_inf(old(tile)@, mult, shift as nat),
{
    let ghost t0 = tile@;
    let len = tile.len();
    let mut i: usize = 0;
    while i < len
        invariant
            i <= len,
            1 <= shift < 64,
            tile@.len() == len == t0.len(),
            forall|j: int| 0 <= j < i ==> tile@[j] == map_q_plus_inf(t0, mult, shift as nat)[j],
            forall|j: int| i <= j < len ==> tile@[j] == t0[j],
        decreases len - i,
    {
        let w = crate::quant::round_towards_plus_inf(tile[i], mult, shift);
        tile.set(i, w);
        i = i + 1;
    }
    proof {
        assert(tile@ =~= map_q_plus_inf(t0, mult, shift as nat));
    }
}

fn op_q_away(tile: &mut Vec<i32>, mult: i32, shift: usize)
    requires
        1 <= shift < 64,
    ensures
        final(tile)@ == map_q_away(old(tile)@, mult, shift as nat),
{
    let ghost t0 = tile@;
    let len = tile.len();
    let mut i: usize = 0;
    while i < len
        invariant
            i <= len,
            1 <= shift < 64,
            tile@.len() == len == t0.len(),
            forall|j: int| 0 <= j < i ==> tile@[j] == map_q_away(t0, mult, shift as nat)[j],
            forall|j: int| i <= j < len ==> tile@[j] == t0[j],
        decreases len - i,
    {
        let w = crate::quant::round_away(tile[i], mult, shift);
        tile.set(i, w);
        i = i + 1;
    }
    proof {
        assert(tile@ =~= map_q_away(t0, mult, shift as nat));
    }
}

fn op_add_unicast(tile: &mut Vec<i32>, d: &Vec<i32>, rbs: usize, mr: usize, nr: usize)
    requires
        1 <= mr <= 0xffff,
        1 <= nr <= 0xffff,
        old(tile)@.len() == mr * nr,
        rbs % 4 == 0,
        (mr - 1) * (rbs as int / 4) + (nr - 1) < d@.len(),
    ensures
        final(tile)@ == map_add_unicast(old(tile)@, d@, rbs as int, nr as int),
{
    let ghost t0 = tile@;
    let len = tile.len();
    let rq = rbs / 4;
    let dlen = d.len();
    let mut i: usize = 0;
    while i < len
        invariant
            i <= len,
            tile@.len() == len == t0.len(),
            len == mr * nr,
            1 <= mr,
            1 <= nr,
            rq as int == rbs as int / 4,
            (mr - 1) * (rq as int) + (nr - 1) < dlen == d@.len(),
            forall|j: int| 0 <= j < i ==> tile@[j] == map_add_unicast(t0, d@, rbs as int, nr as int)[j],
            forall|j: int| i <= j < len ==> tile@[j] == t0[j],
        decreases len - i,
    {
        proof {
            lemma_tile_index(i as int, mr as int, nr as int);
            assert((i as int / nr as int) * (rq as int) <= (mr - 1) * (rq as int))
                by (nonlinear_arith)
                requires
                    0 <= i as int / nr as int <= mr - 1,
                    0 <= rq as int,
            {}
        }
        let r = i / nr;
        let c = i % nr;
        let pos = r * rq + c;
        let w = crate::arith::wadd(tile[i], d[pos]);
        tile.set(i, w);
        i = i + 1;
    }
    proof {
        assert(tile@ =~= map_add_unicast(t0, d@, rbs as int, nr as int));
    }
}

/// Apply a wire-format pipeline to the working tile, left to right, stopping
/// at the `Done` sentinel. `cin` is the tile the output storage held when
/// the call began.
pub fn apply_pipeline(
    tile: &mut Vec<i32>,
    ops: &Vec<FusedKerSpec>,
    tables: &Vec<Vec<i32>>,
    cin: &Vec<i32>,
    mr: usize,
    nr: usize,
)
    requires
        1 <= mr <= 0xffff,
        1 <= nr <= 0xffff,
        old(tile)@.len() == mr * nr,
        cin@.len() == mr * nr,
        ops_wf(ops@, tables_view(tables@), mr as int, nr as int),
    ensures
        final(tile)@ == apply_ops(
            ops@,
            old(tile)@,
            tables_view(tables@),
            cin@,
            mr as int,
            nr as int,
        ),
{
    let ghost t0 = tile@;
    let ghost tv = tables_view(tables@);
    proof {
        assert(ops@.skip(0) =~= ops@);
    }
    let len = ops.len();
    let mut i: usize = 0;
    let mut done = false;
    while i < len && !done
        invariant
            i <= len == ops@.len(),
            1 <= mr <= 0xffff,
            1 <= nr <= 0xffff,
            tile@.len() == mr * nr,
            cin@.len() == mr * nr,
            tv == tables_view(tables@),
            !done ==> ops_wf(ops@.skip(i as int), tv, mr as int, nr as int),
            !done ==> apply_ops(ops@.skip(i as int), tile@, tv, cin@, mr as int, nr as int)
                == apply_ops(ops@, t0, tv, cin@, mr as int, nr as int),
            done ==> tile@ == apply_ops(ops@, t0, tv, cin@, mr as int, nr as int),
        decreases len - i,
    {
        let ghost rest = ops@.skip(i as int);
        proof {
            assert(rest.len() > 0);
            assert(rest[0] == ops@[i as int]);
            assert(rest.drop_first() =~= ops@.skip(i as int + 1));
        }
        let op = ops[i];
        match op {
            FusedKerSpec::Done => {
                done = true;
            },
            FusedKerSpec::Min(x) => {
                op_min(tile, x);
            },
            FusedKerSpec::Max(x) => {
                op_max(tile, x);
            },
            FusedKerSpec::AddC => {
                op_add_c(tile, cin);
            },
            FusedKerSpec::PerRowMul(ti) => {
                op_per_row_mul(tile, &tables[ti], mr, nr);
            },
            FusedKerSpec::PerRowAdd(ti) => {
                op_per_row_add(tile, &tables[ti], mr, nr);
            },
            FusedKerSpec::PerColMul(ti) => {
                op_per_col_mul(tile, &tables[ti], mr, nr);
            },
            FusedKerSpec::PerColAdd(ti) => {
                op_per_col_add(tile, &tables[ti], mr, nr);
            },
            FusedKerSpec::AddRowColProducts(ri, ci) => {
                op_row_col_products(tile, &tables[ri], &tables[ci], mr, nr);
            },
            FusedKerSpec::ScalarMul(x) => {
                op_scalar_mul(tile, x);
            },
            FusedKerSpec::ScalarAdd(x) => {
                op_scalar_add(tile, x);
            },
            FusedKerSpec::QTowardsEven(mult, shift) => {
                op_q_even(tile, mult, shift);
            },
            FusedKerSpec::QTowardsPlusInf(mult, shift) => {
                op_q_plus_inf(tile, mult, shift);
            },
            FusedKerSpec::QAway(mult, shift) => {
                op_q_away(tile, mult, shift);
            },
            FusedKerSpec::AddUnicast(ti, rbs, _isz) => {
                op_add_unicast(tile, &tables[ti], rbs, mr, nr);
            },
        }
        i = i + 1;
    }
    proof {
        if !done {
            assert(ops@.skip(len as int).len() == 0);
        }
    }
}

/// A pipeline never changes the size of the tile it transforms.
pub proof fn lemma_apply_ops_len(
    ops: Seq<FusedKerSpec>,
    t: Seq<i32>,
    tables: Seq<Seq<i32>>,
    cin: Seq<i32>,
    mr: int,
    nr: int,
)
    ensures
        apply_ops(ops, t, tables, cin, mr, nr).len() == t.len(),
    decreases ops.len(),
{
    if ops.len() == 0 {
    } else if ops[0] is Done {
    } else {
        assert(apply_op(ops[0], t, tables, cin, mr, nr).len() == t.len());
        lemma_apply_ops_len(
            ops.drop_first(),
            apply_op(ops[0], t, tables, cin, mr, nr),
            tables,
            cin,
            mr,
            nr,
        );
    }
}

/// One execution step of a pipeline whose head is not the sentinel.
pub proof fn lemma_apply_ops_step(
    ops: Seq<FusedKerSpec>,
    t: Seq<i32>,
    tables: Seq<Seq<i32>>,
    cin: Seq<i32>,
    mr: int,
    nr: int,
)
    requires
        ops.len() > 0,
        !(ops[0] is Done),
    ensures
        apply_ops(ops, t, tables, cin, mr, nr) == apply_ops(
            ops.drop_first(),
            apply_op(ops[0], t, tables, cin, mr, nr),
            tables,
            cin,
            mr,
            nr,
        ),
{
}

/// A pipeline that is empty or starts with the sentinel leaves the tile as
/// it stands.
pub proof fn lemma_apply_ops_done(
    ops: Seq<FusedKerSpec>,
    t: Seq<i32>,
    tables: Seq<Seq<i32>>,
    cin: Seq<i32>,
    mr: int,
    nr: int,
)
    requires
        ops.len() == 0 || ops[0] is Done,
    ensures
        apply_ops(ops, t, tables, cin, mr, nr) == t,
{
}

impl FusedSpec {
    /// Validity of one caller-facing operation against a tile shape.
    pub open spec fn wf(self, mr: int, nr: int) -> bool {
        match self {
            FusedSpec::Min(_) => true,
            FusedSpec::Max(_) => true,
            FusedSpec::AddC => true,
            FusedSpec::PerRowMul(v) => v@.len() >= mr,
            FusedSpec::PerRowAdd(v) => v@.len() >= mr,
            FusedSpec::PerColMul(v) => v@.len() >= nr,
            FusedSpec::PerColAdd(v) => v@.len() >= nr,
            FusedSpec::AddRowColProducts(rv, cv) => rv@.len() >= mr && cv@.len() >= nr,
            FusedSpec::ScalarMul(_) => true,
            FusedSpec::ScalarAdd(_) => true,
            FusedSpec::QTowardsEven(_, shift) => 1 <= shift < 64,
            FusedSpec::QTowardsPlusInf(_, shift) => 1 <= shift < 64,
            FusedSpec::QAway(_, shift) => 1 <= shift < 64,
            FusedSpec::AddUnicast(d, rbs, isz) => isz == 4 && rbs % 4 == 0 && (mr - 1) * (
            rbs as int / 4) + (nr - 1) < d@.len(),
        }
    }

    /// The elementwise meaning of one caller-facing operation: the same
    /// transform its lowered wire entry performs.
    pub open spec fn apply(self, t: Seq<i32>, cin: Seq<i32>, nr: int) -> Seq<i32> {
        match self {
            FusedSpec::Min(x) => map_min(t, x),
            FusedSpec::Max(x) => map_max(t, x),
            FusedSpec::AddC => map_add_c(t, cin),
            FusedSpec::PerRowMul(v) => map_per_row_mul(t, v@, nr),
            FusedSpec::PerRowAdd(v) => map_per_row_add(t, v@, nr),
            FusedSpec::PerColMul(v) => map_per_col_mul(t, v@, nr),
            FusedSpec::PerColAdd(v) => map_per_col_add(t, v@, nr),
            FusedSpec::AddRowColProducts(rv, cv) => map_row_col_products(t, rv@, cv@, nr),
            FusedSpec::ScalarMul(x) => map_scalar_mul(t, x),
            FusedSpec::ScalarAdd(x) => map_scalar_add(t, x),
            FusedSpec::QTowardsEven(mult, shift) => map_q_even(t, mult, shift as nat),
            FusedSpec::QTowardsPlusInf(mult, shift) => map_q_plus_inf(t, mult, shift as nat),
            FusedSpec::QAway(mult, shift) => map_q_away(t, mult, shift as nat),
            FusedSpec::AddUnicast(d, rbs, _) => map_add_unicast(t, d@, rbs as int, nr),
        }
    }
}

/// Validity of a whole caller-facing sequence.
pub open spec fn rich_wf(specs: Seq<FusedSpec>, mr: int, nr: int) -> bool {
    forall|j: int| 0 <= j < specs.len() ==> #[trigger] specs[j].wf(mr, nr)
}

/// The tile a caller-facing sequence leaves behind, applied left to right.
pub open spec fn apply_rich(specs: Seq<FusedSpec>, t: Seq<i32>, cin: Seq<i32>, nr: int) -> Seq<
    i32,
>
    decreases specs.len(),
{
    if specs.len() == 0 {
        t
    } else {
        apply_rich(specs.drop_first(), specs[0].apply(t, cin, nr), cin, nr)
    }
}

/// The wire entry `op` is the lowering of the caller-facing `spec_op`, its
/// vector operands bound at the indexed tables.
pub open spec fn lowered_matches(
    spec_op: FusedSpec,
    op: FusedKerSpec,
    tables: Seq<Seq<i32>>,
) -> bool {
    match spec_op {
        FusedSpec::Min(x) => op == FusedKerSpec::Min(x),
        FusedSpec::Max(x) => op == FusedKerSpec::Max(x),
        FusedSpec::AddC => op == FusedKerSpec::AddC,
        FusedSpec::PerRowMul(v) => op matches FusedKerSpec::PerRowMul(ti) && ti < tables.len()
            && tables[ti as int] == v@,
        FusedSpec::PerRowAdd(v) => op matches FusedKerSpec::PerRowAdd(ti) && ti < tables.len()
            && tables[ti as int] == v@,
        FusedSpec::PerColMul(v) => op matches FusedKerSpec::PerColMul(ti) && ti < tables.len()
            && tables[ti as int] == v@,
        FusedSpec::PerColAdd(v) => op matches FusedKerSpec::PerColAdd(ti) && ti < tables.len()
            && tables[ti as int] == v@,
        FusedSpec::AddRowColProducts(rv, cv) => op matches FusedKerSpec::AddRowColProducts(ri, ci)
            && ri < tables.len() && ci < tables.len() && tables[ri as int] == rv@ && tables[ci as int]
            == cv@,
        FusedSpec::ScalarMul(x) => op == FusedKerSpec::ScalarMul(x),
        FusedSpec::ScalarAdd(x) => op == FusedKerSpec::ScalarAdd(x),
        FusedSpec::QTowardsEven(mult, shift) => op == FusedKerSpec::QTowardsEven(mult, shift),
        FusedSpec::QTowardsPlusInf(mult, shift) => op == FusedKerSpec::QTowardsPlusInf(
            mult,
            shift,
        ),
        FusedSpec::QAway(mult, shift) => op == FusedKerSpec::QAway(mult, shift),
        FusedSpec::AddUnicast(d, rbs, isz) => op matches FusedKerSpec::AddUnicast(ti, rbs2, isz2)
            && ti < tables.len() && tables[ti as int] == d@ && rbs2 == rbs && isz2 == isz,
    }
}

/// A lowered pipeline executes exactly as its caller-facing sequence, and
/// inherits its validity.
pub proof fn lemma_lowered_equiv(
    specs: Seq<FusedSpec>,
    ops: Seq<FusedKerSpec>,
    tables: Seq<Seq<i32>>,
    t: Seq<i32>,
    cin: Seq<i32>,
    mr: int,
    nr: int,
)
    requires
        ops.len() == specs.len() + 1,
        ops[specs.len() as int] is Done,
        forall|j: int|
            0 <= j < specs.len() ==> #[trigger] lowered_matches(specs[j], ops[j], tables) && !(
            ops[j] is Done),
    ensures
        apply_ops(ops, t, tables, cin, mr, nr) == apply_rich(specs, t, cin, nr),
        rich_wf(specs, mr, nr) ==> ops_wf(ops, tables, mr, nr),
    decreases specs.len(),
{
    if specs.len() == 0 {
        assert(ops[0] is Done);
    } else {
        assert(lowered_matches(specs[0], ops[0], tables));
        let t1 = apply_op(ops[0], t, tables, cin, mr, nr);
        assert(t1 == specs[0].apply(t, cin, nr));
        assert(forall|j: int|
            0 <= j < specs.drop_first().len() ==> #[trigger] lowered_matches(
                specs.drop_first()[j],
                ops.drop_first()[j],
                tables,
            ) && !(ops.drop_first()[j] is Done));
        assert(ops.drop_first()[specs.drop_first().len() as int] is Done);
        lemma_lowered_equiv(specs.drop_first(), ops.drop_first(), tables, t1, cin, mr, nr);
        if rich_wf(specs, mr, nr) {
            assert(specs[0].wf(mr, nr));
            assert(op_wf(ops[0], tables, mr, nr));
            assert(rich_wf(specs.drop_first(), mr, nr));
        }
    }
}

/// Copy one bound vector for the lowered pipeline's table.
fn clone_table(v: &Vec<i32>) -> (r: Vec<i32>)
    ensures
        r@ == v@,
{
    let mut r: Vec<i32> = Vec::new();
    let len = v.len();
    let mut i: usize = 0;
    while i < len
        invariant
            i <= len == v@.len(),
            r@ == v@.take(i as int),
        decreases len - i,
    {
        r.push(v[i]);
        proof {
            assert(r@ =~= v@.take(i + 1));
        }
        i = i + 1;
    }
    proof {
        assert(v@.take(len as int) =~= v@);
    }
    r
}

/// Lower a caller-facing sequence into the wire pipeline handed to a
/// kernel: one four-word entry per operation, vector operands bound into a
/// table of vectors, the `Done` sentinel appended. The lowered pipeline
/// executes exactly as the caller-facing sequence, on every tile, and is
/// valid for every tile shape the caller-facing sequence is valid for.
pub fn lower(specs: &Vec<FusedSpec>) -> (r: (Vec<FusedKerSpec>, Vec<Vec<i32>>))
    ensures
        forall|t: Seq<i32>, cin: Seq<i32>, mr: int, nr: int| #[trigger] apply_ops(
            r.0@,
            t,
            tables_view(r.1@),
            cin,
            mr,
            nr,
        ) == apply_rich(specs@, t, cin, nr),
        forall|mr: int, nr: int| #[trigger] rich_wf(specs@, mr, nr) ==> ops_wf(
            r.0@,
            tables_view(r.1@),
            mr,
            nr,
        ),
{
    let mut ops: Vec<FusedKerSpec> = Vec::new();
    let mut tables: Vec<Vec<i32>> = Vec::new();
    let n = specs.len();
    let mut i: usize = 0;
    while i < n
        invariant
            i <= n == specs@.len(),
            ops@.len() == i,
            forall|j: int|
                0 <= j < i ==> lowered_matches(specs@[j], #[trigger] ops@[j], tables_view(tables@))
                    && !(ops@[j] is Done),
        decreases n - i,
    {
        let ghost old_tables = tables@;
        let sp = &specs[i];
        match sp {
            FusedSpec::Min(x) => {
                ops.push(FusedKerSpec::Min(*x));
            },
            FusedSpec::Max(x) => {
                ops.push(FusedKerSpec::Max(*x));
            },
            FusedSpec::AddC => {
                ops.push(FusedKerSpec::AddC);
            },
            FusedSpec::PerRowMul(v) => {
                let ti = tables.len();
                tables.push(clone_table(v));
                ops.push(FusedKerSpec::PerRowMul(ti));
            },
            FusedSpec::PerRowAdd(v) => {
                let ti = tables.len();
                tables.push(clone_table(v));
                ops.push(FusedKerSpec::PerRowAdd(ti));
            },
            FusedSpec::PerColMul(v) => {
                let ti = tables.len();
                tables.push(clone_table(v));
                ops.push(FusedKerSpec::PerColMul(ti));
            },
            FusedSpec::PerColAdd(v) => {
                let ti = tables.len();
                tables.push(clone_table(v));
                ops.push(FusedKerSpec::PerColAdd(ti));
            },
            FusedSpec::AddRowColProducts(rv, cv) => {
                let ri = tables.len();
                tables.push(clone_table(rv));
                let ci = tables.len();
                tables.push(clone_table(cv));
                ops.push(FusedKerSpec::AddRowColProducts(ri, ci));
            },
            FusedSpec::ScalarMul(x) => {
                ops.push(FusedKerSpec::ScalarMul(*x));
            },
            FusedSpec::ScalarAdd(x) => {
                ops.push(FusedKerSpec::ScalarAdd(*x));
            },
            FusedSpec::QTowardsEven(mult, shift) => {
                ops.push(FusedKerSpec::QTowardsEven(*mult, *shift));
            },
            FusedSpec::QTowardsPlusInf(mult, shift) => {
                ops.push(FusedKerSpec::QTowardsPlusInf(*mult, *shift));
            },
            FusedSpec::QAway(mult, shift) => {
                ops.push(FusedKerSpec::QAway(*mult, *shift));
            },
            FusedSpec::AddUnicast(d, rbs, isz) => {
                let ti = tables.len();
                tables.push(clone_table(d));
                ops.push(FusedKerSpec::AddUnicast(ti, *rbs, *isz));
            },
        }
        proof {
            assert(specs@[i as int] == *sp);
            assert(ops@.len() == i + 1);
            assert forall|k: int| 0 <= k < old_tables.len() implies tables_view(tables@)[k]
                == tables_view(old_tables)[k] by {}
            assert(lowered_matches(specs@[i as int], ops@[i as int], tables_view(tables@)));
            assert forall|j: int| 0 <= j < i + 1 implies lowered_matches(
                specs@[j],
                #[trigger] ops@[j],
                tables_view(tables@),
            ) && !(ops@[j] is Done) by {
                if j < i {
                    assert(lowered_matches(specs@[j], ops@[j], tables_view(old_tables)));
                    assert(lowered_matches(specs@[j], ops@[j], tables_view(tables@)));
                } else {
                    assert(lowered_matches(specs@[j], ops@[j], tables_view(tables@)));
                }
            }
        }
        i = i + 1;
    }
    ops.push(FusedKerSpec::Done);
    proof {
        assert forall|t: Seq<i32>, cin: Seq<i32>, mr: int, nr: int| #[trigger] apply_ops(
            ops@,
            t,
            tables_view(tables@),
            cin,
            mr,
            nr,
        ) == apply_rich(specs@, t, cin, nr) by {
            lemma_lowered_equiv(specs@, ops@, tables_view(tables@), t, cin, mr, nr);
        }
        assert forall|mr: int, nr: int| #[trigger] rich_wf(specs@, mr, nr) implies ops_wf(
            ops@,
            tables_view(tables@),
            mr,
            nr,
        ) by {
            lemma_lowered_equiv(
                specs@,
                ops@,
                tables_view(tables@),
                Seq::<i32>::empty(),
                Seq::<i32>::empty(),
                mr,
                nr,
            );
        }
    }
    (ops, tables)
}

} // verus!
