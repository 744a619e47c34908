//! Panel storage: how one operand or output tile is laid out in memory.
//! A tile is either packed (tightly, row-major, no gaps) or strided
//! (arbitrary row and column byte strides). The kernel honours the strides
//! exactly and never assumes a packed layout for a strided store.
//!
//! Addresses are modelled as byte offsets into a caller-owned buffer; the
//! store never owns the buffer it describes.

use vstd::prelude::*;

verus! {

use vstd::arithmetic::div_mod::{lemma_fundamental_div_mod, lemma_fundamental_div_mod_converse};

/// Layout of one packed or strided tile inside a borrowed buffer.
#[derive(Clone, Copy, Debug)]
pub enum PanelStore {
    /// Base byte offset only; items are tightly packed row-major, the item
    /// stride implicitly the tile width.
    Packed { base: usize },
    /// Base byte offset plus arbitrary row and column byte strides and the
    /// byte size of one item.
    Strides { base: usize, row_byte_stride: isize, col_byte_stride: isize, item_size: usize },
}

impl PanelStore {
    /// Byte offset of tile element (r, c) for a tile of width `nr`.
    pub open spec fn byte_offset(self, r: int, c: int, nr: int) -> int {
        match self {
            PanelStore::Packed { base } => base + 4 * (r * nr + c),
            PanelStore::Strides { base, row_byte_stride, col_byte_stride, .. } => base + r
                * row_byte_stride + c * col_byte_stride,
        }
    }

    /// Index of tile element (r, c) in a buffer of 32-bit items.
    pub open spec fn item_index(self, r: int, c: int, nr: int) -> int {
        self.byte_offset(r, c, nr) / 4
    }

    /// The store addresses 32-bit items and every tile element of an
    /// `mr` x `nr` tile falls on a distinct, aligned item inside a buffer of
    /// `len` items.
    pub open spec fn wf32(self, mr: int, nr: int, len: int) -> bool {
        &&& match self {
            PanelStore::Packed { .. } => true,
            PanelStore::Strides { item_size, .. } => item_size == 4,
        }
        &&& forall|r: int, c: int|
            0 <= r < mr && 0 <= c < nr ==> {
                &&& 0 <= #[trigger] self.byte_offset(r, c, nr)
                &&& self.byte_offset(r, c, nr) % 4 == 0
                &&& self.byte_offset(r, c, nr) / 4 < len
            }
        &&& forall|r1: int, c1: int, r2: int, c2: int|
            0 <= r1 < mr && 0 <= c1 < nr && 0 <= r2 < mr && 0 <= c2 < nr
                && #[trigger] self.item_index(r1, c1, nr) == #[trigger] self.item_index(
                r2,
                c2,
                nr,
            ) ==> r1 == r2 && c1 == c2
    }
}

/// The tile currently held in `buf` under layout `store`, row-major.
pub open spec fn tile_of(buf: Seq<i32>, store: PanelStore, mr: int, nr: int) -> Seq<i32> {
    Seq::new((mr * nr) as nat, |i: int| buf[store.item_index(i / nr, i % nr, nr)])
}

/// Item index of element (r, c), computed from the layout.
pub fn item_index_exec(store: &PanelStore, r: usize, c: usize, mr: usize, nr: usize, len: usize) -> (i:
    usize)
    requires
        mr <= 0xffff,
        nr <= 0xffff,
        r < mr,
        c < nr,
        store.wf32(mr as int, nr as int, len as int),
    ensures
        i as int == store.item_index(r as int, c as int, nr as int),
        i < len,
{
    proof {
        assert(store.byte_offset(r as int, c as int, nr as int) >= 0);
    }
    match store {
        PanelStore::Packed { base } => {
            let off: u128 = (*base as u128) + 4 * ((r as u128) * (nr as u128) + (c as u128));
            let i = (off / 4) as usize;
            proof {
                let bo = store.byte_offset(r as int, c as int, nr as int);
                lemma_fundamental_div_mod(bo, 4);
                assert(off as int == bo);
            }
            i
        },
        PanelStore::Strides { base, row_byte_stride, col_byte_stride, .. } => {
            proof {
                assert(-0x8000_0000_0000_0000_0000 <= (r as int) * (*row_byte_stride as int)
                    <= 0x8000_0000_0000_0000_0000) by (nonlinear_arith)
                    requires
                        0 <= (r as int) <= 0xffff,
                        -0x8000_0000_0000_0000 <= (*row_byte_stride as int)
                            <= 0x7fff_ffff_ffff_ffff,
                {}
                assert(-0x8000_0000_0000_0000_0000 <= (c as int) * (*col_byte_stride as int)
                    <= 0x8000_0000_0000_0000_0000) by (nonlinear_arith)
                    requires
                        0 <= (c as int) <= 0xffff,
                        -0x8000_0000_0000_0000 <= (*col_byte_stride as int)
                            <= 0x7fff_ffff_ffff_ffff,
                {}
            }
            let off_s: i128 = (*base as i128) + (r as i128) * (*row_byte_stride as i128) + (
            c as i128) * (*col_byte_stride as i128);
            proof {
                assert(off_s as int == store.byte_offset(r as int, c as int, nr as int));
            }
            let off: u128 = off_s as u128;
            let i = (off / 4) as usize;
            i
        },
    }
}

/// Read the tile a store currently addresses out of the buffer.
pub fn read_tile(buf: &Vec<i32>, store: &PanelStore, mr: usize, nr: usize) -> (t: Vec<i32>)
    requires
        1 <= mr <= 0xffff,
        1 <= nr <= 0xffff,
        store.wf32(mr as int, nr as int, buf@.len() as int),
    ensures
        t@ == tile_of(buf@, *store, mr as int, nr as int),
{
    proof {
        assert((mr as int) * (nr as int) <= 0xffff * 0xffff) by (nonlinear_arith)
            requires
                0 <= (mr as int) <= 0xffff,
                0 <= (nr as int) <= 0xffff,
        {}
    }
    let len = mr * nr;
    let mut t: Vec<i32> = Vec::new();
    let mut i: usize = 0;
    while i < len
        invariant
            len == mr * nr,
            mr <= 0xffff,
            nr >= 1,
            nr <= 0xffff,
            i <= len,
            store.wf32(mr as int, nr as int, buf@.len() as int),
            t@.len() == i,
            forall|j: int|
                0 <= j < i ==> t@[j] == buf@[store.item_index(j / (nr as int), j % (nr as int), nr as int)],
        decreases len - i,
    {
        let r = i / nr;
        let c = i % nr;
        proof {
            assert((r as int) == (i as int) / (nr as int));
            assert((c as int) == (i as int) % (nr as int));
            assert(r < mr) by (nonlinear_arith)
                requires
                    (i as int) < (mr as int) * (nr as int),
                    nr >= 1,
                    (r as int) == (i as int) / (nr as int),
                    mr >= 1,
            {
                vstd::arithmetic::div_mod::lemma_multiply_divide_lt(i as int, nr as int, mr as int);
            }
        }
        let idx = item_index_exec(store, r, c, mr, nr, buf.len());
        let v = buf[idx];
        t.push(v);
        i = i + 1;
    }
    proof {
        assert(t@ =~= tile_of(buf@, *store, mr as int, nr as int));
    }
    t
}

/// What a tile write leaves behind: every tile element stands at its item
/// index, and every item the store does not address is unchanged.
pub open spec fn write_post(
    b0: Seq<i32>,
    b1: Seq<i32>,
    store: PanelStore,
    tile: Seq<i32>,
    mr: int,
    nr: int,
) -> bool {
    &&& b1.len() == b0.len()
    &&& forall|r: int, c: int|
        0 <= r < mr && 0 <= c < nr ==> b1[#[trigger] store.item_index(r, c, nr)] == tile[r * nr + c]
    &&& forall|j: int|
        0 <= j < b1.len() && (forall|r: int, c: int|
            0 <= r < mr && 0 <= c < nr ==> j != #[trigger] store.item_index(r, c, nr)) ==> b1[j]
            == b0[j]
}

/// Write a tile into the buffer, honouring the store's layout exactly.
pub fn write_tile(buf: &mut Vec<i32>, store: &PanelStore, tile: &Vec<i32>, mr: usize, nr: usize)
    requires
        1 <= mr <= 0xffff,
        1 <= nr <= 0xffff,
        tile@.len() == mr * nr,
        store.wf32(mr as int, nr as int, old(buf)@.len() as int),
    ensures
        write_post(old(buf)@, final(buf)@, *store, tile@, mr as int, nr as int),
{
    let ghost b0 = buf@;
    let mut r: usize = 0;
    while r < mr
        invariant
            1 <= mr <= 0xffff,
            1 <= nr <= 0xffff,
            r <= mr,
            tile@.len() == mr * nr,
            store.wf32(mr as int, nr as int, b0.len() as int),
            buf@.len() == b0.len(),
            forall|r1: int, c1: int|
                0 <= r1 < r && 0 <= c1 < nr ==> buf@[#[trigger] store.item_index(r1, c1, nr as int)]
                    == tile@[r1 * (nr as int) + c1],
            forall|j: int|
                0 <= j < b0.len() && (forall|r1: int, c1: int|
                    0 <= r1 < r && 0 <= c1 < nr ==> j != #[trigger] store.item_index(
                        r1,
                        c1,
                        nr as int,
                    )) ==> buf@[j] == b0[j],
        decreases mr - r,
    {
        let mut c: usize = 0;
        while c < nr
            invariant
                1 <= mr <= 0xffff,
                1 <= nr <= 0xffff,
                r < mr,
                c <= nr,
                tile@.len() == mr * nr,
                store.wf32(mr as int, nr as int, b0.len() as int),
                buf@.len() == b0.len(),
                forall|r1: int, c1: int|
                    0 <= r1 < mr && 0 <= c1 < nr && (r1 < r || (r1 == r && c1 < c)) ==> buf@[#[trigger] store.item_index(
                        r1,
                        c1,
                        nr as int,
                    )] == tile@[r1 * (nr as int) + c1],
                forall|j: int|
                    0 <= j < b0.len() && (forall|r1: int, c1: int|
                        0 <= r1 < mr && 0 <= c1 < nr && (r1 < r || (r1 == r && c1 < c)) ==> j
                            != #[trigger] store.item_index(r1, c1, nr as int)) ==> buf@[j] == b0[j],
            decreases nr - c,
        {
            proof {
                assert((r as int) * (nr as int) + (c as int) < (mr as int) * (nr as int)
                    && (mr as int) * (nr as int) <= 0xffff * 0xffff) by (nonlinear_arith)
                    requires
                        0 <= (r as int) < (mr as int) <= 0xffff,
                        0 <= (c as int) < (nr as int) <= 0xffff,
                {}
            }
            let idx = item_index_exec(store, r, c, mr, nr, buf.len());
            let pos = r * nr + c;
            let v = tile[pos];
            buf.set(idx, v);
            c = c + 1;
        }
        r = r + 1;
    }
}

/// A strided store whose row stride is the tile width times the item size and
/// whose column stride is the item size addresses exactly the items a packed
/// store at the same base does: writing the same tile through either leaves a
/// byte-identical buffer.
pub proof fn lemma_strided_matches_packed(base: usize, mr: int, nr: int)
    requires
        0 <= nr <= 0x1fff_ffff,
    ensures
        forall|r: int, c: int|
            0 <= r < mr && 0 <= c < nr ==> #[trigger] (PanelStore::Strides {
                base,
                row_byte_stride: (4 * nr) as isize,
                col_byte_stride: 4 as isize,
                item_size: 4,
            }).byte_offset(r, c, nr) == (PanelStore::Packed { base }).byte_offset(r, c, nr),
{
    let st = PanelStore::Strides {
        base,
        row_byte_stride: (4 * nr) as isize,
        col_byte_stride: 4 as isize,
        item_size: 4,
    };
    assert forall|r: int, c: int| 0 <= r < mr && 0 <= c < nr implies #[trigger] st.byte_offset(
        r,
        c,
        nr,
    ) == (PanelStore::Packed { base }).byte_offset(r, c, nr) by {
        let rbs = (4 * nr) as isize;
        assert(rbs as int == 4 * nr);
        assert(r * (rbs as int) == 4 * (r * nr)) by (nonlinear_arith)
            requires
                rbs as int == 4 * nr,
        {}
        assert(st.byte_offset(r, c, nr) == base + r * (rbs as int) + c * ((4 as isize) as int));
        assert((PanelStore::Packed { base }).byte_offset(r, c, nr) == base + 4 * (r * nr + c));
    }
}

/// Two buffers that started equal and each received the same tile, one
/// through a store, one through another store addressing the same items, end
/// byte-identical.
pub proof fn lemma_write_agree(
    b0: Seq<i32>,
    b1: Seq<i32>,
    b2: Seq<i32>,
    s1: PanelStore,
    s2: PanelStore,
    tile: Seq<i32>,
    mr: int,
    nr: int,
)
    requires
        write_post(b0, b1, s1, tile, mr, nr),
        write_post(b0, b2, s2, tile, mr, nr),
        forall|r: int, c: int|
            0 <= r < mr && 0 <= c < nr ==> #[trigger] s1.item_index(r, c, nr)
                == #[trigger] s2.item_index(r, c, nr),
    ensures
        b1 == b2,
{
    assert forall|j: int| 0 <= j < b1.len() implies b1[j] == b2[j] by {
        if exists|r: int, c: int|
            0 <= r < mr && 0 <= c < nr && j == #[trigger] s1.item_index(r, c, nr) {
            let (r, c) = choose|r: int, c: int|
                0 <= r < mr && 0 <= c < nr && j == #[trigger] s1.item_index(r, c, nr);
            assert(b1[j] == tile[r * nr + c]);
            assert(s2.item_index(r, c, nr) == j);
            assert(b2[s2.item_index(r, c, nr)] == tile[r * nr + c]);
        } else {
            assert(forall|r: int, c: int|
                0 <= r < mr && 0 <= c < nr ==> j != #[trigger] s1.item_index(r, c, nr));
            assert forall|r: int, c: int| 0 <= r < mr && 0 <= c < nr implies j
                != #[trigger] s2.item_index(r, c, nr) by {
                assert(s1.item_index(r, c, nr) == s2.item_index(r, c, nr));
            }
            assert(b1[j] == b0[j]);
            assert(b2[j] == b0[j]);
        }
    }
    assert(b1 =~= b2);
}

impl PanelStore {
    /// Index of tile element (r, c) in a buffer of 8-bit items.
    pub open spec fn item_index8(self, r: int, c: int, nr: int) -> int {
        match self {
            PanelStore::Packed { base } => base + r * nr + c,
            PanelStore::Strides { base, row_byte_stride, col_byte_stride, .. } => base + r
                * row_byte_stride + c * col_byte_stride,
        }
    }

    /// The store addresses 8-bit items and every tile element of an
    /// `mr` x `nr` tile falls on a distinct item inside a buffer of `len`
    /// items.
    pub open spec fn wf8(self, mr: int, nr: int, len: int) -> bool {
        &&& match self {
            PanelStore::Packed { .. } => true,
            PanelStore::Strides { item_size, .. } => item_size == 1,
        }
        &&& forall|r: int, c: int|
            0 <= r < mr && 0 <= c < nr ==> 0 <= #[trigger] self.item_index8(r, c, nr) < len
        &&& forall|r1: int, c1: int, r2: int, c2: int|
            0 <= r1 < mr && 0 <= c1 < nr && 0 <= r2 < mr && 0 <= c2 < nr
                && #[trigger] self.item_index8(r1, c1, nr) == #[trigger] self.item_index8(
                r2,
                c2,
                nr,
            ) ==> r1 == r2 && c1 == c2
    }
}

/// The tile currently held in a buffer of 8-bit items, widened to the
/// accumulator width, row-major.
pub open spec fn tile_of_i8(buf: Seq<i8>, store: PanelStore, mr: int, nr: int) -> Seq<i32> {
    Seq::new((mr * nr) as nat, |i: int| buf[store.item_index8(i / nr, i % nr, nr)] as i32)
}

/// Item index of element (r, c) in a buffer of 8-bit items.
pub fn item_index8_exec(
    store: &PanelStore,
    r: usize,
    c: usize,
    mr: usize,
    nr: usize,
    len: usize,
) -> (i: usize)
    requires
        mr <= 0xffff,
        nr <= 0xffff,
        r < mr,
        c < nr,
        store.wf8(mr as int, nr as int, len as int),
    ensures
        i as int == store.item_index8(r as int, c as int, nr as int),
        i < len,
{
    proof {
        assert(store.item_index8(r as int, c as int, nr as int) >= 0);
    }
    match store {
        PanelStore::Packed { base } => {
            let off: u128 = (*base as u128) + (r as u128) * (nr as u128) + (c as u128);
            proof {
                assert(off as int == store.item_index8(r as int, c as int, nr as int));
            }
            off as usize
        },
        PanelStore::Strides { base, row_byte_stride, col_byte_stride, .. } => {
            proof {
                assert(-0x8000_0000_0000_0000_0000 <= (r as int) * (*row_byte_stride as int)
                    <= 0x8000_0000_0000_0000_0000) by (nonlinear_arith)
                    requires
                        0 <= (r as int) <= 0xffff,
                        -0x8000_0000_0000_0000 <= (*row_byte_stride as int)
                            <= 0x7fff_ffff_ffff_ffff,
                {}
                assert(-0x8000_0000_0000_0000_0000 <= (c as int) * (*col_byte_stride as int)
                    <= 0x8000_0000_0000_0000_0000) by (nonlinear_arith)
                    requires
                        0 <= (c as int) <= 0xffff,
                        -0x8000_0000_0000_0000 <= (*col_byte_stride as int)
                            <= 0x7fff_ffff_ffff_ffff,
                {}
            }
            let off_s: i128 = (*base as i128) + (r as i128) * (*row_byte_stride as i128) + (
            c as i128) * (*col_byte_stride as i128);
            proof {
                assert(off_s as int == store.item_index8(r as int, c as int, nr as int));
            }
            off_s as usize
        },
    }
}

/// Read the tile an 8-bit store currently addresses, widened to the
/// accumulator width.
pub fn read_tile_i8(buf: &Vec<i8>, store: &PanelStore, mr: usize, nr: usize) -> (t: Vec<i32>)
    requires
        1 <= mr <= 0xffff,
        1 <= nr <= 0xffff,
        store.wf8(mr as int, nr as int, buf@.len() as int),
    ensures
        t@ == tile_of_i8(buf@, *store, mr as int, nr as int),
{
    proof {
        assert((mr as int) * (nr as int) <= 0xffff * 0xffff) by (nonlinear_arith)
            requires
                0 <= (mr as int) <= 0xffff,
                0 <= (nr as int) <= 0xffff,
        {}
    }
    let len = mr * nr;
    let mut t: Vec<i32> = Vec::new();
    let mut i: usize = 0;
    while i < len
        invariant
            len == mr * nr,
            mr <= 0xffff,
            nr >= 1,
            nr <= 0xffff,
            i <= len,
            store.wf8(mr as int, nr as int, buf@.len() as int),
            t@.len() == i,
            forall|j: int|
                0 <= j < i ==> t@[j] == buf@[store.item_index8(
                    j / (nr as int),
                    j % (nr as int),
                    nr as int,
                )] as i32,
        decreases len - i,
    {
        let r = i / nr;
        let c = i % nr;
        proof {
            assert(r < mr) by (nonlinear_arith)
                requires
                    (i as int) < (mr as int) * (nr as int),
                    nr >= 1,
                    (r as int) == (i as int) / (nr as int),
                    mr >= 1,
            {
                vstd::arithmetic::div_mod::lemma_multiply_divide_lt(i as int, nr as int, mr as int);
            }
        }
        let idx = item_index8_exec(store, r, c, mr, nr, buf.len());
        let v = buf[idx];
        t.push(v as i32);
        i = i + 1;
    }
    proof {
        assert(t@ =~= tile_of_i8(buf@, *store, mr as int, nr as int));
    }
    t
}

/// What a narrowing tile write leaves behind: every tile element stands at
/// its item index saturated to the 8-bit range, and every item the store
/// does not address is unchanged.
pub open spec fn write_post8(
    b0: Seq<i8>,
    b1: Seq<i8>,
    store: PanelStore,
    tile: Seq<i32>,
    mr: int,
    nr: int,
) -> bool {
    &&& b1.len() == b0.len()
    &&& forall|r: int, c: int|
        0 <= r < mr && 0 <= c < nr ==> b1[#[trigger] store.item_index8(r, c, nr)] as int
            == crate::arith::sat8(tile[r * nr + c] as int)
    &&& forall|j: int|
        0 <= j < b1.len() && (forall|r: int, c: int|
            0 <= r < mr && 0 <= c < nr ==> j != #[trigger] store.item_index8(r, c, nr)) ==> b1[j]
            == b0[j]
}

/// Write a tile into a buffer of 8-bit items, saturating each element to
/// the narrow range, honouring the store's layout exactly.
pub fn write_tile_i8(buf: &mut Vec<i8>, store: &PanelStore, tile: &Vec<i32>, mr: usize, nr: usize)
    requires
        1 <= mr <= 0xffff,
        1 <= nr <= 0xffff,
        tile@.len() == mr * nr,
        store.wf8(mr as int, nr as int, old(buf)@.len() as int),
    ensures
        write_post8(old(buf)@, final(buf)@, *store, tile@, mr as int, nr as int),
{
    let ghost b0 = buf@;
    let mut r: usize = 0;
    while r < mr
        invariant
            1 <= mr <= 0xffff,
            1 <= nr <= 0xffff,
            r <= mr,
            tile@.len() == mr * nr,
            store.wf8(mr as int, nr as int, b0.len() as int),
            buf@.len() == b0.len(),
            forall|r1: int, c1: int|
                0 <= r1 < r && 0 <= c1 < nr ==> buf@[#[trigger] store.item_index8(
                    r1,
                    c1,
                    nr as int,
                )] as int == crate::arith::sat8(tile@[r1 * (nr as int) + c1] as int),
            forall|j: int|
                0 <= j < b0.len() && (forall|r1: int, c1: int|
                    0 <= r1 < r && 0 <= c1 < nr ==> j != #[trigger] store.item_index8(
                        r1,
                        c1,
                        nr as int,
                    )) ==> buf@[j] == b0[j],
        decreases mr - r,
    {
        let mut c: usize = 0;
        while c < nr
            invariant
                1 <= mr <= 0xffff,
                1 <= nr <= 0xffff,
                r < mr,
                c <= nr,
                tile@.len() == mr * nr,
                store.wf8(mr as int, nr as int, b0.len() as int),
                buf@.len() == b0.len(),
                forall|r1: int, c1: int|
                    0 <= r1 < mr && 0 <= c1 < nr && (r1 < r || (r1 == r && c1 < c)) ==> buf@[#[trigger] store.item_index8(
                        r1,
                        c1,
                        nr as int,
                    )] as int == crate::arith::sat8(tile@[r1 * (nr as int) + c1] as int),
                forall|j: int|
                    0 <= j < b0.len() && (forall|r1: int, c1: int|
                        0 <= r1 < mr && 0 <= c1 < nr && (r1 < r || (r1 == r && c1 < c)) ==> j
                            != #[trigger] store.item_index8(r1, c1, nr as int)) ==> buf@[j] == b0[j],
            decreases nr - c,
        {
            proof {
                assert((r as int) * (nr as int) + (c as int) < (mr as int) * (nr as int)
                    && (mr as int) * (nr as int) <= 0xffff * 0xffff) by (nonlinear_arith)
                    requires
                        0 <= (r as int) < (mr as int) <= 0xffff,
                        0 <= (c as int) < (nr as int) <= 0xffff,
                {}
            }
            let idx = item_index8_exec(store, r, c, mr, nr, buf.len());
            let pos = r * nr + c;
            let v = crate::arith::sat_narrow_i8(tile[pos]);
            buf.set(idx, v);
            c = c + 1;
        }
        r = r + 1;
    }
}

/// A packed store over 32-bit items is well formed wherever its base is
/// aligned and one whole tile fits in the buffer.
pub proof fn lemma_packed_wf32(base: usize, mr: int, nr: int, len: int)
    requires
        1 <= mr <= 0xffff,
        1 <= nr <= 0xffff,
        base % 4 == 0,
        base / 4 + mr * nr <= len,
    ensures
        (PanelStore::Packed { base }).wf32(mr, nr, len),
{
    let st = PanelStore::Packed { base };
    lemma_fundamental_div_mod(base as int, 4);
    assert forall|r: int, c: int| 0 <= r < mr && 0 <= c < nr implies {
        &&& 0 <= #[trigger] st.byte_offset(r, c, nr)
        &&& st.byte_offset(r, c, nr) % 4 == 0
        &&& st.byte_offset(r, c, nr) / 4 < len
    } by {
        assert(0 <= r * nr + c < mr * nr) by (nonlinear_arith)
            requires
                0 <= r < mr,
                0 <= c < nr,
        {}
        lemma_fundamental_div_mod_converse(
            st.byte_offset(r, c, nr),
            4,
            base as int / 4 + r * nr + c,
            0,
        );
    }
    assert forall|r1: int, c1: int, r2: int, c2: int|
        0 <= r1 < mr && 0 <= c1 < nr && 0 <= r2 < mr && 0 <= c2 < nr && #[trigger] st.item_index(
            r1,
            c1,
            nr,
        ) == #[trigger] st.item_index(r2, c2, nr) implies r1 == r2 && c1 == c2 by {
        lemma_fundamental_div_mod_converse(
            st.byte_offset(r1, c1, nr),
            4,
            base as int / 4 + r1 * nr + c1,
            0,
        );
        lemma_fundamental_div_mod_converse(
            st.byte_offset(r2, c2, nr),
            4,
            base as int / 4 + r2 * nr + c2,
            0,
        );
        assert(r1 * nr + c1 == r2 * nr + c2);
        lemma_fundamental_div_mod_converse(r1 * nr + c1, nr, r1, c1);
        lemma_fundamental_div_mod_converse(r2 * nr + c2, nr, r2, c2);
    }
}

/// A row-major strided store over 32-bit items, with `rsc` items from one
/// row to the next, is well formed wherever the row pitch covers the tile
/// width, the base is aligned, and the last row fits in the buffer.
pub proof fn lemma_row_major_strides_wf32(base: usize, rsc: usize, mr: int, nr: int, len: int)
    requires
        1 <= mr <= 0xffff,
        1 <= nr <= 0xffff,
        nr <= rsc <= 0x1fff_ffff,
        base % 4 == 0,
        base / 4 + (mr - 1) * rsc + nr <= len,
    ensures
        (PanelStore::Strides {
            base,
            row_byte_stride: (4 * rsc) as isize,
            col_byte_stride: 4 as isize,
            item_size: 4,
        }).wf32(mr, nr, len),
{
    let st = PanelStore::Strides {
        base,
        row_byte_stride: (4 * rsc) as isize,
        col_byte_stride: 4 as isize,
        item_size: 4,
    };
    lemma_fundamental_div_mod(base as int, 4);
    assert(((4 * rsc) as isize) as int == 4 * rsc);
    assert forall|r: int, c: int| 0 <= r < mr && 0 <= c < nr implies {
        &&& 0 <= #[trigger] st.byte_offset(r, c, nr)
        &&& st.byte_offset(r, c, nr) % 4 == 0
        &&& st.byte_offset(r, c, nr) / 4 < len
    } by {
        assert(st.byte_offset(r, c, nr) == base + 4 * (r * rsc + c)
            && 0 <= r * rsc + c <= (mr - 1) * rsc + nr - 1) by (nonlinear_arith)
            requires
                0 <= r < mr,
                0 <= c < nr,
                nr <= rsc,
                st.byte_offset(r, c, nr) == base + r * (((4 * rsc) as isize) as int) + c * 4,
                (((4 * rsc) as isize) as int) == 4 * rsc,
        {}
        lemma_fundamental_div_mod_converse(
            st.byte_offset(r, c, nr),
            4,
            base as int / 4 + r * rsc + c,
            0,
        );
    }
    assert forall|r1: int, c1: int, r2: int, c2: int|
        0 <= r1 < mr && 0 <= c1 < nr && 0 <= r2 < mr && 0 <= c2 < nr && #[trigger] st.item_index(
            r1,
            c1,
            nr,
        ) == #[trigger] st.item_index(r2, c2, nr) implies r1 == r2 && c1 == c2 by {
        assert(st.byte_offset(r1, c1, nr) == base + 4 * (r1 * rsc + c1)) by (nonlinear_arith)
            requires
                st.byte_offset(r1, c1, nr) == base + r1 * (((4 * rsc) as isize) as int) + c1 * 4,
                (((4 * rsc) as isize) as int) == 4 * rsc,
        {}
        assert(st.byte_offset(r2, c2, nr) == base + 4 * (r2 * rsc + c2)) by (nonlinear_arith)
            requires
                st.byte_offset(r2, c2, nr) == base + r2 * (((4 * rsc) as isize) as int) + c2 * 4,
                (((4 * rsc) as isize) as int) == 4 * rsc,
        {}
        assert(0 <= r1 * rsc + c1) by (nonlinear_arith)
            requires
                0 <= r1,
                0 <= c1,
                0 <= rsc,
        {}
        assert(0 <= r2 * rsc + c2) by (nonlinear_arith)
            requires
                0 <= r2,
                0 <= c2,
                0 <= rsc,
        {}
        lemma_fundamental_div_mod_converse(
            st.byte_offset(r1, c1, nr),
            4,
            base as int / 4 + r1 * rsc + c1,
            0,
        );
        lemma_fundamental_div_mod_converse(
            st.byte_offset(r2, c2, nr),
            4,
            base as int / 4 + r2 * rsc + c2,
            0,
        );
        assert(r1 * rsc + c1 == r2 * rsc + c2);
        lemma_fundamental_div_mod_converse(r1 * rsc + c1, rsc as int, r1, c1);
        lemma_fundamental_div_mod_converse(r2 * rsc + c2, rsc as int, r2, c2);
    }
}

} // verus!
