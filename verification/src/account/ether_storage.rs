use vstd::prelude::*;

use ethnum::U256;

use vstd::string::StringSliceAdditionalSpecFns;

use crate::error::str_from_utf8;
use crate::solana::{create_with_seed, pda_marker, sha256_digest};
use crate::uint::{u256_bytes, u256_to_be_bytes};

verus! {

/// One storage slot of a storage account: its index within the account and its value.
#[derive(Debug, Clone, Copy, PartialEq, Eq)]
pub struct Cell {
    pub subindex: u8,
    pub value: [u8; 32],
}

/// The current layout of a storage account's header.
#[derive(Debug, Clone, Copy, PartialEq, Eq)]
pub struct HeaderWithRevision {
    pub revision: u32,
}

/// The seed of the storage cell of `index_bytes`, the big-endian bytes of a slot index: the
/// low 7 bits of bytes 3 to 30, then their top bits, seven to a byte.
pub open spec fn storage_seed(index_bytes: Seq<u8>) -> Seq<u8> {
    Seq::new(
        32,
        |i: int|
            if i < 28 {
                index_bytes[3 + i] & 0x7f
            } else {
                top_bits(index_bytes, 3 + 7 * (i - 28))
            },
    )
}

/// The top bits of the seven bytes of `b` from `at` on, the first at bit 6.
pub open spec fn top_bits(b: Seq<u8>, at: int) -> u8 {
    ((b[at] & 0x80) >> 1u8) | ((b[at + 1] & 0x80) >> 2u8) | ((b[at + 2] & 0x80) >> 3u8) | ((b[at
        + 3] & 0x80) >> 4u8) | ((b[at + 4] & 0x80) >> 5u8) | ((b[at + 5] & 0x80) >> 6u8) | ((b[at
        + 6] & 0x80) >> 7u8)
}

/// The address of the account that holds a storage cell: the key it is derived from, its
/// seed, and the key derived.
pub struct StorageCellAddress {
    base: [u8; 32],
    seed: [u8; 32],
    pubkey: [u8; 32],
}

impl StorageCellAddress {
    /// The seed is ASCII, so it is a text.
    #[verifier::type_invariant]
    spec fn seed_is_ascii(self) -> bool {
        forall|i: int| 0 <= i < 32 ==> self.seed@[i] < 0x80
    }

    /// The seed of the storage cell of slot `index`.
    pub fn make_seed(index: &U256) -> (r: [u8; 32])
        ensures
            r@ == storage_seed(u256_bytes(*index)),
            forall|i: int| 0 <= i < 32 ==> r@[i] < 0x80,
    {
        let index_bytes = u256_to_be_bytes(*index);
        let mut buffer = [0u8; 32];
        let mut i: usize = 0;
        while i < 28
            invariant
                i <= 28,
                index_bytes@ == u256_bytes(*index),
                forall|j: int| 0 <= j < i ==> buffer@[j] == index_bytes@[3 + j] & 0x7f,
                forall|j: int| 28 <= j < 32 ==> buffer@[j] == 0,
            decreases 28 - i,
        {
            buffer[i] = index_bytes[3 + i] & 0x7f;
            i += 1;
        }
        let mut g: usize = 0;
        while g < 4
            invariant
                g <= 4,
                index_bytes@ == u256_bytes(*index),
                forall|j: int| 0 <= j < 28 ==> buffer@[j] == index_bytes@[3 + j] & 0x7f,
                forall|j: int|
                    28 <= j < 28 + g ==> buffer@[j] == top_bits(index_bytes@, 3 + 7 * (j - 28)),
                forall|j: int| 28 + g <= j < 32 ==> buffer@[j] == 0,
            decreases 4 - g,
        {
            let at = 3 + 7 * g;
            let mut acc: u8 = 0;
            let mut k: usize = 0;
            while k < 7
                invariant
                    k <= 7,
                    at == 3 + 7 * g,
                    g < 4,
                    acc == partial_top_bits(index_bytes@, at as int, k as int),
                decreases 7 - k,
            {
                acc = acc | ((index_bytes[at + k] & 0x80) >> ((1 + k) as u8));
                k += 1;
            }
            proof {
                reveal_with_fuel(partial_top_bits, 8);
                let b = index_bytes@;
                let a = at as int;
                let t1 = (b[a] & 0x80) >> 1u8;
                let t2 = (b[a + 1] & 0x80) >> 2u8;
                let t3 = (b[a + 2] & 0x80) >> 3u8;
                let t4 = (b[a + 3] & 0x80) >> 4u8;
                let t5 = (b[a + 4] & 0x80) >> 5u8;
                let t6 = (b[a + 5] & 0x80) >> 6u8;
                let t7 = (b[a + 6] & 0x80) >> 7u8;
                assert(acc == ((((((0u8 | t1) | t2) | t3) | t4) | t5) | t6) | t7);
                assert(((((((0u8 | t1) | t2) | t3) | t4) | t5) | t6) | t7 == t1 | t2 | t3 | t4 | t5
                    | t6 | t7) by (bit_vector);
            }
            buffer[28 + g] = acc;
            g += 1;
        }
        proof {
            assert forall|i: int| 0 <= i < 32 implies buffer@[i] < 0x80 by {
                if i < 28 {
                    let v = index_bytes@[3 + i];
                    assert(v & 0x7f < 0x80) by (bit_vector);
                } else {
                    let b = index_bytes@;
                    let at = 3 + 7 * (i - 28);
                    let (b0, b1, b2, b3, b4, b5, b6) = (
                        b[at],
                        b[at + 1],
                        b[at + 2],
                        b[at + 3],
                        b[at + 4],
                        b[at + 5],
                        b[at + 6],
                    );
                    assert(((b0 & 0x80) >> 1u8) | ((b1 & 0x80) >> 2u8) | ((b2 & 0x80) >> 3u8) | ((b3
                        & 0x80) >> 4u8) | ((b4 & 0x80) >> 5u8) | ((b5 & 0x80) >> 6u8) | ((b6 & 0x80)
                        >> 7u8) < 0x80) by (bit_vector);
                }
            }
            assert(buffer@ =~= storage_seed(u256_bytes(*index)));
        }
        buffer
    }

    /// The address of the storage cell of slot `index` of the contract whose key is `base`:
    /// the key derived from `base` with the seed of `index`, for the program `program_id`.
    pub fn new(program_id: &[u8; 32], base: &[u8; 32], index: &U256) -> (r: Self)
        requires
            program_id@.skip(11) != pda_marker(),
        ensures
            r.spec_seed() == storage_seed(u256_bytes(*index)),
            r.spec_base() == *base,
            r.spec_pubkey()@ == sha256_digest(base@ + r.spec_seed() + program_id@),
    {
        let seed = Self::make_seed(index);
        let text = seed_text(&seed);
        let pubkey = create_with_seed(base, text, program_id).unwrap();
        StorageCellAddress { base: *base, seed, pubkey }
    }

    pub closed spec fn spec_seed(self) -> Seq<u8> {
        self.seed@
    }

    pub closed spec fn spec_base(self) -> [u8; 32] {
        self.base
    }

    pub closed spec fn spec_pubkey(self) -> [u8; 32] {
        self.pubkey
    }

    /// The seed, as text.
    pub fn seed(&self) -> (r: &str)
        ensures
            r.spec_bytes() == self.spec_seed(),
    {
        proof {
            use_type_invariant(self);
        }
        seed_text(&self.seed)
    }

    /// The derived key.
    pub fn pubkey(&self) -> (r: &[u8; 32])
        ensures
            *r == self.spec_pubkey(),
    {
        &self.pubkey
    }
}

/// An ASCII seed, as text.
fn seed_text(seed: &[u8; 32]) -> (r: &str)
    requires
        forall|i: int| 0 <= i < 32 ==> seed@[i] < 0x80,
    ensures
        r.spec_bytes() == seed@,
{
    proof {
        let b = seed@;
        assert(b.subrange(0, 0) =~= Seq::<u8>::empty());
        assert(vstd::utf8::valid_utf8(Seq::<u8>::empty()));
        vstd::utf8::partial_valid_utf8_extend_ascii_block(b, 0, 32);
        assert(b.subrange(0, 32) =~= b);
    }
    match str_from_utf8(seed.as_slice()) {
        Some(s) => s,
        None => "",
    }
}

/// Seeds tell slot indices apart by their bytes 3 to 30: indices whose seeds agree agree on
/// those bytes.
pub proof fn lemma_storage_seed_injective(a: Seq<u8>, b: Seq<u8>)
    requires
        a.len() == 32,
        b.len() == 32,
        storage_seed(a) == storage_seed(b),
    ensures
        a.subrange(3, 31) == b.subrange(3, 31),
{
    assert forall|k: int| 3 <= k < 31 implies #[trigger] top_bit(a, k) == top_bit(b, k) by {
        let g = (k - 3) / 7;
        let i = (k - 3) % 7;
        let at = 3 + 7 * g;
        vstd::arithmetic::div_mod::lemma_fundamental_div_mod(k - 3, 7);
        vstd::arithmetic::div_mod::lemma_mod_bound(k - 3, 7);
        assert(0 <= g < 4);
        assert(k == at + i);
        assert(storage_seed(a)[28 + g] == storage_seed(b)[28 + g]);
        assert(28 + g < 32);
        assert(!(28 + g < 28));
        assert(storage_seed(a)[28 + g] == top_bits(a, 3 + 7 * ((28 + g) - 28)));
        assert(top_bits(a, at) == top_bits(b, at));
        let (a0, a1, a2, a3, a4, a5, a6) = (
            a[at],
            a[at + 1],
            a[at + 2],
            a[at + 3],
            a[at + 4],
            a[at + 5],
            a[at + 6],
        );
        let (b0, b1, b2, b3, b4, b5, b6) = (
            b[at],
            b[at + 1],
            b[at + 2],
            b[at + 3],
            b[at + 4],
            b[at + 5],
            b[at + 6],
        );
        assert((((a0 & 0x80) >> 1u8) | ((a1 & 0x80) >> 2u8) | ((a2 & 0x80) >> 3u8) | ((a3 & 0x80)
            >> 4u8) | ((a4 & 0x80) >> 5u8) | ((a5 & 0x80) >> 6u8) | ((a6 & 0x80) >> 7u8)) == (((b0
            & 0x80) >> 1u8) | ((b1 & 0x80) >> 2u8) | ((b2 & 0x80) >> 3u8) | ((b3 & 0x80) >> 4u8) | ((
        b4 & 0x80) >> 5u8) | ((b5 & 0x80) >> 6u8) | ((b6 & 0x80) >> 7u8)) ==> a0 & 0x80 == b0 & 0x80
            && a1 & 0x80 == b1 & 0x80 && a2 & 0x80 == b2 & 0x80 && a3 & 0x80 == b3 & 0x80 && a4
            & 0x80 == b4 & 0x80 && a5 & 0x80 == b5 & 0x80 && a6 & 0x80 == b6 & 0x80)
            by (bit_vector);
        if i == 0 {
        } else if i == 1 {
        } else if i == 2 {
        } else if i == 3 {
        } else if i == 4 {
        } else if i == 5 {
        } else {
        }
    }
    assert forall|k: int| 3 <= k < 31 implies #[trigger] a[k] == b[k] by {
        assert(storage_seed(a)[k - 3] == storage_seed(b)[k - 3]);
        assert(storage_seed(a)[k - 3] == a[3 + (k - 3)] & 0x7f);
        assert(storage_seed(b)[k - 3] == b[3 + (k - 3)] & 0x7f);
        assert(top_bit(a, k) == top_bit(b, k));
        let x = a[k];
        let y = b[k];
        assert(x & 0x7f == y & 0x7f && x & 0x80 == y & 0x80 ==> x == y) by (bit_vector);
    }
    assert(a.subrange(3, 31) =~= b.subrange(3, 31));
}

/// The top bit of byte `k` of `s`, in its place.
pub open spec fn top_bit(s: Seq<u8>, k: int) -> u8 {
    s[k] & 0x80
}

/// The top bits of the first `k` of the seven bytes of `b` from `at` on.
pub open spec fn partial_top_bits(b: Seq<u8>, at: int, k: int) -> u8
    decreases k,
{
    if k <= 0 {
        0
    } else {
        partial_top_bits(b, at, k - 1) | ((b[at + k - 1] & 0x80) >> (k as u8))
    }
}

/// The slots that a storage cell account holds, in the order of its data, each under its
/// subindex within the group of 256 slots of the cell.
pub struct StorageCell {
    pub cells: Vec<Cell>,
}

/// The value of the first of `cells` under `subindex`, if one is.
pub open spec fn cell_value(cells: Seq<Cell>, subindex: u8) -> Option<[u8; 32]>
    decreases cells.len(),
{
    if cells.len() == 0 {
        None
    } else if cells[0].subindex == subindex {
        Some(cells[0].value)
    } else {
        cell_value(cells.drop_first(), subindex)
    }
}

/// `cells` with `value` stored under `subindex`: in the first cell under it, or in a new cell
/// at the end where none is.
pub open spec fn cells_updated(cells: Seq<Cell>, subindex: u8, value: [u8; 32]) -> Seq<Cell>
    decreases cells.len(),
{
    if cells.len() == 0 {
        seq![Cell { subindex, value }]
    } else if cells[0].subindex == subindex {
        cells.update(0, Cell { subindex, value })
    } else {
        seq![cells[0]] + cells_updated(cells.drop_first(), subindex, value)
    }
}

/// Where none of the first `k` cells is under `subindex`, the value under it is found past
/// them.
proof fn lemma_skip_cells(cells: Seq<Cell>, subindex: u8, k: int)
    requires
        0 <= k <= cells.len(),
        forall|j: int| 0 <= j < k ==> cells[j].subindex != subindex,
    ensures
        cell_value(cells, subindex) == cell_value(cells.skip(k), subindex),
    decreases k,
{
    if k == 0 {
        assert(cells.skip(0) =~= cells);
    } else {
        let rest = cells.drop_first();
        assert forall|j: int| 0 <= j < k - 1 implies rest[j].subindex != subindex by {
            assert(rest[j] == cells[j + 1]);
        }
        lemma_skip_cells(rest, subindex, k - 1);
        assert(rest.skip(k - 1) =~= cells.skip(k));
    }
}

/// Where none of the first `k` cells is under `subindex`, a store under it changes only what
/// lies past them.
proof fn lemma_skip_cells_updated(cells: Seq<Cell>, subindex: u8, value: [u8; 32], k: int)
    requires
        0 <= k <= cells.len(),
        forall|j: int| 0 <= j < k ==> cells[j].subindex != subindex,
    ensures
        cells_updated(cells, subindex, value) == cells.take(k) + cells_updated(
            cells.skip(k),
            subindex,
            value,
        ),
    decreases k,
{
    if k == 0 {
        assert(cells.skip(0) =~= cells);
        assert(cells.take(0) + cells_updated(cells, subindex, value) =~= cells_updated(
            cells,
            subindex,
            value,
        ));
    } else {
        let rest = cells.drop_first();
        assert forall|j: int| 0 <= j < k - 1 implies rest[j].subindex != subindex by {
            assert(rest[j] == cells[j + 1]);
        }
        lemma_skip_cells_updated(rest, subindex, value, k - 1);
        assert(rest.skip(k - 1) =~= cells.skip(k));
        assert(seq![cells[0]] + rest.take(k - 1) =~= cells.take(k));
        assert(seq![cells[0]] + (rest.take(k - 1) + cells_updated(cells.skip(k), subindex, value))
            =~= cells.take(k) + cells_updated(cells.skip(k), subindex, value));
    }
}

impl StorageCell {
    /// The value of the slot under `subindex`: that of the first cell under it, zero where
    /// none is.
    pub fn get(&self, subindex: u8) -> (r: [u8; 32])
        ensures
            match cell_value(self.cells@, subindex) {
                Some(v) => r == v,
                None => r@ == Seq::new(32, |i: int| 0u8),
            },
    {
        let mut i: usize = 0;
        while i < self.cells.len()
            invariant
                i <= self.cells@.len(),
                forall|j: int| 0 <= j < i ==> self.cells@[j].subindex != subindex,
            decreases self.cells@.len() - i,
        {
            if self.cells[i].subindex == subindex {
                proof {
                    lemma_skip_cells(self.cells@, subindex, i as int);
                }
                return self.cells[i].value;
            }
            i += 1;
        }
        proof {
            lemma_skip_cells(self.cells@, subindex, i as int);
        }
        let r = [0u8; 32];
        assert(r@ =~= Seq::new(32, |i: int| 0u8));
        r
    }

    /// Stores `value` under `subindex`: in the first cell under it, or in a new cell at the
    /// end where none is.
    pub fn update(&mut self, subindex: u8, value: &[u8; 32])
        ensures
            final(self).cells@ == cells_updated(old(self).cells@, subindex, *value),
    {
        let mut i: usize = 0;
        while i < self.cells.len()
            invariant
                self.cells@ == old(self).cells@,
                i <= self.cells@.len(),
                forall|j: int| 0 <= j < i ==> self.cells@[j].subindex != subindex,
            decreases self.cells@.len() - i,
        {
            if self.cells[i].subindex == subindex {
                proof {
                    lemma_skip_cells_updated(self.cells@, subindex, *value, i as int);
                    assert(self.cells@.take(i as int) + cells_updated(
                        self.cells@.skip(i as int),
                        subindex,
                        *value,
                    ) =~= self.cells@.update(i as int, Cell { subindex, value: *value }));
                }
                self.cells.set(i, Cell { subindex, value: *value });
                return;
            }
            i += 1;
        }
        proof {
            lemma_skip_cells_updated(self.cells@, subindex, *value, i as int);
            assert(self.cells@.take(i as int) + cells_updated(
                self.cells@.skip(i as int),
                subindex,
                *value,
            ) =~= self.cells@.push(Cell { subindex, value: *value }));
        }
        self.cells.push(Cell { subindex, value: *value });
    }
}

/// A slot reads back what was last stored under it, and a store leaves the other slots as
/// they were.
pub proof fn lemma_cell_value_after_update(
    cells: Seq<Cell>,
    subindex: u8,
    value: [u8; 32],
    other: u8,
)
    ensures
        cell_value(cells_updated(cells, subindex, value), subindex) == Some(value),
        other != subindex ==> cell_value(cells_updated(cells, subindex, value), other)
            == cell_value(cells, other),
    decreases cells.len(),
{
    let u = cells_updated(cells, subindex, value);
    if cells.len() == 0 {
        assert(u.len() == 1 && u[0].subindex == subindex && u[0].value == value);
        assert(u.drop_first() =~= Seq::<Cell>::empty());
        if other != subindex {
            assert(cell_value(u, other) == cell_value(u.drop_first(), other));
        }
    } else if cells[0].subindex == subindex {
        assert(u[0].subindex == subindex && u[0].value == value);
        assert(u.drop_first() =~= cells.drop_first());
        if other != subindex {
            assert(cell_value(u, other) == cell_value(u.drop_first(), other));
            assert(cell_value(cells, other) == cell_value(cells.drop_first(), other));
        }
    } else {
        lemma_cell_value_after_update(cells.drop_first(), subindex, value, other);
        assert(u[0] == cells[0]);
        assert(u.drop_first() =~= cells_updated(cells.drop_first(), subindex, value));
    }
}

} // verus!
