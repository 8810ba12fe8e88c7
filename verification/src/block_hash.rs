//! Block hashes from the slot-hashes data: a count, then entries of a slot and its hash,
//! newest first.

use vstd::prelude::*;

use vstd::bytes::{spec_u64_from_le_bytes, u64_from_le_bytes};

use crate::types::{u64_be, u64_be_bytes};

verus! {

/// `b` without its leading zero bytes.
pub open spec fn strip_leading_zeros(b: Seq<u8>) -> Seq<u8>
    decreases b.len(),
{
    if b.len() > 0 && b[0] == 0 {
        strip_leading_zeros(b.drop_first())
    } else {
        b
    }
}

/// The stand-in hash of a slot that the data does not hold: all ones, then a zero byte, then
/// the slot's big-endian bytes without leading zeros.
pub open spec fn fake_slot_hash(slot: u64) -> Seq<u8> {
    let significant = strip_leading_zeros(u64_be(slot));
    Seq::new((31 - significant.len()) as nat, |i: int| 0xffu8) + seq![0u8] + significant
}

/// The number of entries that the slot-hashes data declares.
pub open spec fn slot_count(data: Seq<u8>) -> u64 {
    spec_u64_from_le_bytes(data.subrange(0, 8))
}

/// The slot of entry `i`.
pub open spec fn slot_at(data: Seq<u8>, i: int) -> u64 {
    spec_u64_from_le_bytes(data.subrange(8 + 40 * i, 16 + 40 * i))
}

/// The hash of entry `i`.
pub open spec fn hash_at(data: Seq<u8>, i: int) -> Seq<u8> {
    data.subrange(16 + 40 * i, 48 + 40 * i)
}

/// The first `n` entries go from the newest slot to the oldest.
pub open spec fn slots_descending(data: Seq<u8>, n: int) -> bool {
    forall|i: int, j: int| 0 <= i < j < n ==> slot_at(data, i) > slot_at(data, j)
}

/// The stand-in hash of `slot`, for a slot that the data does not hold.
pub fn generate_fake_slot_hash(slot: u64) -> (r: [u8; 32])
    ensures
        r@ == fake_slot_hash(slot),
{
    let slot_bytes = u64_be_bytes(slot);
    let ghost b = slot_bytes@;
    let mut initial: usize = 0;
    assert(b.skip(0) =~= b);
    while initial < 8
        invariant
            initial <= 8,
            b == slot_bytes@,
            b.len() == 8,
            strip_leading_zeros(b) == strip_leading_zeros(b.skip(initial as int)),
        ensures
            initial <= 8,
            strip_leading_zeros(b) == strip_leading_zeros(b.skip(initial as int)),
            initial < 8 ==> b[initial as int] != 0,
        decreases 8 - initial,
    {
        if slot_bytes[initial] != 0 {
            break;
        }
        assert(b.skip(initial as int).drop_first() =~= b.skip(initial + 1));
        initial += 1;
    }
    proof {
        if initial < 8 {
            assert(b.skip(initial as int)[0] == b[initial as int]);
        }
        assert(b.skip(8) =~= Seq::<u8>::empty());
    }
    let ghost significant = b.skip(initial as int);
    assert(strip_leading_zeros(b) == significant) by {
        if initial == 8 {
            assert(significant =~= Seq::<u8>::empty());
        }
    }
    let len: usize = 8 - initial;
    let mut hash = [255u8; 32];
    hash[32 - len - 1] = 0;
    let mut i: usize = 0;
    while i < len
        invariant
            i <= len,
            len == 8 - initial,
            initial <= 8,
            significant == slot_bytes@.skip(initial as int),
            forall|j: int| 0 <= j < 31 - len ==> hash@[j] == 0xffu8,
            hash@[31 - len] == 0u8,
            forall|j: int| 0 <= j < i ==> hash@[32 - len + j] == #[trigger] significant[j],
            forall|k: int| 32 - len + i <= k < 32 ==> hash@[k] == 0xffu8,
        decreases len - i,
    {
        hash[32 - len + i] = slot_bytes[initial + i];
        i += 1;
    }
    assert(hash@ =~= fake_slot_hash(slot));
    hash
}

/// The hash of block `value` from the slot-hashes data, found by binary search over its
/// entries but the last; the stand-in hash where the search does not find it.
pub fn find_slot_hash(value: u64, slot_hashes_data: &[u8]) -> (r: [u8; 32])
    requires
        slot_hashes_data@.len() >= 8,
        1 <= slot_count(slot_hashes_data@) <= usize::MAX,
        8 + 40 * (slot_count(slot_hashes_data@) - 1) <= slot_hashes_data@.len(),
    ensures
        ({
            let data = slot_hashes_data@;
            let n = slot_count(data) - 1;
            &&& (exists|i: int| 0 <= i < n && slot_at(data, i) == value && r@ == hash_at(data, i))
                || r@ == fake_slot_hash(value)
            &&& (forall|i: int| 0 <= i < n ==> slot_at(data, i) != value) ==> r@ == fake_slot_hash(
                value,
            )
            &&& slots_descending(data, n) ==> forall|i: int|
                0 <= i < n && slot_at(data, i) == value ==> r@ == hash_at(data, i)
        }),
{
    let ghost data = slot_hashes_data@;
    let ghost n = slot_count(data) - 1;
    let _total = slot_hashes_data.len();
    let count = u64_from_le_bytes(vstd::slice::slice_subrange(slot_hashes_data, 0, 8));
    let mut size: usize = (count as usize) - 1;
    let mut left: usize = 0;
    let mut right: usize = size;
    while left < right
        invariant
            data == slot_hashes_data@,
            n == slot_count(data) - 1,
            8 + 40 * n <= data.len(),
            data.len() <= usize::MAX,
            left <= right <= n,
            size == right - left,
            slots_descending(data, n) ==> forall|i: int|
                0 <= i < n && (i < left || right <= i) ==> slot_at(data, i) != value,
        decreases size,
    {
        let mid = left + size / 2;
        let offset = mid * 40 + 8;
        let slot = u64_from_le_bytes(
            vstd::slice::slice_subrange(slot_hashes_data, offset, offset + 8),
        );
        assert(slot == slot_at(data, mid as int));
        if value < slot {
            left = mid + 1;
        } else if value > slot {
            right = mid;
        } else {
            let mut hash = [0u8; 32];
            let mut i: usize = 0;
            while i < 32
                invariant
                    i <= 32,
                    offset + 40 <= data.len(),
                    data.len() <= usize::MAX,
                    data == slot_hashes_data@,
                    forall|j: int| 0 <= j < i ==> hash@[j] == data[offset + 8 + j],
                decreases 32 - i,
            {
                hash[i] = slot_hashes_data[offset + 8 + i];
                i += 1;
            }
            assert(hash@ =~= hash_at(data, mid as int));
            return hash;
        }
        size = right - left;
    }
    generate_fake_slot_hash(value)
}

} // verus!
