use vstd::prelude::*;

use ethnum::U256;

use vstd::bytes::{
    lemma_auto_spec_u32_to_from_le_bytes, lemma_auto_spec_u64_to_from_le_bytes,
    spec_u32_from_le_bytes, spec_u32_to_le_bytes, spec_u64_from_le_bytes, spec_u64_to_le_bytes,
    u32_from_le_bytes, u32_to_le_bytes, u64_from_le_bytes, u64_to_le_bytes,
};

use crate::types::Address;
use crate::uint::{u256_bytes, u256_from_le_bytes, u256_of, u256_to_le_bytes};

verus! {

/// The data of an Ethereum account, as it is stored in a Solana account.
pub struct Data {
    /// Ethereum address
    pub address: Address,
    /// Solana account nonce
    pub bump_seed: u8,
    /// Ethereum account nonce
    pub trx_count: u64,
    /// Neon token balance
    pub balance: U256,
    /// Account generation, increment on suicide
    pub generation: u32,
    /// Contract code size
    pub code_size: u32,
    /// Read-write lock
    pub rw_blocked: bool,
}

impl Data {
    pub const ADDRESS_SIZE: usize = 20;

    pub const BUMP_SEED_SIZE: usize = 1;

    pub const TRX_COUNT_SIZE: usize = 8;

    pub const BALANCE_SIZE: usize = 32;

    pub const GENERATION_SIZE: usize = 4;

    pub const CODE_SIZE_SIZE: usize = 4;

    pub const RW_BLOCKED_SIZE: usize = 1;

    /// The size of the stored form.
    pub const SIZE: usize = 70;

    /// The stored form: the fields in order, the integers in little-endian.
    pub open spec fn encoding(self) -> Seq<u8> {
        self.address.0@ + seq![self.bump_seed] + spec_u64_to_le_bytes(self.trx_count) + u256_bytes(
            self.balance,
        ).reverse() + spec_u32_to_le_bytes(self.generation) + spec_u32_to_le_bytes(self.code_size)
            + seq![if self.rw_blocked { 1u8 } else { 0u8 }]
    }

    /// `d` is what the stored form `b` holds.
    pub open spec fn decodes(b: Seq<u8>, d: Data) -> bool {
        &&& d.address.0@ == b.subrange(0, 20)
        &&& d.bump_seed == b[20]
        &&& d.trx_count == spec_u64_from_le_bytes(b.subrange(21, 29))
        &&& u256_of(b.subrange(29, 61).reverse(), d.balance)
        &&& d.generation == spec_u32_from_le_bytes(b.subrange(61, 65))
        &&& d.code_size == spec_u32_from_le_bytes(b.subrange(65, 69))
        &&& d.rw_blocked == (b[69] != 0)
    }

    /// Reads the data from the first `SIZE` bytes of `input`.
    pub fn unpack(input: &[u8]) -> (d: Data)
        requires
            input@.len() >= Data::SIZE,
        ensures
            Data::decodes(input@, d),
    {
        let mut address = [0u8; 20];
        let mut i: usize = 0;
        while i < 20
            invariant
                i <= 20,
                input@.len() >= 70,
                forall|j: int| 0 <= j < i ==> address@[j] == input@[j],
            decreases 20 - i,
        {
            address[i] = input[i];
            i += 1;
        }
        assert(address@ =~= input@.subrange(0, 20));
        let mut balance = [0u8; 32];
        let mut k: usize = 0;
        while k < 32
            invariant
                k <= 32,
                input@.len() >= 70,
                forall|j: int| 0 <= j < k ==> balance@[j] == input@[29 + j],
            decreases 32 - k,
        {
            balance[k] = input[29 + k];
            k += 1;
        }
        assert(balance@ =~= input@.subrange(29, 61));
        Data {
            address: Address(address),
            bump_seed: input[20],
            trx_count: u64_from_le_bytes(vstd::slice::slice_subrange(input, 21, 29)),
            balance: u256_from_le_bytes(balance),
            generation: u32_from_le_bytes(vstd::slice::slice_subrange(input, 61, 65)),
            code_size: u32_from_le_bytes(vstd::slice::slice_subrange(input, 65, 69)),
            rw_blocked: input[69] != 0,
        }
    }

    /// Writes the data over the first `SIZE` bytes of `dst`.
    pub fn pack(&self, dst: &mut [u8])
        requires
            old(dst)@.len() >= Data::SIZE,
        ensures
            final(dst)@ == self.encoding() + old(dst)@.skip(Data::SIZE as int),
    {
        let ghost rest = dst@.skip(70);
        let trx_count = u64_to_le_bytes(self.trx_count);
        let balance = u256_to_le_bytes(self.balance);
        let generation = u32_to_le_bytes(self.generation);
        let code_size = u32_to_le_bytes(self.code_size);
        let mut bytes: Vec<u8> = Vec::new();
        bytes.extend_from_slice(self.address.0.as_slice());
        bytes.push(self.bump_seed);
        bytes.extend_from_slice(trx_count.as_slice());
        bytes.extend_from_slice(balance.as_slice());
        bytes.extend_from_slice(generation.as_slice());
        bytes.extend_from_slice(code_size.as_slice());
        bytes.push(if self.rw_blocked { 1u8 } else { 0u8 });
        assert(bytes@ =~= self.encoding());
        let mut i: usize = 0;
        while i < 70
            invariant
                i <= 70,
                bytes@ == self.encoding(),
                bytes@.len() == 70,
                dst@.len() >= 70,
                dst@.skip(70) == rest,
                forall|j: int| 0 <= j < i ==> dst@[j] == bytes@[j],
            decreases 70 - i,
        {
            dst[i] = bytes[i];
            i += 1;
            assert(dst@.skip(70) =~= rest);
        }
        assert(dst@ =~= self.encoding() + rest);
    }
}

/// Reading back what was written gives the data that was written.
pub proof fn lemma_unpack_pack(d: Data, e: Data)
    requires
        u256_bytes(d.balance).len() == 32,
        Data::decodes(d.encoding(), e),
    ensures
        e == d,
{
    lemma_auto_spec_u64_to_from_le_bytes();
    lemma_auto_spec_u32_to_from_le_bytes();
    let b = d.encoding();
    assert(b.subrange(0, 20) =~= d.address.0@);
    assert(b.subrange(21, 29) =~= spec_u64_to_le_bytes(d.trx_count));
    assert(b.subrange(29, 61).reverse() =~= u256_bytes(d.balance).reverse().reverse());
    assert(u256_bytes(d.balance).reverse().reverse() =~= u256_bytes(d.balance));
    assert(b.subrange(61, 65) =~= spec_u32_to_le_bytes(d.generation));
    assert(b.subrange(65, 69) =~= spec_u32_to_le_bytes(d.code_size));
    assert(e.address.0 =~= d.address.0);
}

/// Writing back what was read gives the stored form that was read, where its lock byte is 0
/// or 1.
pub proof fn lemma_pack_unpack(b: Seq<u8>, d: Data)
    requires
        b.len() >= Data::SIZE,
        b[69] <= 1,
        Data::decodes(b, d),
    ensures
        d.encoding() == b.take(Data::SIZE as int),
{
    lemma_auto_spec_u64_to_from_le_bytes();
    lemma_auto_spec_u32_to_from_le_bytes();
    assert(spec_u64_to_le_bytes(spec_u64_from_le_bytes(b.subrange(21, 29))) == b.subrange(21, 29));
    assert(spec_u32_to_le_bytes(spec_u32_from_le_bytes(b.subrange(61, 65))) == b.subrange(61, 65));
    assert(spec_u32_to_le_bytes(spec_u32_from_le_bytes(b.subrange(65, 69))) == b.subrange(65, 69));
    assert(b.subrange(29, 61).reverse().reverse() =~= b.subrange(29, 61));
    assert(d.encoding() =~= b.take(70));
}

} // verus!
