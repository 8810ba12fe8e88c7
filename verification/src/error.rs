use vstd::prelude::*;

use ethnum::U256;

use vstd::string::StringSliceAdditionalSpecFns;
use vstd::utf8::valid_utf8;

use crate::types::{be_value, Address};
use crate::utils::word_at;
use crate::uint::{
    u256_bytes, u256_eq, u256_from_be_bytes, u256_new, u256_of, u256_to_be_bytes, u256_to_usize,
};

verus! {

/// Errors of the EVM core.
#[derive(Debug, Clone, Copy, PartialEq, Eq)]
pub enum Error {
    StackOverflow,
    StackUnderflow,
    MemoryAccessOutOfLimits(usize, usize),
    /// A 256-bit value does not fit the integer type asked for.
    TryFromIntError,
    InvalidMagic,
    InvalidVersion(u8),
    UnexpectedEndOfFile,
    UnknownSectionHeader(u8),
    MissingSectionHeader(u8, u8),
    InvalidTypeSizeMustBeDivisibleBy4(u16),
    InvalidTypeSizeExceed(u16),
    MismatchCodeSize(usize, usize),
    MissingTerminator(u8),
    InvalidContainerSize(usize, usize),
    TooManyInputs(u8, u8),
    TooManyOutputs(u8, u8),
    TooLargeMaxStackHeight(u8, u8),
    InvalidSection0Type(u8, u8),
    InvalidCodeSize(usize),
    PushOutOfBounds(Address),
    ReturnDataCopyOverflow(usize, usize),
    StaticModeViolation(Address),
    InvalidJump(Address, usize),
    InvalidOpcode(Address, u8),
    UnknownOpcode(Address, u8),
    AccountBlocked([u8; 32]),
    AccountInvalidTag([u8; 32], u8),
    AccountInvalidOwner([u8; 32], [u8; 32]),
    AccountInvalidData([u8; 32]),
    AccountLegacy([u8; 32]),
    /// A deployment to an address that has sent a transaction or holds code.
    DeployToExistingAccount(Address, Address),
    IntegerOverflow,
    /// The owner of a holder account and the operator that uses it.
    HolderInvalidOwner([u8; 32], [u8; 32]),
    /// The room of a holder account's buffer and the end of a write into it.
    HolderInsufficientSize(usize, usize),
    /// An instruction that EOF code may not hold, and its position.
    ValidationUndefinedInstruction(u8, usize),
    /// An instruction whose operand runs past the code, and its position.
    ValidationTruncatedImmediate(u8, usize),
    /// A jump table without entries, at this position.
    ValidationInvalidBranchCount(usize),
    /// A call of a code section that is not there: the section, the number of sections and
    /// the position.
    ValidationInvalidSectionArgument(u16, usize, usize),
    /// A last instruction that does not end the code, and the end of the code.
    ValidationInvalidCodeTermination(u8, usize),
    ValidationUnreachableCode,
    /// A relative jump off the instructions: its offset, its target and its operand's
    /// position.
    ValidationInvalidJumpDest(i16, usize, usize),
    FunctionMetadataNotFound(usize),
    /// Two stack heights for one instruction.
    ValidationConflictingStack(usize, usize),
    /// A return with the wrong number of outputs: those declared, the stack height and the
    /// position.
    ValidationInvalidOutputs(u8, usize, usize),
    /// A section whose largest stack height is not the declared one: the section, the
    /// largest height and the declared one.
    ValidationInvalidMaxStackHeight(usize, usize, u16),
}

/// The selector of `Error(string)`, the revert reason of Solidity.
pub open spec fn error_selector() -> Seq<u8> {
    seq![0x08u8, 0xc3u8, 0x79u8, 0xa0u8]
}

/// The selector of `Panic(uint256)`, the panic code of Solidity.
pub open spec fn panic_selector() -> Seq<u8> {
    seq![0x4eu8, 0x48u8, 0x7bu8, 0x71u8]
}

/// The room that a revert reason of `len` bytes takes: whole words, at least one.
pub open spec fn reason_room(len: nat) -> nat {
    if len % 32 == 0 {
        if len > 32 {
            len
        } else {
            32
        }
    } else {
        (len / 32 + 1) * 32
    }
}

/// The bytes of the reason that the revert data `msg` carries as `Error(string)`, where it
/// carries one: after the selector, the offset 32, the length, then the bytes.
pub open spec fn revert_reason(msg: Seq<u8>) -> Option<Seq<u8>> {
    if msg.len() < 4 || msg.take(4) != error_selector() {
        None
    } else {
        let m = msg.skip(4);
        if m.len() < 64 || be_value(m.subrange(0, 32)) != 32 {
            None
        } else {
            let length = be_value(m.subrange(32, 64));
            if length > usize::MAX || 64 + length > usize::MAX || 64 + length > m.len() {
                None
            } else {
                Some(m.subrange(64, 64 + length as int))
            }
        }
    }
}

/// Revert data built for a text carries that text back as its reason, and the reason is
/// valid UTF-8.
pub proof fn lemma_revert_message_round_trip(chars: Seq<char>, r: Seq<u8>)
    requires
        ({
            let b = vstd::utf8::encode_utf8(chars);
            &&& b.len() + 100 <= usize::MAX
            &&& r.len() == 68 + reason_room(b.len())
            &&& r.subrange(0, 4) == error_selector()
            &&& be_value(r.subrange(4, 36)) == 32
            &&& be_value(r.subrange(36, 68)) == b.len()
            &&& r.subrange(68, 68 + b.len() as int) == b
        }),
    ensures
        revert_reason(r) == Some(vstd::utf8::encode_utf8(chars)),
        valid_utf8(vstd::utf8::encode_utf8(chars)),
{
    let b = vstd::utf8::encode_utf8(chars);
    vstd::utf8::encode_utf8_valid_utf8(chars);
    let m = r.skip(4);
    assert(r.take(4) =~= r.subrange(0, 4));
    assert(m.subrange(0, 32) =~= r.subrange(4, 36));
    assert(m.subrange(32, 64) =~= r.subrange(36, 68));
    assert(m.subrange(64, 64 + b.len() as int) =~= r.subrange(68, 68 + b.len() as int));
}

/// `std::str::from_utf8`: the text that `v` encodes in UTF-8, where it is valid UTF-8.
#[verifier::external_body]
pub(crate) fn str_from_utf8(v: &[u8]) -> (r: Option<&str>)
    ensures
        r is Some <==> valid_utf8(v@),
        r matches Some(s) ==> s.spec_bytes() == v@,
{
    std::str::from_utf8(v).ok()
}

/// Whether `msg` opens with the four bytes `selector`.
fn starts_with_selector(msg: &[u8], selector: [u8; 4]) -> (r: bool)
    ensures
        r == (msg@.len() >= 4 && msg@.take(4) == selector@),
{
    if msg.len() < 4 {
        return false;
    }
    let mut i: usize = 0;
    while i < 4
        invariant
            i <= 4,
            msg@.len() >= 4,
            forall|j: int| 0 <= j < i ==> msg@[j] == selector@[j],
        decreases 4 - i,
    {
        if msg[i] != selector[i] {
            assert(msg@.take(4)[i as int] != selector@[i as int]);
            return false;
        }
        i += 1;
    }
    assert(msg@.take(4) =~= selector@);
    true
}

/// The text of the `Error(string)` that the revert data `msg` carries, where it carries one
/// that is valid UTF-8.
pub fn format_revert_error(msg: &[u8]) -> (r: Option<&str>)
    ensures
        match revert_reason(msg@) {
            None => r is None,
            Some(reason) => if valid_utf8(reason) {
                r matches Some(s) && s.spec_bytes() == reason
            } else {
                r is None
            },
        },
{
    if !starts_with_selector(msg, [0x08, 0xc3, 0x79, 0xa0]) {
        proof {
            assert([0x08u8, 0xc3u8, 0x79u8, 0xa0u8]@ =~= error_selector());
        }
        return None;
    }
    proof {
        assert([0x08u8, 0xc3u8, 0x79u8, 0xa0u8]@ =~= error_selector());
    }
    let m = vstd::slice::slice_subrange(msg, 4, msg.len());
    assert(m@ =~= msg@.skip(4));
    if m.len() < 64 {
        return None;
    }
    let offset = u256_from_be_bytes(word_at(m, 0));
    if !u256_eq(offset, u256_new(32)) {
        return None;
    }
    let length = match u256_to_usize(u256_from_be_bytes(word_at(m, 32))) {
        Some(l) => l,
        None => return None,
    };
    let begin: usize = 64;
    let end = match begin.checked_add(length) {
        Some(e) => e,
        None => return None,
    };
    if end > m.len() {
        return None;
    }
    let reason = vstd::slice::slice_subrange(m, begin, end);
    str_from_utf8(reason)
}

/// The code of the `Panic(uint256)` that the revert data `msg` carries, where it carries one.
pub fn format_revert_panic(msg: &[u8]) -> (r: Option<U256>)
    ensures
        r is Some <==> msg@.len() == 36 && msg@.take(4) == panic_selector(),
        r matches Some(code) ==> u256_of(msg@.skip(4), code),
{
    proof {
        assert([0x4eu8, 0x48u8, 0x7bu8, 0x71u8]@ =~= panic_selector());
    }
    if !starts_with_selector(msg, [0x4e, 0x48, 0x7b, 0x71]) {
        return None;
    }
    if msg.len() != 36 {
        return None;
    }
    let value = word_at(msg, 4);
    assert(value@ =~= msg@.skip(4));
    Some(u256_from_be_bytes(value))
}

/// The revert data of `Error(msg)`: the selector, the offset 32, the length of `msg`, then its
/// bytes, padded with zeros to whole words.
pub fn build_revert_message(msg: &str) -> (r: Vec<u8>)
    requires
        msg.spec_bytes().len() + 100 <= usize::MAX,
    ensures
        r@.len() == 68 + reason_room(msg.spec_bytes().len()),
        r@.subrange(0, 4) == error_selector(),
        be_value(r@.subrange(4, 36)) == 32,
        be_value(r@.subrange(36, 68)) == msg.spec_bytes().len(),
        r@.subrange(68, 68 + msg.spec_bytes().len() as int) == msg.spec_bytes(),
        forall|i: int| 68 + msg.spec_bytes().len() <= i < r@.len() ==> r@[i] == 0,
{
    let bytes = msg.as_bytes();
    let len = bytes.len();
    let data_len = if len % 32 == 0 {
        if len > 32 {
            len
        } else {
            32
        }
    } else {
        ((len / 32) + 1) * 32
    };
    let capacity = 4 + 32 + 32 + data_len;
    let mut result: Vec<u8> = Vec::with_capacity(capacity);
    result.extend_from_slice(&[0x08, 0xc3, 0x79, 0xa0]);
    let offset = u256_new(0x20);
    let offset_bytes = u256_to_be_bytes(offset);
    result.extend_from_slice(offset_bytes.as_slice());
    assert(result@.subrange(4, 36) =~= u256_bytes(offset));
    let length = u256_new(len as u128);
    let length_bytes = u256_to_be_bytes(length);
    result.extend_from_slice(length_bytes.as_slice());
    assert(result@.subrange(36, 68) =~= u256_bytes(length));
    result.extend_from_slice(bytes);
    let ghost filled = result@;
    assert(filled.subrange(4, 36) =~= u256_bytes(offset));
    assert(filled.subrange(36, 68) =~= u256_bytes(length));
    assert(filled.subrange(68, 68 + len) =~= bytes@);
    assert(filled.subrange(0, 4) =~= error_selector());
    result.resize(capacity, 0u8);
    proof {
        assert(result@.subrange(0, filled.len() as int) == filled);
        assert(result@.subrange(0, 4) =~= filled.subrange(0, 4));
        assert(result@.subrange(4, 36) =~= filled.subrange(4, 36));
        assert(result@.subrange(36, 68) =~= filled.subrange(36, 68));
        assert(result@.subrange(68, 68 + len) =~= filled.subrange(68, 68 + len));
        assert(result@.subrange(0, 4) =~= error_selector());
        assert(result@.subrange(4, 36) =~= u256_bytes(offset));
        assert(result@.subrange(36, 68) =~= u256_bytes(length));
        assert(result@.subrange(68, 68 + len) =~= bytes@);
    }
    result
}

} // verus!
