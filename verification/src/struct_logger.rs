//! The tracer that records the state of the machine at every step, as `debug_traceTransaction`
//! gives it.

use vstd::prelude::*;

use ethnum::U256;

use crate::machine::{Context, ExitStatus};
use crate::types::keys_equal;
use crate::uint::{u256_bytes, u256_to_be_bytes};

verus! {

/// What the machine tells a tracer as it runs.
pub enum Event {
    BeginVM { context: Context, code: Vec<u8> },
    EndVM { status: ExitStatus },
    BeginStep { opcode: u8, pc: usize, stack: Vec<[u8; 32]>, memory: Vec<u8> },
    EndStep { gas_used: u64, return_data: Option<Vec<u8>> },
    StackPush { value: [u8; 32] },
    MemorySet { offset: usize, data: Vec<u8> },
    StorageSet { index: U256, value: [u8; 32] },
    StorageAccess { index: U256, value: [u8; 32] },
}

/// What a trace records besides the steps.
#[derive(Debug, Clone, Copy, PartialEq, Eq, Structural)]
pub struct TraceConfig {
    pub enable_memory: bool,
    pub disable_storage: bool,
    pub disable_stack: bool,
    pub enable_return_data: bool,
}

/// The record of one step: where it ran and what, at which depth, the memory in words, the
/// stack, what the step returned, and the storage slots read so far with their values, each
/// slot once, by the big-endian bytes of its index.
pub struct StructLog {
    pub pc: u64,
    pub op: &'static str,
    pub gas: Option<u64>,
    pub gas_cost: u64,
    pub depth: usize,
    pub memory: Option<Vec<Vec<u8>>>,
    pub stack: Option<Vec<[u8; 32]>>,
    pub return_data: Option<Vec<u8>>,
    pub storage: Option<Vec<([u8; 32], [u8; 32])>>,
    pub error: Option<String>,
}

/// The tracer that records a `StructLog` per step.
pub struct StructLogger {
    pub config: TraceConfig,
    pub logs: Vec<StructLog>,
    pub depth: usize,
    pub storage_access: Option<([u8; 32], [u8; 32])>,
}

/// The name of the instruction `op` in traces: its mnemonic in the EVM instruction table,
/// `<invalid>` for a byte that names none.
pub open spec fn opcode_name(op: u8) -> Seq<char> {
    if op == 0x00 {
        seq!['S', 'T', 'O', 'P']
    } else if op == 0x01 {
        seq!['A', 'D', 'D']
    } else if op == 0x02 {
        seq!['M', 'U', 'L']
    } else if op == 0x03 {
        seq!['S', 'U', 'B']
    } else if op == 0x04 {
        seq!['D', 'I', 'V']
    } else if op == 0x05 {
        seq!['S', 'D', 'I', 'V']
    } else if op == 0x06 {
        seq!['M', 'O', 'D']
    } else if op == 0x07 {
        seq!['S', 'M', 'O', 'D']
    } else if op == 0x08 {
        seq!['A', 'D', 'D', 'M', 'O', 'D']
    } else if op == 0x09 {
        seq!['M', 'U', 'L', 'M', 'O', 'D']
    } else if op == 0x0A {
        seq!['E', 'X', 'P']
    } else if op == 0x0B {
        seq!['S', 'I', 'G', 'N', 'E', 'X', 'T', 'E', 'N', 'D']
    } else if op == 0x10 {
        seq!['L', 'T']
    } else if op == 0x11 {
        seq!['G', 'T']
    } else if op == 0x12 {
        seq!['S', 'L', 'T']
    } else if op == 0x13 {
        seq!['S', 'G', 'T']
    } else if op == 0x14 {
        seq!['E', 'Q']
    } else if op == 0x15 {
        seq!['I', 'S', 'Z', 'E', 'R', 'O']
    } else if op == 0x16 {
        seq!['A', 'N', 'D']
    } else if op == 0x17 {
        seq!['O', 'R']
    } else if op == 0x18 {
        seq!['X', 'O', 'R']
    } else if op == 0x19 {
        seq!['N', 'O', 'T']
    } else if op == 0x1A {
        seq!['B', 'Y', 'T', 'E']
    } else if op == 0x1B {
        seq!['S', 'H', 'L']
    } else if op == 0x1C {
        seq!['S', 'H', 'R']
    } else if op == 0x1D {
        seq!['S', 'A', 'R']
    } else if op == 0x20 {
        seq!['K', 'E', 'C', 'C', 'A', 'K', '2', '5', '6']
    } else if op == 0x30 {
        seq!['A', 'D', 'D', 'R', 'E', 'S', 'S']
    } else if op == 0x31 {
        seq!['B', 'A', 'L', 'A', 'N', 'C', 'E']
    } else if op == 0x32 {
        seq!['O', 'R', 'I', 'G', 'I', 'N']
    } else if op == 0x33 {
        seq!['C', 'A', 'L', 'L', 'E', 'R']
    } else if op == 0x34 {
        seq!['C', 'A', 'L', 'L', 'V', 'A', 'L', 'U', 'E']
    } else if op == 0x35 {
        seq!['C', 'A', 'L', 'L', 'D', 'A', 'T', 'A', 'L', 'O', 'A', 'D']
    } else if op == 0x36 {
        seq!['C', 'A', 'L', 'L', 'D', 'A', 'T', 'A', 'S', 'I', 'Z', 'E']
    } else if op == 0x37 {
        seq!['C', 'A', 'L', 'L', 'D', 'A', 'T', 'A', 'C', 'O', 'P', 'Y']
    } else if op == 0x38 {
        seq!['C', 'O', 'D', 'E', 'S', 'I', 'Z', 'E']
    } else if op == 0x39 {
        seq!['C', 'O', 'D', 'E', 'C', 'O', 'P', 'Y']
    } else if op == 0x3A {
        seq!['G', 'A', 'S', 'P', 'R', 'I', 'C', 'E']
    } else if op == 0x3B {
        seq!['E', 'X', 'T', 'C', 'O', 'D', 'E', 'S', 'I', 'Z', 'E']
    } else if op == 0x3C {
        seq!['E', 'X', 'T', 'C', 'O', 'D', 'E', 'C', 'O', 'P', 'Y']
    } else if op == 0x3D {
        seq!['R', 'E', 'T', 'U', 'R', 'N', 'D', 'A', 'T', 'A', 'S', 'I', 'Z', 'E']
    } else if op == 0x3E {
        seq!['R', 'E', 'T', 'U', 'R', 'N', 'D', 'A', 'T', 'A', 'C', 'O', 'P', 'Y']
    } else if op == 0x3F {
        seq!['E', 'X', 'T', 'C', 'O', 'D', 'E', 'H', 'A', 'S', 'H']
    } else if op == 0x40 {
        seq!['B', 'L', 'O', 'C', 'K', 'H', 'A', 'S', 'H']
    } else if op == 0x41 {
        seq!['C', 'O', 'I', 'N', 'B', 'A', 'S', 'E']
    } else if op == 0x42 {
        seq!['T', 'I', 'M', 'E', 'S', 'T', 'A', 'M', 'P']
    } else if op == 0x43 {
        seq!['N', 'U', 'M', 'B', 'E', 'R']
    } else if op == 0x44 {
        seq!['P', 'R', 'E', 'V', 'R', 'A', 'N', 'D', 'A', 'O']
    } else if op == 0x45 {
        seq!['G', 'A', 'S', 'L', 'I', 'M', 'I', 'T']
    } else if op == 0x46 {
        seq!['C', 'H', 'A', 'I', 'N', 'I', 'D']
    } else if op == 0x47 {
        seq!['S', 'E', 'L', 'F', 'B', 'A', 'L', 'A', 'N', 'C', 'E']
    } else if op == 0x48 {
        seq!['B', 'A', 'S', 'E', 'F', 'E', 'E']
    } else if op == 0x50 {
        seq!['P', 'O', 'P']
    } else if op == 0x51 {
        seq!['M', 'L', 'O', 'A', 'D']
    } else if op == 0x52 {
        seq!['M', 'S', 'T', 'O', 'R', 'E']
    } else if op == 0x53 {
        seq!['M', 'S', 'T', 'O', 'R', 'E', '8']
    } else if op == 0x54 {
        seq!['S', 'L', 'O', 'A', 'D']
    } else if op == 0x55 {
        seq!['S', 'S', 'T', 'O', 'R', 'E']
    } else if op == 0x56 {
        seq!['J', 'U', 'M', 'P']
    } else if op == 0x57 {
        seq!['J', 'U', 'M', 'P', 'I']
    } else if op == 0x58 {
        seq!['P', 'C']
    } else if op == 0x59 {
        seq!['M', 'S', 'I', 'Z', 'E']
    } else if op == 0x5A {
        seq!['G', 'A', 'S']
    } else if op == 0x5B {
        seq!['J', 'U', 'M', 'P', 'D', 'E', 'S', 'T']
    } else if op == 0x5F {
        seq!['P', 'U', 'S', 'H', '0']
    } else if op == 0x60 {
        seq!['P', 'U', 'S', 'H', '1']
    } else if op == 0x61 {
        seq!['P', 'U', 'S', 'H', '2']
    } else if op == 0x62 {
        seq!['P', 'U', 'S', 'H', '3']
    } else if op == 0x63 {
        seq!['P', 'U', 'S', 'H', '4']
    } else if op == 0x64 {
        seq!['P', 'U', 'S', 'H', '5']
    } else if op == 0x65 {
        seq!['P', 'U', 'S', 'H', '6']
    } else if op == 0x66 {
        seq!['P', 'U', 'S', 'H', '7']
    } else if op == 0x67 {
        seq!['P', 'U', 'S', 'H', '8']
    } else if op == 0x68 {
        seq!['P', 'U', 'S', 'H', '9']
    } else if op == 0x69 {
        seq!['P', 'U', 'S', 'H', '1', '0']
    } else if op == 0x6A {
        seq!['P', 'U', 'S', 'H', '1', '1']
    } else if op == 0x6B {
        seq!['P', 'U', 'S', 'H', '1', '2']
    } else if op == 0x6C {
        seq!['P', 'U', 'S', 'H', '1', '3']
    } else if op == 0x6D {
        seq!['P', 'U', 'S', 'H', '1', '4']
    } else if op == 0x6E {
        seq!['P', 'U', 'S', 'H', '1', '5']
    } else if op == 0x6F {
        seq!['P', 'U', 'S', 'H', '1', '6']
    } else if op == 0x70 {
        seq!['P', 'U', 'S', 'H', '1', '7']
    } else if op == 0x71 {
        seq!['P', 'U', 'S', 'H', '1', '8']
    } else if op == 0x72 {
        seq!['P', 'U', 'S', 'H', '1', '9']
    } else if op == 0x73 {
        seq!['P', 'U', 'S', 'H', '2', '0']
    } else if op == 0x74 {
        seq!['P', 'U', 'S', 'H', '2', '1']
    } else if op == 0x75 {
        seq!['P', 'U', 'S', 'H', '2', '2']
    } else if op == 0x76 {
        seq!['P', 'U', 'S', 'H', '2', '3']
    } else if op == 0x77 {
        seq!['P', 'U', 'S', 'H', '2', '4']
    } else if op == 0x78 {
        seq!['P', 'U', 'S', 'H', '2', '5']
    } else if op == 0x79 {
        seq!['P', 'U', 'S', 'H', '2', '6']
    } else if op == 0x7A {
        seq!['P', 'U', 'S', 'H', '2', '7']
    } else if op == 0x7B {
        seq!['P', 'U', 'S', 'H', '2', '8']
    } else if op == 0x7C {
        seq!['P', 'U', 'S', 'H', '2', '9']
    } else if op == 0x7D {
        seq!['P', 'U', 'S', 'H', '3', '0']
    } else if op == 0x7E {
        seq!['P', 'U', 'S', 'H', '3', '1']
    } else if op == 0x7F {
        seq!['P', 'U', 'S', 'H', '3', '2']
    } else if op == 0x80 {
        seq!['D', 'U', 'P', '1']
    } else if op == 0x81 {
        seq!['D', 'U', 'P', '2']
    } else if op == 0x82 {
        seq!['D', 'U', 'P', '3']
    } else if op == 0x83 {
        seq!['D', 'U', 'P', '4']
    } else if op == 0x84 {
        seq!['D', 'U', 'P', '5']
    } else if op == 0x85 {
        seq!['D', 'U', 'P', '6']
    } else if op == 0x86 {
        seq!['D', 'U', 'P', '7']
    } else if op == 0x87 {
        seq!['D', 'U', 'P', '8']
    } else if op == 0x88 {
        seq!['D', 'U', 'P', '9']
    } else if op == 0x89 {
        seq!['D', 'U', 'P', '1', '0']
    } else if op == 0x8A {
        seq!['D', 'U', 'P', '1', '1']
    } else if op == 0x8B {
        seq!['D', 'U', 'P', '1', '2']
    } else if op == 0x8C {
        seq!['D', 'U', 'P', '1', '3']
    } else if op == 0x8D {
        seq!['D', 'U', 'P', '1', '4']
    } else if op == 0x8E {
        seq!['D', 'U', 'P', '1', '5']
    } else if op == 0x8F {
        seq!['D', 'U', 'P', '1', '6']
    } else if op == 0x90 {
        seq!['S', 'W', 'A', 'P', '1']
    } else if op == 0x91 {
        seq!['S', 'W', 'A', 'P', '2']
    } else if op == 0x92 {
        seq!['S', 'W', 'A', 'P', '3']
    } else if op == 0x93 {
        seq!['S', 'W', 'A', 'P', '4']
    } else if op == 0x94 {
        seq!['S', 'W', 'A', 'P', '5']
    } else if op == 0x95 {
        seq!['S', 'W', 'A', 'P', '6']
    } else if op == 0x96 {
        seq!['S', 'W', 'A', 'P', '7']
    } else if op == 0x97 {
        seq!['S', 'W', 'A', 'P', '8']
    } else if op == 0x98 {
        seq!['S', 'W', 'A', 'P', '9']
    } else if op == 0x99 {
        seq!['S', 'W', 'A', 'P', '1', '0']
    } else if op == 0x9A {
        seq!['S', 'W', 'A', 'P', '1', '1']
    } else if op == 0x9B {
        seq!['S', 'W', 'A', 'P', '1', '2']
    } else if op == 0x9C {
        seq!['S', 'W', 'A', 'P', '1', '3']
    } else if op == 0x9D {
        seq!['S', 'W', 'A', 'P', '1', '4']
    } else if op == 0x9E {
        seq!['S', 'W', 'A', 'P', '1', '5']
    } else if op == 0x9F {
        seq!['S', 'W', 'A', 'P', '1', '6']
    } else if op == 0xA0 {
        seq!['L', 'O', 'G', '0']
    } else if op == 0xA1 {
        seq!['L', 'O', 'G', '1']
    } else if op == 0xA2 {
        seq!['L', 'O', 'G', '2']
    } else if op == 0xA3 {
        seq!['L', 'O', 'G', '3']
    } else if op == 0xA4 {
        seq!['L', 'O', 'G', '4']
    } else if op == 0xF0 {
        seq!['C', 'R', 'E', 'A', 'T', 'E']
    } else if op == 0xF1 {
        seq!['C', 'A', 'L', 'L']
    } else if op == 0xF2 {
        seq!['C', 'A', 'L', 'L', 'C', 'O', 'D', 'E']
    } else if op == 0xF3 {
        seq!['R', 'E', 'T', 'U', 'R', 'N']
    } else if op == 0xF4 {
        seq!['D', 'E', 'L', 'E', 'G', 'A', 'T', 'E', 'C', 'A', 'L', 'L']
    } else if op == 0xF5 {
        seq!['C', 'R', 'E', 'A', 'T', 'E', '2']
    } else if op == 0xFA {
        seq!['S', 'T', 'A', 'T', 'I', 'C', 'C', 'A', 'L', 'L']
    } else if op == 0xFD {
        seq!['R', 'E', 'V', 'E', 'R', 'T']
    } else if op == 0xFE {
        seq!['I', 'N', 'V', 'A', 'L', 'I', 'D']
    } else if op == 0xFF {
        seq!['S', 'E', 'L', 'F', 'D', 'E', 'S', 'T', 'R', 'U', 'C', 'T']
    } else {
        seq!['<', 'i', 'n', 'v', 'a', 'l', 'i', 'd', '>']
    }
}

/// The name of the instruction `op` in traces.
pub fn opcode_name_of(op: u8) -> (r: &'static str)
    ensures
        r@ == opcode_name(op),
{
    if op == 0x00 {
        proof {
            reveal_strlit("STOP");
        }
        "STOP"
    } else if op == 0x01 {
        proof {
            reveal_strlit("ADD");
        }
        "ADD"
    } else if op == 0x02 {
        proof {
            reveal_strlit("MUL");
        }
        "MUL"
    } else if op == 0x03 {
        proof {
            reveal_strlit("SUB");
        }
        "SUB"
    } else if op == 0x04 {
        proof {
            reveal_strlit("DIV");
        }
        "DIV"
    } else if op == 0x05 {
        proof {
            reveal_strlit("SDIV");
        }
        "SDIV"
    } else if op == 0x06 {
        proof {
            reveal_strlit("MOD");
        }
        "MOD"
    } else if op == 0x07 {
        proof {
            reveal_strlit("SMOD");
        }
        "SMOD"
    } else if op == 0x08 {
        proof {
            reveal_strlit("ADDMOD");
        }
        "ADDMOD"
    } else if op == 0x09 {
        proof {
            reveal_strlit("MULMOD");
        }
        "MULMOD"
    } else if op == 0x0A {
        proof {
            reveal_strlit("EXP");
        }
        "EXP"
    } else if op == 0x0B {
        proof {
            reveal_strlit("SIGNEXTEND");
        }
        "SIGNEXTEND"
    } else if op == 0x10 {
        proof {
            reveal_strlit("LT");
        }
        "LT"
    } else if op == 0x11 {
        proof {
            reveal_strlit("GT");
        }
        "GT"
    } else if op == 0x12 {
        proof {
            reveal_strlit("SLT");
        }
        "SLT"
    } else if op == 0x13 {
        proof {
            reveal_strlit("SGT");
        }
        "SGT"
    } else if op == 0x14 {
        proof {
            reveal_strlit("EQ");
        }
        "EQ"
    } else if op == 0x15 {
        proof {
            reveal_strlit("ISZERO");
        }
        "ISZERO"
    } else if op == 0x16 {
        proof {
            reveal_strlit("AND");
        }
        "AND"
    } else if op == 0x17 {
        proof {
            reveal_strlit("OR");
        }
        "OR"
    } else if op == 0x18 {
        proof {
            reveal_strlit("XOR");
        }
        "XOR"
    } else if op == 0x19 {
        proof {
            reveal_strlit("NOT");
        }
        "NOT"
    } else if op == 0x1A {
        proof {
            reveal_strlit("BYTE");
        }
        "BYTE"
    } else if op == 0x1B {
        proof {
            reveal_strlit("SHL");
        }
        "SHL"
    } else if op == 0x1C {
        proof {
            reveal_strlit("SHR");
        }
        "SHR"
    } else if op == 0x1D {
        proof {
            reveal_strlit("SAR");
        }
        "SAR"
    } else if op == 0x20 {
        proof {
            reveal_strlit("KECCAK256");
        }
        "KECCAK256"
    } else if op == 0x30 {
        proof {
            reveal_strlit("ADDRESS");
        }
        "ADDRESS"
    } else if op == 0x31 {
        proof {
            reveal_strlit("BALANCE");
        }
        "BALANCE"
    } else if op == 0x32 {
        proof {
            reveal_strlit("ORIGIN");
        }
        "ORIGIN"
    } else if op == 0x33 {
        proof {
            reveal_strlit("CALLER");
        }
        "CALLER"
    } else if op == 0x34 {
        proof {
            reveal_strlit("CALLVALUE");
        }
        "CALLVALUE"
    } else if op == 0x35 {
        proof {
            reveal_strlit("CALLDATALOAD");
        }
        "CALLDATALOAD"
    } else if op == 0x36 {
        proof {
            reveal_strlit("CALLDATASIZE");
        }
        "CALLDATASIZE"
    } else if op == 0x37 {
        proof {
            reveal_strlit("CALLDATACOPY");
        }
        "CALLDATACOPY"
    } else if op == 0x38 {
        proof {
            reveal_strlit("CODESIZE");
        }
        "CODESIZE"
    } else if op == 0x39 {
        proof {
            reveal_strlit("CODECOPY");
        }
        "CODECOPY"
    } else if op == 0x3A {
        proof {
            reveal_strlit("GASPRICE");
        }
        "GASPRICE"
    } else if op == 0x3B {
        proof {
            reveal_strlit("EXTCODESIZE");
        }
        "EXTCODESIZE"
    } else if op == 0x3C {
        proof {
            reveal_strlit("EXTCODECOPY");
        }
        "EXTCODECOPY"
    } else if op == 0x3D {
        proof {
            reveal_strlit("RETURNDATASIZE");
        }
        "RETURNDATASIZE"
    } else if op == 0x3E {
        proof {
            reveal_strlit("RETURNDATACOPY");
        }
        "RETURNDATACOPY"
    } else if op == 0x3F {
        proof {
            reveal_strlit("EXTCODEHASH");
        }
        "EXTCODEHASH"
    } else if op == 0x40 {
        proof {
            reveal_strlit("BLOCKHASH");
        }
        "BLOCKHASH"
    } else if op == 0x41 {
        proof {
            reveal_strlit("COINBASE");
        }
        "COINBASE"
    } else if op == 0x42 {
        proof {
            reveal_strlit("TIMESTAMP");
        }
        "TIMESTAMP"
    } else if op == 0x43 {
        proof {
            reveal_strlit("NUMBER");
        }
        "NUMBER"
    } else if op == 0x44 {
        proof {
            reveal_strlit("PREVRANDAO");
        }
        "PREVRANDAO"
    } else if op == 0x45 {
        proof {
            reveal_strlit("GASLIMIT");
        }
        "GASLIMIT"
    } else if op == 0x46 {
        proof {
            reveal_strlit("CHAINID");
        }
        "CHAINID"
    } else if op == 0x47 {
        proof {
            reveal_strlit("SELFBALANCE");
        }
        "SELFBALANCE"
    } else if op == 0x48 {
        proof {
            reveal_strlit("BASEFEE");
        }
        "BASEFEE"
    } else if op == 0x50 {
        proof {
            reveal_strlit("POP");
        }
        "POP"
    } else if op == 0x51 {
        proof {
            reveal_strlit("MLOAD");
        }
        "MLOAD"
    } else if op == 0x52 {
        proof {
            reveal_strlit("MSTORE");
        }
        "MSTORE"
    } else if op == 0x53 {
        proof {
            reveal_strlit("MSTORE8");
        }
        "MSTORE8"
    } else if op == 0x54 {
        proof {
            reveal_strlit("SLOAD");
        }
        "SLOAD"
    } else if op == 0x55 {
        proof {
            reveal_strlit("SSTORE");
        }
        "SSTORE"
    } else if op == 0x56 {
        proof {
            reveal_strlit("JUMP");
        }
        "JUMP"
    } else if op == 0x57 {
        proof {
            reveal_strlit("JUMPI");
        }
        "JUMPI"
    } else if op == 0x58 {
        proof {
            reveal_strlit("PC");
        }
        "PC"
    } else if op == 0x59 {
        proof {
            reveal_strlit("MSIZE");
        }
        "MSIZE"
    } else if op == 0x5A {
        proof {
            reveal_strlit("GAS");
        }
        "GAS"
    } else if op == 0x5B {
        proof {
            reveal_strlit("JUMPDEST");
        }
        "JUMPDEST"
    } else if op == 0x5F {
        proof {
            reveal_strlit("PUSH0");
        }
        "PUSH0"
    } else if op == 0x60 {
        proof {
            reveal_strlit("PUSH1");
        }
        "PUSH1"
    } else if op == 0x61 {
        proof {
            reveal_strlit("PUSH2");
        }
        "PUSH2"
    } else if op == 0x62 {
        proof {
            reveal_strlit("PUSH3");
        }
        "PUSH3"
    } else if op == 0x63 {
        proof {
            reveal_strlit("PUSH4");
        }
        "PUSH4"
    } else if op == 0x64 {
        proof {
            reveal_strlit("PUSH5");
        }
        "PUSH5"
    } else if op == 0x65 {
        proof {
            reveal_strlit("PUSH6");
        }
        "PUSH6"
    } else if op == 0x66 {
        proof {
            reveal_strlit("PUSH7");
        }
        "PUSH7"
    } else if op == 0x67 {
        proof {
            reveal_strlit("PUSH8");
        }
        "PUSH8"
    } else if op == 0x68 {
        proof {
            reveal_strlit("PUSH9");
        }
        "PUSH9"
    } else if op == 0x69 {
        proof {
            reveal_strlit("PUSH10");
        }
        "PUSH10"
    } else if op == 0x6A {
        proof {
            reveal_strlit("PUSH11");
        }
        "PUSH11"
    } else if op == 0x6B {
        proof {
            reveal_strlit("PUSH12");
        }
        "PUSH12"
    } else if op == 0x6C {
        proof {
            reveal_strlit("PUSH13");
        }
        "PUSH13"
    } else if op == 0x6D {
        proof {
            reveal_strlit("PUSH14");
        }
        "PUSH14"
    } else if op == 0x6E {
        proof {
            reveal_strlit("PUSH15");
        }
        "PUSH15"
    } else if op == 0x6F {
        proof {
            reveal_strlit("PUSH16");
        }
        "PUSH16"
    } else if op == 0x70 {
        proof {
            reveal_strlit("PUSH17");
        }
        "PUSH17"
    } else if op == 0x71 {
        proof {
            reveal_strlit("PUSH18");
        }
        "PUSH18"
    } else if op == 0x72 {
        proof {
            reveal_strlit("PUSH19");
        }
        "PUSH19"
    } else if op == 0x73 {
        proof {
            reveal_strlit("PUSH20");
        }
        "PUSH20"
    } else if op == 0x74 {
        proof {
            reveal_strlit("PUSH21");
        }
        "PUSH21"
    } else if op == 0x75 {
        proof {
            reveal_strlit("PUSH22");
        }
        "PUSH22"
    } else if op == 0x76 {
        proof {
            reveal_strlit("PUSH23");
        }
        "PUSH23"
    } else if op == 0x77 {
        proof {
            reveal_strlit("PUSH24");
        }
        "PUSH24"
    } else if op == 0x78 {
        proof {
            reveal_strlit("PUSH25");
        }
        "PUSH25"
    } else if op == 0x79 {
        proof {
            reveal_strlit("PUSH26");
        }
        "PUSH26"
    } else if op == 0x7A {
        proof {
            reveal_strlit("PUSH27");
        }
        "PUSH27"
    } else if op == 0x7B {
        proof {
            reveal_strlit("PUSH28");
        }
        "PUSH28"
    } else if op == 0x7C {
        proof {
            reveal_strlit("PUSH29");
        }
        "PUSH29"
    } else if op == 0x7D {
        proof {
            reveal_strlit("PUSH30");
        }
        "PUSH30"
    } else if op == 0x7E {
        proof {
            reveal_strlit("PUSH31");
        }
        "PUSH31"
    } else if op == 0x7F {
        proof {
            reveal_strlit("PUSH32");
        }
        "PUSH32"
    } else if op == 0x80 {
        proof {
            reveal_strlit("DUP1");
        }
        "DUP1"
    } else if op == 0x81 {
        proof {
            reveal_strlit("DUP2");
        }
        "DUP2"
    } else if op == 0x82 {
        proof {
            reveal_strlit("DUP3");
        }
        "DUP3"
    } else if op == 0x83 {
        proof {
            reveal_strlit("DUP4");
        }
        "DUP4"
    } else if op == 0x84 {
        proof {
            reveal_strlit("DUP5");
        }
        "DUP5"
    } else if op == 0x85 {
        proof {
            reveal_strlit("DUP6");
        }
        "DUP6"
    } else if op == 0x86 {
        proof {
            reveal_strlit("DUP7");
        }
        "DUP7"
    } else if op == 0x87 {
        proof {
            reveal_strlit("DUP8");
        }
        "DUP8"
    } else if op == 0x88 {
        proof {
            reveal_strlit("DUP9");
        }
        "DUP9"
    } else if op == 0x89 {
        proof {
            reveal_strlit("DUP10");
        }
        "DUP10"
    } else if op == 0x8A {
        proof {
            reveal_strlit("DUP11");
        }
        "DUP11"
    } else if op == 0x8B {
        proof {
            reveal_strlit("DUP12");
        }
        "DUP12"
    } else if op == 0x8C {
        proof {
            reveal_strlit("DUP13");
        }
        "DUP13"
    } else if op == 0x8D {
        proof {
            reveal_strlit("DUP14");
        }
        "DUP14"
    } else if op == 0x8E {
        proof {
            reveal_strlit("DUP15");
        }
        "DUP15"
    } else if op == 0x8F {
        proof {
            reveal_strlit("DUP16");
        }
        "DUP16"
    } else if op == 0x90 {
        proof {
            reveal_strlit("SWAP1");
        }
        "SWAP1"
    } else if op == 0x91 {
        proof {
            reveal_strlit("SWAP2");
        }
        "SWAP2"
    } else if op == 0x92 {
        proof {
            reveal_strlit("SWAP3");
        }
        "SWAP3"
    } else if op == 0x93 {
        proof {
            reveal_strlit("SWAP4");
        }
        "SWAP4"
    } else if op == 0x94 {
        proof {
            reveal_strlit("SWAP5");
        }
        "SWAP5"
    } else if op == 0x95 {
        proof {
            reveal_strlit("SWAP6");
        }
        "SWAP6"
    } else if op == 0x96 {
        proof {
            reveal_strlit("SWAP7");
        }
        "SWAP7"
    } else if op == 0x97 {
        proof {
            reveal_strlit("SWAP8");
        }
        "SWAP8"
    } else if op == 0x98 {
        proof {
            reveal_strlit("SWAP9");
        }
        "SWAP9"
    } else if op == 0x99 {
        proof {
            reveal_strlit("SWAP10");
        }
        "SWAP10"
    } else if op == 0x9A {
        proof {
            reveal_strlit("SWAP11");
        }
        "SWAP11"
    } else if op == 0x9B {
        proof {
            reveal_strlit("SWAP12");
        }
        "SWAP12"
    } else if op == 0x9C {
        proof {
            reveal_strlit("SWAP13");
        }
        "SWAP13"
    } else if op == 0x9D {
        proof {
            reveal_strlit("SWAP14");
        }
        "SWAP14"
    } else if op == 0x9E {
        proof {
            reveal_strlit("SWAP15");
        }
        "SWAP15"
    } else if op == 0x9F {
        proof {
            reveal_strlit("SWAP16");
        }
        "SWAP16"
    } else if op == 0xA0 {
        proof {
            reveal_strlit("LOG0");
        }
        "LOG0"
    } else if op == 0xA1 {
        proof {
            reveal_strlit("LOG1");
        }
        "LOG1"
    } else if op == 0xA2 {
        proof {
            reveal_strlit("LOG2");
        }
        "LOG2"
    } else if op == 0xA3 {
        proof {
            reveal_strlit("LOG3");
        }
        "LOG3"
    } else if op == 0xA4 {
        proof {
            reveal_strlit("LOG4");
        }
        "LOG4"
    } else if op == 0xF0 {
        proof {
            reveal_strlit("CREATE");
        }
        "CREATE"
    } else if op == 0xF1 {
        proof {
            reveal_strlit("CALL");
        }
        "CALL"
    } else if op == 0xF2 {
        proof {
            reveal_strlit("CALLCODE");
        }
        "CALLCODE"
    } else if op == 0xF3 {
        proof {
            reveal_strlit("RETURN");
        }
        "RETURN"
    } else if op == 0xF4 {
        proof {
            reveal_strlit("DELEGATECALL");
        }
        "DELEGATECALL"
    } else if op == 0xF5 {
        proof {
            reveal_strlit("CREATE2");
        }
        "CREATE2"
    } else if op == 0xFA {
        proof {
            reveal_strlit("STATICCALL");
        }
        "STATICCALL"
    } else if op == 0xFD {
        proof {
            reveal_strlit("REVERT");
        }
        "REVERT"
    } else if op == 0xFE {
        proof {
            reveal_strlit("INVALID");
        }
        "INVALID"
    } else if op == 0xFF {
        proof {
            reveal_strlit("SELFDESTRUCT");
        }
        "SELFDESTRUCT"
    } else {
        proof {
            reveal_strlit("<invalid>");
        }
        "<invalid>"
    }
}

/// The instruction whose mnemonic is `s`, if one has it: the instruction table read the
/// other way, name to byte.
pub open spec fn opcode_of_name(s: Seq<char>) -> Option<u8> {
    if s.len() == 4 && s[0] == 'S' && s[1] == 'T' && s[2] == 'O' && s[3] == 'P' {
        Some(0x00u8)
    } else if s.len() == 3 && s[0] == 'A' && s[1] == 'D' && s[2] == 'D' {
        Some(0x01u8)
    } else if s.len() == 3 && s[0] == 'M' && s[1] == 'U' && s[2] == 'L' {
        Some(0x02u8)
    } else if s.len() == 3 && s[0] == 'S' && s[1] == 'U' && s[2] == 'B' {
        Some(0x03u8)
    } else if s.len() == 3 && s[0] == 'D' && s[1] == 'I' && s[2] == 'V' {
        Some(0x04u8)
    } else if s.len() == 4 && s[0] == 'S' && s[1] == 'D' && s[2] == 'I' && s[3] == 'V' {
        Some(0x05u8)
    } else if s.len() == 3 && s[0] == 'M' && s[1] == 'O' && s[2] == 'D' {
        Some(0x06u8)
    } else if s.len() == 4 && s[0] == 'S' && s[1] == 'M' && s[2] == 'O' && s[3] == 'D' {
        Some(0x07u8)
    } else if s.len() == 6 && s[0] == 'A' && s[1] == 'D' && s[2] == 'D' && s[3] == 'M' && s[4] == 'O' && s[5] == 'D' {
        Some(0x08u8)
    } else if s.len() == 6 && s[0] == 'M' && s[1] == 'U' && s[2] == 'L' && s[3] == 'M' && s[4] == 'O' && s[5] == 'D' {
        Some(0x09u8)
    } else if s.len() == 3 && s[0] == 'E' && s[1] == 'X' && s[2] == 'P' {
        Some(0x0Au8)
    } else if s.len() == 10 && s[0] == 'S' && s[1] == 'I' && s[2] == 'G' && s[3] == 'N' && s[4] == 'E' && s[5] == 'X' && s[6] == 'T' && s[7] == 'E' && s[8] == 'N' && s[9] == 'D' {
        Some(0x0Bu8)
    } else if s.len() == 2 && s[0] == 'L' && s[1] == 'T' {
        Some(0x10u8)
    } else if s.len() == 2 && s[0] == 'G' && s[1] == 'T' {
        Some(0x11u8)
    } else if s.len() == 3 && s[0] == 'S' && s[1] == 'L' && s[2] == 'T' {
        Some(0x12u8)
    } else if s.len() == 3 && s[0] == 'S' && s[1] == 'G' && s[2] == 'T' {
        Some(0x13u8)
    } else if s.len() == 2 && s[0] == 'E' && s[1] == 'Q' {
        Some(0x14u8)
    } else if s.len() == 6 && s[0] == 'I' && s[1] == 'S' && s[2] == 'Z' && s[3] == 'E' && s[4] == 'R' && s[5] == 'O' {
        Some(0x15u8)
    } else if s.len() == 3 && s[0] == 'A' && s[1] == 'N' && s[2] == 'D' {
        Some(0x16u8)
    } else if s.len() == 2 && s[0] == 'O' && s[1] == 'R' {
        Some(0x17u8)
    } else if s.len() == 3 && s[0] == 'X' && s[1] == 'O' && s[2] == 'R' {
        Some(0x18u8)
    } else if s.len() == 3 && s[0] == 'N' && s[1] == 'O' && s[2] == 'T' {
        Some(0x19u8)
    } else if s.len() == 4 && s[0] == 'B' && s[1] == 'Y' && s[2] == 'T' && s[3] == 'E' {
        Some(0x1Au8)
    } else if s.len() == 3 && s[0] == 'S' && s[1] == 'H' && s[2] == 'L' {
        Some(0x1Bu8)
    } else if s.len() == 3 && s[0] == 'S' && s[1] == 'H' && s[2] == 'R' {
        Some(0x1Cu8)
    } else if s.len() == 3 && s[0] == 'S' && s[1] == 'A' && s[2] == 'R' {
        Some(0x1Du8)
    } else if s.len() == 9 && s[0] == 'K' && s[1] == 'E' && s[2] == 'C' && s[3] == 'C' && s[4] == 'A' && s[5] == 'K' && s[6] == '2' && s[7] == '5' && s[8] == '6' {
        Some(0x20u8)
    } else if s.len() == 7 && s[0] == 'A' && s[1] == 'D' && s[2] == 'D' && s[3] == 'R' && s[4] == 'E' && s[5] == 'S' && s[6] == 'S' {
        Some(0x30u8)
    } else if s.len() == 7 && s[0] == 'B' && s[1] == 'A' && s[2] == 'L' && s[3] == 'A' && s[4] == 'N' && s[5] == 'C' && s[6] == 'E' {
        Some(0x31u8)
    } else if s.len() == 6 && s[0] == 'O' && s[1] == 'R' && s[2] == 'I' && s[3] == 'G' && s[4] == 'I' && s[5] == 'N' {
        Some(0x32u8)
    } else if s.len() == 6 && s[0] == 'C' && s[1] == 'A' && s[2] == 'L' && s[3] == 'L' && s[4] == 'E' && s[5] == 'R' {
        Some(0x33u8)
    } else if s.len() == 9 && s[0] == 'C' && s[1] == 'A' && s[2] == 'L' && s[3] == 'L' && s[4] == 'V' && s[5] == 'A' && s[6] == 'L' && s[7] == 'U' && s[8] == 'E' {
        Some(0x34u8)
    } else if s.len() == 12 && s[0] == 'C' && s[1] == 'A' && s[2] == 'L' && s[3] == 'L' && s[4] == 'D' && s[5] == 'A' && s[6] == 'T' && s[7] == 'A' && s[8] == 'L' && s[9] == 'O' && s[10] == 'A' && s[11] == 'D' {
        Some(0x35u8)
    } else if s.len() == 12 && s[0] == 'C' && s[1] == 'A' && s[2] == 'L' && s[3] == 'L' && s[4] == 'D' && s[5] == 'A' && s[6] == 'T' && s[7] == 'A' && s[8] == 'S' && s[9] == 'I' && s[10] == 'Z' && s[11] == 'E' {
        Some(0x36u8)
    } else if s.len() == 12 && s[0] == 'C' && s[1] == 'A' && s[2] == 'L' && s[3] == 'L' && s[4] == 'D' && s[5] == 'A' && s[6] == 'T' && s[7] == 'A' && s[8] == 'C' && s[9] == 'O' && s[10] == 'P' && s[11] == 'Y' {
        Some(0x37u8)
    } else if s.len() == 8 && s[0] == 'C' && s[1] == 'O' && s[2] == 'D' && s[3] == 'E' && s[4] == 'S' && s[5] == 'I' && s[6] == 'Z' && s[7] == 'E' {
        Some(0x38u8)
    } else if s.len() == 8 && s[0] == 'C' && s[1] == 'O' && s[2] == 'D' && s[3] == 'E' && s[4] == 'C' && s[5] == 'O' && s[6] == 'P' && s[7] == 'Y' {
        Some(0x39u8)
    } else if s.len() == 8 && s[0] == 'G' && s[1] == 'A' && s[2] == 'S' && s[3] == 'P' && s[4] == 'R' && s[5] == 'I' && s[6] == 'C' && s[7] == 'E' {
        Some(0x3Au8)
    } else if s.len() == 11 && s[0] == 'E' && s[1] == 'X' && s[2] == 'T' && s[3] == 'C' && s[4] == 'O' && s[5] == 'D' && s[6] == 'E' && s[7] == 'S' && s[8] == 'I' && s[9] == 'Z' && s[10] == 'E' {
        Some(0x3Bu8)
    } else if s.len() == 11 && s[0] == 'E' && s[1] == 'X' && s[2] == 'T' && s[3] == 'C' && s[4] == 'O' && s[5] == 'D' && s[6] == 'E' && s[7] == 'C' && s[8] == 'O' && s[9] == 'P' && s[10] == 'Y' {
        Some(0x3Cu8)
    } else if s.len() == 14 && s[0] == 'R' && s[1] == 'E' && s[2] == 'T' && s[3] == 'U' && s[4] == 'R' && s[5] == 'N' && s[6] == 'D' && s[7] == 'A' && s[8] == 'T' && s[9] == 'A' && s[10] == 'S' && s[11] == 'I' && s[12] == 'Z' && s[13] == 'E' {
        Some(0x3Du8)
    } else if s.len() == 14 && s[0] == 'R' && s[1] == 'E' && s[2] == 'T' && s[3] == 'U' && s[4] == 'R' && s[5] == 'N' && s[6] == 'D' && s[7] == 'A' && s[8] == 'T' && s[9] == 'A' && s[10] == 'C' && s[11] == 'O' && s[12] == 'P' && s[13] == 'Y' {
        Some(0x3Eu8)
    } else if s.len() == 11 && s[0] == 'E' && s[1] == 'X' && s[2] == 'T' && s[3] == 'C' && s[4] == 'O' && s[5] == 'D' && s[6] == 'E' && s[7] == 'H' && s[8] == 'A' && s[9] == 'S' && s[10] == 'H' {
        Some(0x3Fu8)
    } else if s.len() == 9 && s[0] == 'B' && s[1] == 'L' && s[2] == 'O' && s[3] == 'C' && s[4] == 'K' && s[5] == 'H' && s[6] == 'A' && s[7] == 'S' && s[8] == 'H' {
        Some(0x40u8)
    } else if s.len() == 8 && s[0] == 'C' && s[1] == 'O' && s[2] == 'I' && s[3] == 'N' && s[4] == 'B' && s[5] == 'A' && s[6] == 'S' && s[7] == 'E' {
        Some(0x41u8)
    } else if s.len() == 9 && s[0] == 'T' && s[1] == 'I' && s[2] == 'M' && s[3] == 'E' && s[4] == 'S' && s[5] == 'T' && s[6] == 'A' && s[7] == 'M' && s[8] == 'P' {
        Some(0x42u8)
    } else if s.len() == 6 && s[0] == 'N' && s[1] == 'U' && s[2] == 'M' && s[3] == 'B' && s[4] == 'E' && s[5] == 'R' {
        Some(0x43u8)
    } else if s.len() == 10 && s[0] == 'P' && s[1] == 'R' && s[2] == 'E' && s[3] == 'V' && s[4] == 'R' && s[5] == 'A' && s[6] == 'N' && s[7] == 'D' && s[8] == 'A' && s[9] == 'O' {
        Some(0x44u8)
    } else if s.len() == 8 && s[0] == 'G' && s[1] == 'A' && s[2] == 'S' && s[3] == 'L' && s[4] == 'I' && s[5] == 'M' && s[6] == 'I' && s[7] == 'T' {
        Some(0x45u8)
    } else if s.len() == 7 && s[0] == 'C' && s[1] == 'H' && s[2] == 'A' && s[3] == 'I' && s[4] == 'N' && s[5] == 'I' && s[6] == 'D' {
        Some(0x46u8)
    } else if s.len() == 11 && s[0] == 'S' && s[1] == 'E' && s[2] == 'L' && s[3] == 'F' && s[4] == 'B' && s[5] == 'A' && s[6] == 'L' && s[7] == 'A' && s[8] == 'N' && s[9] == 'C' && s[10] == 'E' {
        Some(0x47u8)
    } else if s.len() == 7 && s[0] == 'B' && s[1] == 'A' && s[2] == 'S' && s[3] == 'E' && s[4] == 'F' && s[5] == 'E' && s[6] == 'E' {
        Some(0x48u8)
    } else if s.len() == 3 && s[0] == 'P' && s[1] == 'O' && s[2] == 'P' {
        Some(0x50u8)
    } else if s.len() == 5 && s[0] == 'M' && s[1] == 'L' && s[2] == 'O' && s[3] == 'A' && s[4] == 'D' {
        Some(0x51u8)
    } else if s.len() == 6 && s[0] == 'M' && s[1] == 'S' && s[2] == 'T' && s[3] == 'O' && s[4] == 'R' && s[5] == 'E' {
        Some(0x52u8)
    } else if s.len() == 7 && s[0] == 'M' && s[1] == 'S' && s[2] == 'T' && s[3] == 'O' && s[4] == 'R' && s[5] == 'E' && s[6] == '8' {
        Some(0x53u8)
    } else if s.len() == 5 && s[0] == 'S' && s[1] == 'L' && s[2] == 'O' && s[3] == 'A' && s[4] == 'D' {
        Some(0x54u8)
    } else if s.len() == 6 && s[0] == 'S' && s[1] == 'S' && s[2] == 'T' && s[3] == 'O' && s[4] == 'R' && s[5] == 'E' {
        Some(0x55u8)
    } else if s.len() == 4 && s[0] == 'J' && s[1] == 'U' && s[2] == 'M' && s[3] == 'P' {
        Some(0x56u8)
    } else if s.len() == 5 && s[0] == 'J' && s[1] == 'U' && s[2] == 'M' && s[3] == 'P' && s[4] == 'I' {
        Some(0x57u8)
    } else if s.len() == 2 && s[0] == 'P' && s[1] == 'C' {
        Some(0x58u8)
    } else if s.len() == 5 && s[0] == 'M' && s[1] == 'S' && s[2] == 'I' && s[3] == 'Z' && s[4] == 'E' {
        Some(0x59u8)
    } else if s.len() == 3 && s[0] == 'G' && s[1] == 'A' && s[2] == 'S' {
        Some(0x5Au8)
    } else if s.len() == 8 && s[0] == 'J' && s[1] == 'U' && s[2] == 'M' && s[3] == 'P' && s[4] == 'D' && s[5] == 'E' && s[6] == 'S' && s[7] == 'T' {
        Some(0x5Bu8)
    } else if s.len() == 5 && s[0] == 'P' && s[1] == 'U' && s[2] == 'S' && s[3] == 'H' && s[4] == '0' {
        Some(0x5Fu8)
    } else if s.len() == 5 && s[0] == 'P' && s[1] == 'U' && s[2] == 'S' && s[3] == 'H' && s[4] == '1' {
        Some(0x60u8)
    } else if s.len() == 5 && s[0] == 'P' && s[1] == 'U' && s[2] == 'S' && s[3] == 'H' && s[4] == '2' {
        Some(0x61u8)
    } else if s.len() == 5 && s[0] == 'P' && s[1] == 'U' && s[2] == 'S' && s[3] == 'H' && s[4] == '3' {
        Some(0x62u8)
    } else if s.len() == 5 && s[0] == 'P' && s[1] == 'U' && s[2] == 'S' && s[3] == 'H' && s[4] == '4' {
        Some(0x63u8)
    } else if s.len() == 5 && s[0] == 'P' && s[1] == 'U' && s[2] == 'S' && s[3] == 'H' && s[4] == '5' {
        Some(0x64u8)
    } else if s.len() == 5 && s[0] == 'P' && s[1] == 'U' && s[2] == 'S' && s[3] == 'H' && s[4] == '6' {
        Some(0x65u8)
    } else if s.len() == 5 && s[0] == 'P' && s[1] == 'U' && s[2] == 'S' && s[3] == 'H' && s[4] == '7' {
        Some(0x66u8)
    } else if s.len() == 5 && s[0] == 'P' && s[1] == 'U' && s[2] == 'S' && s[3] == 'H' && s[4] == '8' {
        Some(0x67u8)
    } else if s.len() == 5 && s[0] == 'P' && s[1] == 'U' && s[2] == 'S' && s[3] == 'H' && s[4] == '9' {
        Some(0x68u8)
    } else if s.len() == 6 && s[0] == 'P' && s[1] == 'U' && s[2] == 'S' && s[3] == 'H' && s[4] == '1' && s[5] == '0' {
        Some(0x69u8)
    } else if s.len() == 6 && s[0] == 'P' && s[1] == 'U' && s[2] == 'S' && s[3] == 'H' && s[4] == '1' && s[5] == '1' {
        Some(0x6Au8)
    } else if s.len() == 6 && s[0] == 'P' && s[1] == 'U' && s[2] == 'S' && s[3] == 'H' && s[4] == '1' && s[5] == '2' {
        Some(0x6Bu8)
    } else if s.len() == 6 && s[0] == 'P' && s[1] == 'U' && s[2] == 'S' && s[3] == 'H' && s[4] == '1' && s[5] == '3' {
        Some(0x6Cu8)
    } else if s.len() == 6 && s[0] == 'P' && s[1] == 'U' && s[2] == 'S' && s[3] == 'H' && s[4] == '1' && s[5] == '4' {
        Some(0x6Du8)
    } else if s.len() == 6 && s[0] == 'P' && s[1] == 'U' && s[2] == 'S' && s[3] == 'H' && s[4] == '1' && s[5] == '5' {
        Some(0x6Eu8)
    } else if s.len() == 6 && s[0] == 'P' && s[1] == 'U' && s[2] == 'S' && s[3] == 'H' && s[4] == '1' && s[5] == '6' {
        Some(0x6Fu8)
    } else if s.len() == 6 && s[0] == 'P' && s[1] == 'U' && s[2] == 'S' && s[3] == 'H' && s[4] == '1' && s[5] == '7' {
        Some(0x70u8)
    } else if s.len() == 6 && s[0] == 'P' && s[1] == 'U' && s[2] == 'S' && s[3] == 'H' && s[4] == '1' && s[5] == '8' {
        Some(0x71u8)
    } else if s.len() == 6 && s[0] == 'P' && s[1] == 'U' && s[2] == 'S' && s[3] == 'H' && s[4] == '1' && s[5] == '9' {
        Some(0x72u8)
    } else if s.len() == 6 && s[0] == 'P' && s[1] == 'U' && s[2] == 'S' && s[3] == 'H' && s[4] == '2' && s[5] == '0' {
        Some(0x73u8)
    } else if s.len() == 6 && s[0] == 'P' && s[1] == 'U' && s[2] == 'S' && s[3] == 'H' && s[4] == '2' && s[5] == '1' {
        Some(0x74u8)
    } else if s.len() == 6 && s[0] == 'P' && s[1] == 'U' && s[2] == 'S' && s[3] == 'H' && s[4] == '2' && s[5] == '2' {
        Some(0x75u8)
    } else if s.len() == 6 && s[0] == 'P' && s[1] == 'U' && s[2] == 'S' && s[3] == 'H' && s[4] == '2' && s[5] == '3' {
        Some(0x76u8)
    } else if s.len() == 6 && s[0] == 'P' && s[1] == 'U' && s[2] == 'S' && s[3] == 'H' && s[4] == '2' && s[5] == '4' {
        Some(0x77u8)
    } else if s.len() == 6 && s[0] == 'P' && s[1] == 'U' && s[2] == 'S' && s[3] == 'H' && s[4] == '2' && s[5] == '5' {
        Some(0x78u8)
    } else if s.len() == 6 && s[0] == 'P' && s[1] == 'U' && s[2] == 'S' && s[3] == 'H' && s[4] == '2' && s[5] == '6' {
        Some(0x79u8)
    } else if s.len() == 6 && s[0] == 'P' && s[1] == 'U' && s[2] == 'S' && s[3] == 'H' && s[4] == '2' && s[5] == '7' {
        Some(0x7Au8)
    } else if s.len() == 6 && s[0] == 'P' && s[1] == 'U' && s[2] == 'S' && s[3] == 'H' && s[4] == '2' && s[5] == '8' {
        Some(0x7Bu8)
    } else if s.len() == 6 && s[0] == 'P' && s[1] == 'U' && s[2] == 'S' && s[3] == 'H' && s[4] == '2' && s[5] == '9' {
        Some(0x7Cu8)
    } else if s.len() == 6 && s[0] == 'P' && s[1] == 'U' && s[2] == 'S' && s[3] == 'H' && s[4] == '3' && s[5] == '0' {
        Some(0x7Du8)
    } else if s.len() == 6 && s[0] == 'P' && s[1] == 'U' && s[2] == 'S' && s[3] == 'H' && s[4] == '3' && s[5] == '1' {
        Some(0x7Eu8)
    } else if s.len() == 6 && s[0] == 'P' && s[1] == 'U' && s[2] == 'S' && s[3] == 'H' && s[4] == '3' && s[5] == '2' {
        Some(0x7Fu8)
    } else if s.len() == 4 && s[0] == 'D' && s[1] == 'U' && s[2] == 'P' && s[3] == '1' {
        Some(0x80u8)
    } else if s.len() == 4 && s[0] == 'D' && s[1] == 'U' && s[2] == 'P' && s[3] == '2' {
        Some(0x81u8)
    } else if s.len() == 4 && s[0] == 'D' && s[1] == 'U' && s[2] == 'P' && s[3] == '3' {
        Some(0x82u8)
    } else if s.len() == 4 && s[0] == 'D' && s[1] == 'U' && s[2] == 'P' && s[3] == '4' {
        Some(0x83u8)
    } else if s.len() == 4 && s[0] == 'D' && s[1] == 'U' && s[2] == 'P' && s[3] == '5' {
        Some(0x84u8)
    } else if s.len() == 4 && s[0] == 'D' && s[1] == 'U' && s[2] == 'P' && s[3] == '6' {
        Some(0x85u8)
    } else if s.len() == 4 && s[0] == 'D' && s[1] == 'U' && s[2] == 'P' && s[3] == '7' {
        Some(0x86u8)
    } else if s.len() == 4 && s[0] == 'D' && s[1] == 'U' && s[2] == 'P' && s[3] == '8' {
        Some(0x87u8)
    } else if s.len() == 4 && s[0] == 'D' && s[1] == 'U' && s[2] == 'P' && s[3] == '9' {
        Some(0x88u8)
    } else if s.len() == 5 && s[0] == 'D' && s[1] == 'U' && s[2] == 'P' && s[3] == '1' && s[4] == '0' {
        Some(0x89u8)
    } else if s.len() == 5 && s[0] == 'D' && s[1] == 'U' && s[2] == 'P' && s[3] == '1' && s[4] == '1' {
        Some(0x8Au8)
    } else if s.len() == 5 && s[0] == 'D' && s[1] == 'U' && s[2] == 'P' && s[3] == '1' && s[4] == '2' {
        Some(0x8Bu8)
    } else if s.len() == 5 && s[0] == 'D' && s[1] == 'U' && s[2] == 'P' && s[3] == '1' && s[4] == '3' {
        Some(0x8Cu8)
    } else if s.len() == 5 && s[0] == 'D' && s[1] == 'U' && s[2] == 'P' && s[3] == '1' && s[4] == '4' {
        Some(0x8Du8)
    } else if s.len() == 5 && s[0] == 'D' && s[1] == 'U' && s[2] == 'P' && s[3] == '1' && s[4] == '5' {
        Some(0x8Eu8)
    } else if s.len() == 5 && s[0] == 'D' && s[1] == 'U' && s[2] == 'P' && s[3] == '1' && s[4] == '6' {
        Some(0x8Fu8)
    } else if s.len() == 5 && s[0] == 'S' && s[1] == 'W' && s[2] == 'A' && s[3] == 'P' && s[4] == '1' {
        Some(0x90u8)
    } else if s.len() == 5 && s[0] == 'S' && s[1] == 'W' && s[2] == 'A' && s[3] == 'P' && s[4] == '2' {
        Some(0x91u8)
    } else if s.len() == 5 && s[0] == 'S' && s[1] == 'W' && s[2] == 'A' && s[3] == 'P' && s[4] == '3' {
        Some(0x92u8)
    } else if s.len() == 5 && s[0] == 'S' && s[1] == 'W' && s[2] == 'A' && s[3] == 'P' && s[4] == '4' {
        Some(0x93u8)
    } else if s.len() == 5 && s[0] == 'S' && s[1] == 'W' && s[2] == 'A' && s[3] == 'P' && s[4] == '5' {
        Some(0x94u8)
    } else if s.len() == 5 && s[0] == 'S' && s[1] == 'W' && s[2] == 'A' && s[3] == 'P' && s[4] == '6' {
        Some(0x95u8)
    } else if s.len() == 5 && s[0] == 'S' && s[1] == 'W' && s[2] == 'A' && s[3] == 'P' && s[4] == '7' {
        Some(0x96u8)
    } else if s.len() == 5 && s[0] == 'S' && s[1] == 'W' && s[2] == 'A' && s[3] == 'P' && s[4] == '8' {
        Some(0x97u8)
    } else if s.len() == 5 && s[0] == 'S' && s[1] == 'W' && s[2] == 'A' && s[3] == 'P' && s[4] == '9' {
        Some(0x98u8)
    } else if s.len() == 6 && s[0] == 'S' && s[1] == 'W' && s[2] == 'A' && s[3] == 'P' && s[4] == '1' && s[5] == '0' {
        Some(0x99u8)
    } else if s.len() == 6 && s[0] == 'S' && s[1] == 'W' && s[2] == 'A' && s[3] == 'P' && s[4] == '1' && s[5] == '1' {
        Some(0x9Au8)
    } else if s.len() == 6 && s[0] == 'S' && s[1] == 'W' && s[2] == 'A' && s[3] == 'P' && s[4] == '1' && s[5] == '2' {
        Some(0x9Bu8)
    } else if s.len() == 6 && s[0] == 'S' && s[1] == 'W' && s[2] == 'A' && s[3] == 'P' && s[4] == '1' && s[5] == '3' {
        Some(0x9Cu8)
    } else if s.len() == 6 && s[0] == 'S' && s[1] == 'W' && s[2] == 'A' && s[3] == 'P' && s[4] == '1' && s[5] == '4' {
        Some(0x9Du8)
    } else if s.len() == 6 && s[0] == 'S' && s[1] == 'W' && s[2] == 'A' && s[3] == 'P' && s[4] == '1' && s[5] == '5' {
        Some(0x9Eu8)
    } else if s.len() == 6 && s[0] == 'S' && s[1] == 'W' && s[2] == 'A' && s[3] == 'P' && s[4] == '1' && s[5] == '6' {
        Some(0x9Fu8)
    } else if s.len() == 4 && s[0] == 'L' && s[1] == 'O' && s[2] == 'G' && s[3] == '0' {
        Some(0xA0u8)
    } else if s.len() == 4 && s[0] == 'L' && s[1] == 'O' && s[2] == 'G' && s[3] == '1' {
        Some(0xA1u8)
    } else if s.len() == 4 && s[0] == 'L' && s[1] == 'O' && s[2] == 'G' && s[3] == '2' {
        Some(0xA2u8)
    } else if s.len() == 4 && s[0] == 'L' && s[1] == 'O' && s[2] == 'G' && s[3] == '3' {
        Some(0xA3u8)
    } else if s.len() == 4 && s[0] == 'L' && s[1] == 'O' && s[2] == 'G' && s[3] == '4' {
        Some(0xA4u8)
    } else if s.len() == 6 && s[0] == 'C' && s[1] == 'R' && s[2] == 'E' && s[3] == 'A' && s[4] == 'T' && s[5] == 'E' {
        Some(0xF0u8)
    } else if s.len() == 4 && s[0] == 'C' && s[1] == 'A' && s[2] == 'L' && s[3] == 'L' {
        Some(0xF1u8)
    } else if s.len() == 8 && s[0] == 'C' && s[1] == 'A' && s[2] == 'L' && s[3] == 'L' && s[4] == 'C' && s[5] == 'O' && s[6] == 'D' && s[7] == 'E' {
        Some(0xF2u8)
    } else if s.len() == 6 && s[0] == 'R' && s[1] == 'E' && s[2] == 'T' && s[3] == 'U' && s[4] == 'R' && s[5] == 'N' {
        Some(0xF3u8)
    } else if s.len() == 12 && s[0] == 'D' && s[1] == 'E' && s[2] == 'L' && s[3] == 'E' && s[4] == 'G' && s[5] == 'A' && s[6] == 'T' && s[7] == 'E' && s[8] == 'C' && s[9] == 'A' && s[10] == 'L' && s[11] == 'L' {
        Some(0xF4u8)
    } else if s.len() == 7 && s[0] == 'C' && s[1] == 'R' && s[2] == 'E' && s[3] == 'A' && s[4] == 'T' && s[5] == 'E' && s[6] == '2' {
        Some(0xF5u8)
    } else if s.len() == 10 && s[0] == 'S' && s[1] == 'T' && s[2] == 'A' && s[3] == 'T' && s[4] == 'I' && s[5] == 'C' && s[6] == 'C' && s[7] == 'A' && s[8] == 'L' && s[9] == 'L' {
        Some(0xFAu8)
    } else if s.len() == 6 && s[0] == 'R' && s[1] == 'E' && s[2] == 'V' && s[3] == 'E' && s[4] == 'R' && s[5] == 'T' {
        Some(0xFDu8)
    } else if s.len() == 7 && s[0] == 'I' && s[1] == 'N' && s[2] == 'V' && s[3] == 'A' && s[4] == 'L' && s[5] == 'I' && s[6] == 'D' {
        Some(0xFEu8)
    } else if s.len() == 12 && s[0] == 'S' && s[1] == 'E' && s[2] == 'L' && s[3] == 'F' && s[4] == 'D' && s[5] == 'E' && s[6] == 'S' && s[7] == 'T' && s[8] == 'R' && s[9] == 'U' && s[10] == 'C' && s[11] == 'T' {
        Some(0xFFu8)
    } else {
        None
    }
}

/// The name of a byte that names no instruction.
pub open spec fn invalid_name() -> Seq<char> {
    seq!['<', 'i', 'n', 'v', 'a', 'l', 'i', 'd', '>']
}

/// Every mnemonic of the instruction table is the name that a trace records for its
/// instruction.
pub proof fn lemma_opcode_name_of_mnemonic(s: Seq<char>, op: u8)
    requires
        opcode_of_name(s) == Some(op),
    ensures
        opcode_name(op) == s,
{
    assert(opcode_name(op) =~= s);
}

/// The name that a trace records for an instruction names that instruction and no other:
/// reading the mnemonic that `op` is given back through the instruction table finds `op`,
/// so two instructions are never given the same name.
pub proof fn lemma_opcode_names_distinct(a: u8, b: u8)
    ensures
        opcode_name(a) != invalid_name() ==> opcode_of_name(opcode_name(a)) == Some(a),
        opcode_name(a) != invalid_name() && opcode_name(a) == opcode_name(b) ==> a == b,
{
    lemma_opcode_name_read_back(a);
    lemma_opcode_name_read_back(b);
}

proof fn lemma_opcode_name_read_back(op: u8)
    ensures
        opcode_name(op) != invalid_name() ==> opcode_of_name(opcode_name(op)) == Some(op),
{
    if 0x00 <= op <= 0x38 {
        lemma_opcode_names_0(op);
    }
    if 0x39 <= op <= 0x66 {
        lemma_opcode_names_1(op);
    }
    if 0x67 <= op <= 0x8A {
        lemma_opcode_names_2(op);
    }
    if 0x8B <= op <= 0xFF {
        lemma_opcode_names_3(op);
    }
}

proof fn lemma_opcode_names_0(op: u8)
    requires
        0x00 <= op <= 0x38,
    ensures
        opcode_name(op) != invalid_name() ==> opcode_of_name(opcode_name(op)) == Some(op),
{
    if op == 0x00 {
        assert(opcode_of_name(opcode_name(op)) == Some(0x00u8));
    } else if op == 0x01 {
        assert(opcode_of_name(opcode_name(op)) == Some(0x01u8));
    } else if op == 0x02 {
        assert(opcode_of_name(opcode_name(op)) == Some(0x02u8));
    } else if op == 0x03 {
        assert(opcode_of_name(opcode_name(op)) == Some(0x03u8));
    } else if op == 0x04 {
        assert(opcode_of_name(opcode_name(op)) == Some(0x04u8));
    } else if op == 0x05 {
        assert(opcode_of_name(opcode_name(op)) == Some(0x05u8));
    } else if op == 0x06 {
        assert(opcode_of_name(opcode_name(op)) == Some(0x06u8));
    } else if op == 0x07 {
        assert(opcode_of_name(opcode_name(op)) == Some(0x07u8));
    } else if op == 0x08 {
        assert(opcode_of_name(opcode_name(op)) == Some(0x08u8));
    } else if op == 0x09 {
        assert(opcode_of_name(opcode_name(op)) == Some(0x09u8));
    } else if op == 0x0A {
        assert(opcode_of_name(opcode_name(op)) == Some(0x0Au8));
    } else if op == 0x0B {
        assert(opcode_of_name(opcode_name(op)) == Some(0x0Bu8));
    } else if op == 0x10 {
        assert(opcode_of_name(opcode_name(op)) == Some(0x10u8));
    } else if op == 0x11 {
        assert(opcode_of_name(opcode_name(op)) == Some(0x11u8));
    } else if op == 0x12 {
        assert(opcode_of_name(opcode_name(op)) == Some(0x12u8));
    } else if op == 0x13 {
        assert(opcode_of_name(opcode_name(op)) == Some(0x13u8));
    } else if op == 0x14 {
        assert(opcode_of_name(opcode_name(op)) == Some(0x14u8));
    } else if op == 0x15 {
        assert(opcode_of_name(opcode_name(op)) == Some(0x15u8));
    } else if op == 0x16 {
        assert(opcode_of_name(opcode_name(op)) == Some(0x16u8));
    } else if op == 0x17 {
        assert(opcode_of_name(opcode_name(op)) == Some(0x17u8));
    } else if op == 0x18 {
        assert(opcode_of_name(opcode_name(op)) == Some(0x18u8));
    } else if op == 0x19 {
        assert(opcode_of_name(opcode_name(op)) == Some(0x19u8));
    } else if op == 0x1A {
        assert(opcode_of_name(opcode_name(op)) == Some(0x1Au8));
    } else if op == 0x1B {
        assert(opcode_of_name(opcode_name(op)) == Some(0x1Bu8));
    } else if op == 0x1C {
        assert(opcode_of_name(opcode_name(op)) == Some(0x1Cu8));
    } else if op == 0x1D {
        assert(opcode_of_name(opcode_name(op)) == Some(0x1Du8));
    } else if op == 0x20 {
        assert(opcode_of_name(opcode_name(op)) == Some(0x20u8));
    } else if op == 0x30 {
        assert(opcode_of_name(opcode_name(op)) == Some(0x30u8));
    } else if op == 0x31 {
        assert(opcode_of_name(opcode_name(op)) == Some(0x31u8));
    } else if op == 0x32 {
        assert(opcode_of_name(opcode_name(op)) == Some(0x32u8));
    } else if op == 0x33 {
        assert(opcode_of_name(opcode_name(op)) == Some(0x33u8));
    } else if op == 0x34 {
        assert(opcode_of_name(opcode_name(op)) == Some(0x34u8));
    } else if op == 0x35 {
        assert(opcode_of_name(opcode_name(op)) == Some(0x35u8));
    } else if op == 0x36 {
        assert(opcode_of_name(opcode_name(op)) == Some(0x36u8));
    } else if op == 0x37 {
        assert(opcode_of_name(opcode_name(op)) == Some(0x37u8));
    } else if op == 0x38 {
        assert(opcode_of_name(opcode_name(op)) == Some(0x38u8));
    }
}

proof fn lemma_opcode_names_1(op: u8)
    requires
        0x39 <= op <= 0x66,
    ensures
        opcode_name(op) != invalid_name() ==> opcode_of_name(opcode_name(op)) == Some(op),
{
    if op == 0x39 {
        assert(opcode_of_name(opcode_name(op)) == Some(0x39u8));
    } else if op == 0x3A {
        assert(opcode_of_name(opcode_name(op)) == Some(0x3Au8));
    } else if op == 0x3B {
        assert(opcode_of_name(opcode_name(op)) == Some(0x3Bu8));
    } else if op == 0x3C {
        assert(opcode_of_name(opcode_name(op)) == Some(0x3Cu8));
    } else if op == 0x3D {
        assert(opcode_of_name(opcode_name(op)) == Some(0x3Du8));
    } else if op == 0x3E {
        assert(opcode_of_name(opcode_name(op)) == Some(0x3Eu8));
    } else if op == 0x3F {
        assert(opcode_of_name(opcode_name(op)) == Some(0x3Fu8));
    } else if op == 0x40 {
        assert(opcode_of_name(opcode_name(op)) == Some(0x40u8));
    } else if op == 0x41 {
        assert(opcode_of_name(opcode_name(op)) == Some(0x41u8));
    } else if op == 0x42 {
        assert(opcode_of_name(opcode_name(op)) == Some(0x42u8));
    } else if op == 0x43 {
        assert(opcode_of_name(opcode_name(op)) == Some(0x43u8));
    } else if op == 0x44 {
        assert(opcode_of_name(opcode_name(op)) == Some(0x44u8));
    } else if op == 0x45 {
        assert(opcode_of_name(opcode_name(op)) == Some(0x45u8));
    } else if op == 0x46 {
        assert(opcode_of_name(opcode_name(op)) == Some(0x46u8));
    } else if op == 0x47 {
        assert(opcode_of_name(opcode_name(op)) == Some(0x47u8));
    } else if op == 0x48 {
        assert(opcode_of_name(opcode_name(op)) == Some(0x48u8));
    } else if op == 0x50 {
        assert(opcode_of_name(opcode_name(op)) == Some(0x50u8));
    } else if op == 0x51 {
        assert(opcode_of_name(opcode_name(op)) == Some(0x51u8));
    } else if op == 0x52 {
        assert(opcode_of_name(opcode_name(op)) == Some(0x52u8));
    } else if op == 0x53 {
        assert(opcode_of_name(opcode_name(op)) == Some(0x53u8));
    } else if op == 0x54 {
        assert(opcode_of_name(opcode_name(op)) == Some(0x54u8));
    } else if op == 0x55 {
        assert(opcode_of_name(opcode_name(op)) == Some(0x55u8));
    } else if op == 0x56 {
        assert(opcode_of_name(opcode_name(op)) == Some(0x56u8));
    } else if op == 0x57 {
        assert(opcode_of_name(opcode_name(op)) == Some(0x57u8));
    } else if op == 0x58 {
        assert(opcode_of_name(opcode_name(op)) == Some(0x58u8));
    } else if op == 0x59 {
        assert(opcode_of_name(opcode_name(op)) == Some(0x59u8));
    } else if op == 0x5A {
        assert(opcode_of_name(opcode_name(op)) == Some(0x5Au8));
    } else if op == 0x5B {
        assert(opcode_of_name(opcode_name(op)) == Some(0x5Bu8));
    } else if op == 0x5F {
        assert(opcode_of_name(opcode_name(op)) == Some(0x5Fu8));
    } else if op == 0x60 {
        assert(opcode_of_name(opcode_name(op)) == Some(0x60u8));
    } else if op == 0x61 {
        assert(opcode_of_name(opcode_name(op)) == Some(0x61u8));
    } else if op == 0x62 {
        assert(opcode_of_name(opcode_name(op)) == Some(0x62u8));
    } else if op == 0x63 {
        assert(opcode_of_name(opcode_name(op)) == Some(0x63u8));
    } else if op == 0x64 {
        assert(opcode_of_name(opcode_name(op)) == Some(0x64u8));
    } else if op == 0x65 {
        assert(opcode_of_name(opcode_name(op)) == Some(0x65u8));
    } else if op == 0x66 {
        assert(opcode_of_name(opcode_name(op)) == Some(0x66u8));
    }
}

proof fn lemma_opcode_names_2(op: u8)
    requires
        0x67 <= op <= 0x8A,
    ensures
        opcode_name(op) != invalid_name() ==> opcode_of_name(opcode_name(op)) == Some(op),
{
    if op == 0x67 {
        assert(opcode_of_name(opcode_name(op)) == Some(0x67u8));
    } else if op == 0x68 {
        assert(opcode_of_name(opcode_name(op)) == Some(0x68u8));
    } else if op == 0x69 {
        assert(opcode_of_name(opcode_name(op)) == Some(0x69u8));
    } else if op == 0x6A {
        assert(opcode_of_name(opcode_name(op)) == Some(0x6Au8));
    } else if op == 0x6B {
        assert(opcode_of_name(opcode_name(op)) == Some(0x6Bu8));
    } else if op == 0x6C {
        assert(opcode_of_name(opcode_name(op)) == Some(0x6Cu8));
    } else if op == 0x6D {
        assert(opcode_of_name(opcode_name(op)) == Some(0x6Du8));
    } else if op == 0x6E {
        assert(opcode_of_name(opcode_name(op)) == Some(0x6Eu8));
    } else if op == 0x6F {
        assert(opcode_of_name(opcode_name(op)) == Some(0x6Fu8));
    } else if op == 0x70 {
        assert(opcode_of_name(opcode_name(op)) == Some(0x70u8));
    } else if op == 0x71 {
        assert(opcode_of_name(opcode_name(op)) == Some(0x71u8));
    } else if op == 0x72 {
        assert(opcode_of_name(opcode_name(op)) == Some(0x72u8));
    } else if op == 0x73 {
        assert(opcode_of_name(opcode_name(op)) == Some(0x73u8));
    } else if op == 0x74 {
        assert(opcode_of_name(opcode_name(op)) == Some(0x74u8));
    } else if op == 0x75 {
        assert(opcode_of_name(opcode_name(op)) == Some(0x75u8));
    } else if op == 0x76 {
        assert(opcode_of_name(opcode_name(op)) == Some(0x76u8));
    } else if op == 0x77 {
        assert(opcode_of_name(opcode_name(op)) == Some(0x77u8));
    } else if op == 0x78 {
        assert(opcode_of_name(opcode_name(op)) == Some(0x78u8));
    } else if op == 0x79 {
        assert(opcode_of_name(opcode_name(op)) == Some(0x79u8));
    } else if op == 0x7A {
        assert(opcode_of_name(opcode_name(op)) == Some(0x7Au8));
    } else if op == 0x7B {
        assert(opcode_of_name(opcode_name(op)) == Some(0x7Bu8));
    } else if op == 0x7C {
        assert(opcode_of_name(opcode_name(op)) == Some(0x7Cu8));
    } else if op == 0x7D {
        assert(opcode_of_name(opcode_name(op)) == Some(0x7Du8));
    } else if op == 0x7E {
        assert(opcode_of_name(opcode_name(op)) == Some(0x7Eu8));
    } else if op == 0x7F {
        assert(opcode_of_name(opcode_name(op)) == Some(0x7Fu8));
    } else if op == 0x80 {
        assert(opcode_of_name(opcode_name(op)) == Some(0x80u8));
    } else if op == 0x81 {
        assert(opcode_of_name(opcode_name(op)) == Some(0x81u8));
    } else if op == 0x82 {
        assert(opcode_of_name(opcode_name(op)) == Some(0x82u8));
    } else if op == 0x83 {
        assert(opcode_of_name(opcode_name(op)) == Some(0x83u8));
    } else if op == 0x84 {
        assert(opcode_of_name(opcode_name(op)) == Some(0x84u8));
    } else if op == 0x85 {
        assert(opcode_of_name(opcode_name(op)) == Some(0x85u8));
    } else if op == 0x86 {
        assert(opcode_of_name(opcode_name(op)) == Some(0x86u8));
    } else if op == 0x87 {
        assert(opcode_of_name(opcode_name(op)) == Some(0x87u8));
    } else if op == 0x88 {
        assert(opcode_of_name(opcode_name(op)) == Some(0x88u8));
    } else if op == 0x89 {
        assert(opcode_of_name(opcode_name(op)) == Some(0x89u8));
    } else if op == 0x8A {
        assert(opcode_of_name(opcode_name(op)) == Some(0x8Au8));
    }
}

proof fn lemma_opcode_names_3(op: u8)
    requires
        0x8B <= op <= 0xFF,
    ensures
        opcode_name(op) != invalid_name() ==> opcode_of_name(opcode_name(op)) == Some(op),
{
    if op == 0x8B {
        assert(opcode_of_name(opcode_name(op)) == Some(0x8Bu8));
    } else if op == 0x8C {
        assert(opcode_of_name(opcode_name(op)) == Some(0x8Cu8));
    } else if op == 0x8D {
        assert(opcode_of_name(opcode_name(op)) == Some(0x8Du8));
    } else if op == 0x8E {
        assert(opcode_of_name(opcode_name(op)) == Some(0x8Eu8));
    } else if op == 0x8F {
        assert(opcode_of_name(opcode_name(op)) == Some(0x8Fu8));
    } else if op == 0x90 {
        assert(opcode_of_name(opcode_name(op)) == Some(0x90u8));
    } else if op == 0x91 {
        assert(opcode_of_name(opcode_name(op)) == Some(0x91u8));
    } else if op == 0x92 {
        assert(opcode_of_name(opcode_name(op)) == Some(0x92u8));
    } else if op == 0x93 {
        assert(opcode_of_name(opcode_name(op)) == Some(0x93u8));
    } else if op == 0x94 {
        assert(opcode_of_name(opcode_name(op)) == Some(0x94u8));
    } else if op == 0x95 {
        assert(opcode_of_name(opcode_name(op)) == Some(0x95u8));
    } else if op == 0x96 {
        assert(opcode_of_name(opcode_name(op)) == Some(0x96u8));
    } else if op == 0x97 {
        assert(opcode_of_name(opcode_name(op)) == Some(0x97u8));
    } else if op == 0x98 {
        assert(opcode_of_name(opcode_name(op)) == Some(0x98u8));
    } else if op == 0x99 {
        assert(opcode_of_name(opcode_name(op)) == Some(0x99u8));
    } else if op == 0x9A {
        assert(opcode_of_name(opcode_name(op)) == Some(0x9Au8));
    } else if op == 0x9B {
        assert(opcode_of_name(opcode_name(op)) == Some(0x9Bu8));
    } else if op == 0x9C {
        assert(opcode_of_name(opcode_name(op)) == Some(0x9Cu8));
    } else if op == 0x9D {
        assert(opcode_of_name(opcode_name(op)) == Some(0x9Du8));
    } else if op == 0x9E {
        assert(opcode_of_name(opcode_name(op)) == Some(0x9Eu8));
    } else if op == 0x9F {
        assert(opcode_of_name(opcode_name(op)) == Some(0x9Fu8));
    } else if op == 0xA0 {
        assert(opcode_of_name(opcode_name(op)) == Some(0xA0u8));
    } else if op == 0xA1 {
        assert(opcode_of_name(opcode_name(op)) == Some(0xA1u8));
    } else if op == 0xA2 {
        assert(opcode_of_name(opcode_name(op)) == Some(0xA2u8));
    } else if op == 0xA3 {
        assert(opcode_of_name(opcode_name(op)) == Some(0xA3u8));
    } else if op == 0xA4 {
        assert(opcode_of_name(opcode_name(op)) == Some(0xA4u8));
    } else if op == 0xF0 {
        assert(opcode_of_name(opcode_name(op)) == Some(0xF0u8));
    } else if op == 0xF1 {
        assert(opcode_of_name(opcode_name(op)) == Some(0xF1u8));
    } else if op == 0xF2 {
        assert(opcode_of_name(opcode_name(op)) == Some(0xF2u8));
    } else if op == 0xF3 {
        assert(opcode_of_name(opcode_name(op)) == Some(0xF3u8));
    } else if op == 0xF4 {
        assert(opcode_of_name(opcode_name(op)) == Some(0xF4u8));
    } else if op == 0xF5 {
        assert(opcode_of_name(opcode_name(op)) == Some(0xF5u8));
    } else if op == 0xFA {
        assert(opcode_of_name(opcode_name(op)) == Some(0xFAu8));
    } else if op == 0xFD {
        assert(opcode_of_name(opcode_name(op)) == Some(0xFDu8));
    } else if op == 0xFE {
        assert(opcode_of_name(opcode_name(op)) == Some(0xFEu8));
    } else if op == 0xFF {
        assert(opcode_of_name(opcode_name(op)) == Some(0xFFu8));
    }
}

/// `m` in words of 32 bytes, the last one shorter where `m` does not fill it.
pub open spec fn chunks32(m: Seq<u8>) -> Seq<Seq<u8>> {
    Seq::new(
        ((m.len() + 31) / 32) as nat,
        |i: int|
            m.subrange(
                32 * i,
                if 32 * i + 32 < m.len() {
                    32 * i + 32
                } else {
                    m.len() as int
                },
            ),
    )
}

/// `entries` with `value` stored under `key`: in the first entry of that key, or in a new one
/// at the end.
pub open spec fn entry_stored(
    entries: Seq<([u8; 32], [u8; 32])>,
    key: [u8; 32],
    value: [u8; 32],
) -> Seq<([u8; 32], [u8; 32])>
    decreases entries.len(),
{
    if entries.len() == 0 {
        seq![(key, value)]
    } else if entries[0].0 == key {
        entries.update(0, (key, value))
    } else {
        seq![entries[0]] + entry_stored(entries.drop_first(), key, value)
    }
}

proof fn lemma_entry_stored_skip(
    entries: Seq<([u8; 32], [u8; 32])>,
    key: [u8; 32],
    value: [u8; 32],
    k: int,
)
    requires
        0 <= k <= entries.len(),
        forall|j: int| 0 <= j < k ==> entries[j].0 != key,
    ensures
        entry_stored(entries, key, value) == entries.take(k) + entry_stored(
            entries.skip(k),
            key,
            value,
        ),
    decreases k,
{
    if k == 0 {
        assert(entries.skip(0) =~= entries);
        assert(entries.take(0) + entry_stored(entries, key, value) =~= entry_stored(
            entries,
            key,
            value,
        ));
    } else {
        let rest = entries.drop_first();
        assert forall|j: int| 0 <= j < k - 1 implies rest[j].0 != key by {
            assert(rest[j] == entries[j + 1]);
        }
        lemma_entry_stored_skip(rest, key, value, k - 1);
        assert(rest.skip(k - 1) =~= entries.skip(k));
        assert(seq![entries[0]] + rest.take(k - 1) =~= entries.take(k));
        assert(seq![entries[0]] + (rest.take(k - 1) + entry_stored(entries.skip(k), key, value))
            =~= entries.take(k) + entry_stored(entries.skip(k), key, value));
    }
}

/// The memory of `m` in words, as a step records it.
pub fn memory_words(m: &Vec<u8>) -> (r: Vec<Vec<u8>>)
    ensures
        r@.len() == chunks32(m@).len(),
        forall|i: int| 0 <= i < r@.len() ==> (#[trigger] r@[i])@ == chunks32(m@)[i],
{
    let mut r: Vec<Vec<u8>> = Vec::new();
    let mut i: usize = 0;
    while i < m.len()
        invariant
            i <= m@.len(),
            i % 32 == 0 || i == m@.len(),
            r@.len() == (i + 31) / 32,
            forall|j: int| 0 <= j < r@.len() ==> (#[trigger] r@[j])@ == chunks32(m@)[j],
        decreases m@.len() - i,
    {
        let end = if m.len() - i > 32 {
            i + 32
        } else {
            m.len()
        };
        let chunk = vstd::slice::slice_to_vec(vstd::slice::slice_subrange(m.as_slice(), i, end));
        r.push(chunk);
        i = end;
    }
    r
}

/// The copy of the storage entries `e`.
fn copy_entries(e: &Vec<([u8; 32], [u8; 32])>) -> (r: Vec<([u8; 32], [u8; 32])>)
    ensures
        r@ == e@,
{
    let mut r: Vec<([u8; 32], [u8; 32])> = Vec::new();
    let mut i: usize = 0;
    while i < e.len()
        invariant
            i <= e@.len(),
            r@ == e@.take(i as int),
        decreases e@.len() - i,
    {
        r.push(e[i]);
        i += 1;
        assert(r@ =~= e@.take(i as int));
    }
    assert(e@.take(e@.len() as int) =~= e@);
    r
}

/// Stores `value` under `key` in `entries`, as `entry_stored` says.
fn store_entry(entries: &mut Vec<([u8; 32], [u8; 32])>, key: [u8; 32], value: [u8; 32])
    ensures
        final(entries)@ == entry_stored(old(entries)@, key, value),
{
    let mut i: usize = 0;
    while i < entries.len()
        invariant
            entries@ == old(entries)@,
            i <= entries@.len(),
            forall|j: int| 0 <= j < i ==> entries@[j].0 != key,
        decreases entries@.len() - i,
    {
        if keys_equal(&entries[i].0, &key) {
            proof {
                lemma_entry_stored_skip(entries@, key, value, i as int);
                assert(entries@.take(i as int) + entry_stored(
                    entries@.skip(i as int),
                    key,
                    value,
                ) =~= entries@.update(i as int, (key, value)));
            }
            entries.set(i, (key, value));
            return;
        }
        i += 1;
    }
    proof {
        lemma_entry_stored_skip(entries@, key, value, i as int);
        assert(entries@.take(i as int) + entry_stored(entries@.skip(i as int), key, value)
            =~= entries@.push((key, value)));
    }
    entries.push((key, value));
}

/// `log` is the record that a step begins with: the step of `opcode` at `pc` and `depth`, no
/// gas yet, the stack unless it is left out, the memory in words where it is recorded and not
/// empty, and the storage that the record before it ends with unless storage is left out.
pub open spec fn begun(
    log: StructLog,
    config: TraceConfig,
    before: Seq<StructLog>,
    opcode: u8,
    pc: usize,
    stack: Seq<[u8; 32]>,
    memory: Seq<u8>,
    depth: usize,
) -> bool {
    &&& log.pc == pc
    &&& log.op@ == opcode_name(opcode)
    &&& log.gas is None
    &&& log.gas_cost == 0
    &&& log.depth == depth
    &&& log.return_data is None
    &&& log.error is None
    &&& if config.disable_stack {
        log.stack is None
    } else {
        log.stack matches Some(s) && s@ == stack
    }
    &&& if !config.enable_memory || memory.len() == 0 {
        log.memory is None
    } else {
        log.memory matches Some(words) && words@.len() == chunks32(memory).len() && forall|i: int|
            0 <= i < words@.len() ==> (#[trigger] words@[i])@ == chunks32(memory)[i]
    }
    &&& if config.disable_storage || before.len() == 0 || before.last().storage is None {
        log.storage is None
    } else {
        log.storage matches Some(e) && e@ == before.last().storage->Some_0@
    }
}

/// `log` is `last` ended: with the gas used, the storage slot read during the step stored in
/// it where storage is recorded, and what the step returned where that is recorded.
pub open spec fn ended(
    last: StructLog,
    log: StructLog,
    config: TraceConfig,
    access: Option<([u8; 32], [u8; 32])>,
    gas_used: u64,
    return_data: Option<Vec<u8>>,
) -> bool {
    &&& log.pc == last.pc
    &&& log.op == last.op
    &&& log.gas == Some(gas_used)
    &&& log.gas_cost == last.gas_cost
    &&& log.depth == last.depth
    &&& log.memory == last.memory
    &&& log.stack == last.stack
    &&& log.error == last.error
    &&& if config.enable_return_data {
        log.return_data == return_data
    } else {
        log.return_data == last.return_data
    }
    &&& if !config.disable_storage && access is Some {
        let (k, v) = access->Some_0;
        let before = match last.storage {
            Some(e) => e@,
            None => Seq::empty(),
        };
        log.storage matches Some(e) && e@ == entry_stored(before, k, v)
    } else {
        log.storage == last.storage
    }
}

impl StructLogger {
    /// A tracer with nothing recorded yet, at depth 0.
    pub fn new(config: &TraceConfig) -> (r: Self)
        ensures
            r.config == *config,
            r.logs@.len() == 0,
            r.depth == 0,
            r.storage_access is None,
    {
        StructLogger { config: *config, logs: Vec::new(), depth: 0, storage_access: None }
    }

    /// Takes in an event of the machine: entering and leaving a frame moves the depth, a
    /// step begins a record and its end completes it, and a storage read is kept for the
    /// record of its step.
    pub fn event(&mut self, event: Event)
        requires
            event is BeginVM ==> old(self).depth < usize::MAX,
            event is EndVM ==> old(self).depth > 0,
            event is EndStep ==> old(self).logs@.len() > 0,
        ensures
            final(self).config == old(self).config,
            match event {
                Event::BeginVM { .. } => {
                    &&& final(self).depth == old(self).depth + 1
                    &&& final(self).logs@ == old(self).logs@
                    &&& final(self).storage_access == old(self).storage_access
                },
                Event::EndVM { .. } => {
                    &&& final(self).depth == old(self).depth - 1
                    &&& final(self).logs@ == old(self).logs@
                    &&& final(self).storage_access == old(self).storage_access
                },
                Event::BeginStep { opcode, pc, stack, memory } => {
                    &&& final(self).depth == old(self).depth
                    &&& final(self).storage_access == old(self).storage_access
                    &&& final(self).logs@.len() == old(self).logs@.len() + 1
                    &&& final(self).logs@.drop_last() == old(self).logs@
                    &&& begun(
                        final(self).logs@.last(),
                        old(self).config,
                        old(self).logs@,
                        opcode,
                        pc,
                        stack@,
                        memory@,
                        old(self).depth,
                    )
                },
                Event::EndStep { gas_used, return_data } => {
                    &&& final(self).depth == old(self).depth
                    &&& final(self).logs@.len() == old(self).logs@.len()
                    &&& final(self).logs@.drop_last() == old(self).logs@.drop_last()
                    &&& ended(
                        old(self).logs@.last(),
                        final(self).logs@.last(),
                        old(self).config,
                        old(self).storage_access,
                        gas_used,
                        return_data,
                    )
                    &&& final(self).storage_access == if old(self).config.disable_storage {
                        old(self).storage_access
                    } else {
                        None
                    }
                },
                Event::StorageAccess { index, value } => {
                    &&& final(self).depth == old(self).depth
                    &&& final(self).logs@ == old(self).logs@
                    &&& if old(self).config.disable_storage {
                        final(self).storage_access == old(self).storage_access
                    } else {
                        final(self).storage_access matches Some((k, v)) && k@ == u256_bytes(index)
                            && v == value
                    }
                },
                _ => {
                    &&& final(self).depth == old(self).depth
                    &&& final(self).logs@ == old(self).logs@
                    &&& final(self).storage_access == old(self).storage_access
                },
            },
    {
        match event {
            Event::BeginVM { .. } => {
                self.depth += 1;
            },
            Event::EndVM { .. } => {
                self.depth -= 1;
            },
            Event::BeginStep { opcode, pc, stack, memory } => {
                let stack = if self.config.disable_stack {
                    None
                } else {
                    Some(stack)
                };
                let memory = if !self.config.enable_memory || memory.len() == 0 {
                    None
                } else {
                    Some(memory_words(&memory))
                };
                let n = self.logs.len();
                let storage = if self.config.disable_storage || n == 0 {
                    None
                } else {
                    match &self.logs[n - 1].storage {
                        Some(e) => Some(copy_entries(e)),
                        None => None,
                    }
                };
                let log = StructLog {
                    pc: pc as u64,
                    op: opcode_name_of(opcode),
                    gas: None,
                    gas_cost: 0,
                    depth: self.depth,
                    memory,
                    stack,
                    return_data: None,
                    storage,
                    error: None,
                };
                self.logs.push(log);
            },
            Event::EndStep { gas_used, return_data } => {
                let ghost before = self.logs@;
                let mut last = self.logs.pop().unwrap();
                last.gas = Some(gas_used);
                if !self.config.disable_storage {
                    let access = self.storage_access.take();
                    match access {
                        Some((index, value)) => {
                            let mut entries = match last.storage.take() {
                                Some(e) => e,
                                None => Vec::new(),
                            };
                            store_entry(&mut entries, index, value);
                            last.storage = Some(entries);
                        },
                        None => {},
                    }
                }
                if self.config.enable_return_data {
                    last.return_data = return_data;
                }
                self.logs.push(last);
                proof {
                    assert(self.logs@.drop_last() =~= before.drop_last());
                }
            },
            Event::StorageAccess { index, value } => {
                if !self.config.disable_storage {
                    self.storage_access = Some((u256_to_be_bytes(index), value));
                }
            },
            _ => {},
        }
    }
}

} // verus!
