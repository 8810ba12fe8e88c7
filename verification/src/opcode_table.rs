//! The instruction bytes that the library acts on.

use vstd::prelude::*;

verus! {

pub const STOP: u8 = 0x00;
pub const ADD: u8 = 0x01;
pub const ADDRESS: u8 = 0x30;
pub const ORIGIN: u8 = 0x32;
pub const CALLER: u8 = 0x33;
pub const CODECOPY: u8 = 0x39;
pub const POP: u8 = 0x50;
pub const JUMPDEST: u8 = 0x5B;
/// Relative jump (EIP-4200).
pub const RJUMP: u8 = 0x5C;
/// Conditional relative jump (EIP-4200).
pub const RJUMPI: u8 = 0x5D;
/// Relative jump through a table (EIP-4200).
pub const RJUMPV: u8 = 0x5E;
pub const PUSH0: u8 = 0x5F;
pub const PUSH1: u8 = 0x60;
pub const PUSH32: u8 = 0x7F;
/// Call of a code section (EIP-4750).
pub const CALLF: u8 = 0xB0;
/// Return from a code section (EIP-4750).
pub const RETF: u8 = 0xB1;
pub const RETURN: u8 = 0xF3;
pub const INVALID: u8 = 0xFE;

} // verus!
