//! Validation of the code sections of an EOF container (EIP-3670, EIP-4200, EIP-4750).

use vstd::prelude::*;

use crate::analysis::{bits_are, bit_of, data_positions, rjumpv_counts_fit, Bitvec};
use crate::buffer::{be_i16, be_u16, byte_or_zero, Buffer};
use crate::eof::{Container, FunctionMetadata};
use crate::error::Error;
use crate::opcode_table::{
    CALLF, INVALID, PUSH0, PUSH1, PUSH32, RETF, RETURN, RJUMP, RJUMPI, RJUMPV, STOP,
};

verus! {

/// The return stack holds at most 1024 items (EIP-4750), and so does the operand stack.
pub const STACK_LIMIT: usize = 1024;

pub const REVERT: u8 = 0xFD;

pub const CALLCODE: u8 = 0xF2;

pub const SELFDESTRUCT: u8 = 0xFF;

pub const JUMP: u8 = 0x56;

pub const JUMPI: u8 = 0x57;

pub const PC: u8 = 0x58;

/// What validation knows of an instruction: the least stack height it needs, the greatest it
/// accepts, and whether it ends the code.
#[derive(Debug, Clone, Copy, PartialEq, Eq, Structural)]
pub struct OpcodeInfo {
    pub min_stack: usize,
    pub max_stack: usize,
    pub terminal: bool,
}

/// How many words an instruction that EOF code may hold takes off the stack and puts on it;
/// none for the others.
pub open spec fn stack_io(op: u8) -> Option<(u8, u8)> {
    if op == 0x00 || op == 0x5b || op == 0x5c || op == 0xb0 || op == 0xb1 || op == 0xfe {
        Some((0, 0))
    } else if (0x01 <= op <= 0x07) || op == 0x0a || op == 0x0b || (0x10 <= op <= 0x14) || (0x16
        <= op <= 0x18) || (0x1a <= op <= 0x1d) || op == 0x20 {
        Some((2, 1))
    } else if op == 0x08 || op == 0x09 || op == 0xf0 {
        Some((3, 1))
    } else if op == 0x15 || op == 0x19 || op == 0x31 || op == 0x35 || op == 0x3b || op == 0x3f
        || op == 0x40 || op == 0x51 || op == 0x54 {
        Some((1, 1))
    } else if op == 0x30 || (0x32 <= op <= 0x34) || op == 0x36 || op == 0x38 || op == 0x3a || op
        == 0x3d || (0x41 <= op <= 0x48) || op == 0x59 || op == 0x5a || (0x5f <= op <= 0x7f) {
        Some((0, 1))
    } else if op == 0x37 || op == 0x39 || op == 0x3e {
        Some((3, 0))
    } else if op == 0x3c {
        Some((4, 0))
    } else if op == 0x50 || op == 0x5d || op == 0x5e {
        Some((1, 0))
    } else if op == 0x52 || op == 0x53 || op == 0x55 || op == 0xf3 || op == 0xfd {
        Some((2, 0))
    } else if 0x80 <= op <= 0x8f {
        Some(((op - 0x7f) as u8, (op - 0x7e) as u8))
    } else if 0x90 <= op <= 0x9f {
        Some(((op - 0x8e) as u8, (op - 0x8e) as u8))
    } else if 0xa0 <= op <= 0xa4 {
        Some(((op - 0x9e) as u8, 0))
    } else if op == 0xf1 {
        Some((7, 1))
    } else if op == 0xf4 || op == 0xfa {
        Some((6, 1))
    } else if op == 0xf5 {
        Some((4, 1))
    } else {
        None
    }
}

/// The instructions that end the code: a halt, a return from the section, or a jump.
pub open spec fn is_terminal(op: u8) -> bool {
    op == STOP || op == RJUMP || op == RETF || op == RETURN || op == REVERT || op == INVALID
}

/// The instructions that EOF code may no longer hold.
pub open spec fn is_deprecated(op: u8) -> bool {
    op == CALLCODE || op == SELFDESTRUCT || op == JUMP || op == JUMPI || op == PC
}

/// What validation knows of `op`, where EOF code may hold it.
pub open spec fn spec_opcode_info(op: u8) -> Option<OpcodeInfo> {
    match stack_io(op) {
        None => None,
        Some((i, o)) => Some(
            OpcodeInfo {
                min_stack: i as usize,
                max_stack: (STACK_LIMIT + i - o) as usize,
                terminal: is_terminal(op),
            },
        ),
    }
}

/// What validation knows of an instruction that takes `inputs` words off the stack and puts
/// `outputs` on it: it needs `inputs` words, and accepts a height up to where its outputs
/// still fit under the limit.
pub open spec fn takes_gives(inputs: int, outputs: int, terminal: bool) -> Option<OpcodeInfo> {
    Some(
        OpcodeInfo {
            min_stack: inputs as usize,
            max_stack: (STACK_LIMIT + inputs - outputs) as usize,
            terminal,
        },
    )
}

/// The stack effects of the instructions, as the EVM defines them: `LOGn` takes the offset,
/// the length and its `n` topics; `DUPn` takes `n` words and gives them back with a copy of
/// the deepest; `SWAPn` takes and gives back `n + 1`; `PUSHn` gives one; the arithmetic,
/// comparison and bitwise operations take their operands and give one result; the halts and
/// returns end the code; and the instructions that EOF code may not hold have no entry.
pub proof fn lemma_opcode_stack_effects(op: u8)
    ensures
        0xa0 <= op <= 0xa4 ==> spec_opcode_info(op) == takes_gives(2 + (op - 0xa0), 0, false),
        0x80 <= op <= 0x8f ==> spec_opcode_info(op) == takes_gives(
            op - 0x7f,
            op - 0x7f + 1,
            false,
        ),
        0x90 <= op <= 0x9f ==> spec_opcode_info(op) == takes_gives(
            op - 0x8f + 1,
            op - 0x8f + 1,
            false,
        ),
        0x5f <= op <= 0x7f ==> spec_opcode_info(op) == takes_gives(0, 1, false),
        op == 0x01 || op == 0x02 || op == 0x03 || op == 0x04 || op == 0x05 || op == 0x06 || op
            == 0x07 || op == 0x0a || op == 0x0b || op == 0x10 || op == 0x11 || op == 0x12 || op
            == 0x13 || op == 0x14 || op == 0x16 || op == 0x17 || op == 0x18 || op == 0x1a || op
            == 0x1b || op == 0x1c || op == 0x1d || op == 0x20 ==> spec_opcode_info(op)
            == takes_gives(2, 1, false),
        op == 0x08 || op == 0x09 ==> spec_opcode_info(op) == takes_gives(3, 1, false),
        op == 0x15 || op == 0x19 ==> spec_opcode_info(op) == takes_gives(1, 1, false),
        op == 0x31 || op == 0x35 || op == 0x3b || op == 0x3f || op == 0x40 || op == 0x51 || op
            == 0x54 ==> spec_opcode_info(op) == takes_gives(1, 1, false),
        op == 0x30 || op == 0x32 || op == 0x33 || op == 0x34 || op == 0x36 || op == 0x38 || op
            == 0x3a || op == 0x3d || (0x41 <= op <= 0x48) || op == 0x59 || op == 0x5a
            ==> spec_opcode_info(op) == takes_gives(0, 1, false),
        op == 0x37 || op == 0x39 || op == 0x3e ==> spec_opcode_info(op) == takes_gives(3, 0, false),
        op == 0x3c ==> spec_opcode_info(op) == takes_gives(4, 0, false),
        op == 0x50 || op == 0x5d || op == 0x5e ==> spec_opcode_info(op) == takes_gives(1, 0, false),
        op == 0x52 || op == 0x53 || op == 0x55 ==> spec_opcode_info(op) == takes_gives(2, 0, false),
        op == 0x5b || op == 0xb0 ==> spec_opcode_info(op) == takes_gives(0, 0, false),
        op == 0xf0 ==> spec_opcode_info(op) == takes_gives(3, 1, false),
        op == 0xf5 ==> spec_opcode_info(op) == takes_gives(4, 1, false),
        op == 0xf1 ==> spec_opcode_info(op) == takes_gives(7, 1, false),
        op == 0xf4 || op == 0xfa ==> spec_opcode_info(op) == takes_gives(6, 1, false),
        op == 0xf3 || op == 0xfd ==> spec_opcode_info(op) == takes_gives(2, 0, true),
        op == 0x00 || op == 0x5c || op == 0xb1 || op == 0xfe ==> spec_opcode_info(op)
            == takes_gives(0, 0, true),
        op == 0x56 || op == 0x57 || op == 0x58 || op == 0xf2 || op == 0xff ==> spec_opcode_info(op)
            is None,
        (0x0c <= op <= 0x0f) || op == 0x1e || op == 0x1f || (0x21 <= op <= 0x2f) || (0x49 <= op
            <= 0x4f) || (0xa5 <= op <= 0xaf) || (0xb2 <= op <= 0xef) || (0xf6 <= op <= 0xf9) || op
            == 0xfb || op == 0xfc ==> spec_opcode_info(op) is None,
{
}

/// What validation knows of `op`, where EOF code may hold it.
pub fn opcode_info(op: u8) -> (r: Option<OpcodeInfo>)
    ensures
        r == spec_opcode_info(op),
{
    let io: Option<(u8, u8)> = if op == 0x00 || op == 0x5b || op == 0x5c || op == 0xb0 || op
        == 0xb1 || op == 0xfe {
        Some((0, 0))
    } else if (0x01 <= op && op <= 0x07) || op == 0x0a || op == 0x0b || (0x10 <= op && op
        <= 0x14) || (0x16 <= op && op <= 0x18) || (0x1a <= op && op <= 0x1d) || op == 0x20 {
        Some((2, 1))
    } else if op == 0x08 || op == 0x09 || op == 0xf0 {
        Some((3, 1))
    } else if op == 0x15 || op == 0x19 || op == 0x31 || op == 0x35 || op == 0x3b || op == 0x3f
        || op == 0x40 || op == 0x51 || op == 0x54 {
        Some((1, 1))
    } else if op == 0x30 || (0x32 <= op && op <= 0x34) || op == 0x36 || op == 0x38 || op == 0x3a
        || op == 0x3d || (0x41 <= op && op <= 0x48) || op == 0x59 || op == 0x5a || (0x5f <= op
        && op <= 0x7f) {
        Some((0, 1))
    } else if op == 0x37 || op == 0x39 || op == 0x3e {
        Some((3, 0))
    } else if op == 0x3c {
        Some((4, 0))
    } else if op == 0x50 || op == 0x5d || op == 0x5e {
        Some((1, 0))
    } else if op == 0x52 || op == 0x53 || op == 0x55 || op == 0xf3 || op == 0xfd {
        Some((2, 0))
    } else if 0x80 <= op && op <= 0x8f {
        Some((op - 0x7f, op - 0x7e))
    } else if 0x90 <= op && op <= 0x9f {
        Some((op - 0x8e, op - 0x8e))
    } else if 0xa0 <= op && op <= 0xa4 {
        Some((op - 0x9e, 0))
    } else if op == 0xf1 {
        Some((7, 1))
    } else if op == 0xf4 || op == 0xfa {
        Some((6, 1))
    } else if op == 0xf5 {
        Some((4, 1))
    } else {
        None
    };
    match io {
        None => None,
        Some((i, o)) => Some(
            OpcodeInfo {
                min_stack: i as usize,
                max_stack: STACK_LIMIT + i as usize - o as usize,
                terminal: op == STOP || op == RJUMP || op == RETF || op == RETURN || op == REVERT
                    || op == INVALID,
            },
        ),
    }
}

/// `d` as a `usize`, wrapping around below zero.
pub open spec fn wrapped(d: int) -> usize {
    if d < 0 {
        (usize::MAX + 1 + d) as usize
    } else {
        d as usize
    }
}

/// The check of the relative jump whose 16-bit offset is at `imm` of `c`, counted from
/// `from`: it must land on an instruction of the code.
pub open spec fn dest_check(c: Seq<u8>, imm: int, from: int) -> Result<(), Error> {
    if c.len() < imm + 2 {
        Err(Error::UnexpectedEndOfFile)
    } else {
        let offset = be_i16(c, imm);
        let dest = from + offset;
        if dest < 0 || dest >= c.len() || data_positions(c, 0).contains(dest) {
            Err(Error::ValidationInvalidJumpDest(offset as i16, wrapped(dest), imm as usize))
        } else {
            Ok(())
        }
    }
}

/// The checks of the `count` entries of the jump table of the `RJUMPV` at `i`, from entry
/// `j` on: the first that fails.
pub open spec fn table_check(c: Seq<u8>, i: int, count: int, j: int) -> Result<(), Error>
    decreases count - j,
{
    if j >= count {
        Ok(())
    } else {
        match dest_check(c, i + 2 + j * 2, i + 2 * count + 2) {
            Err(e) => Err(e),
            Ok(_) => table_check(c, i, count, j + 1),
        }
    }
}

/// The instruction-by-instruction scan of `c` from `i` on, for a container of `sections`
/// code sections, having counted `count` and met `last` last: every instruction allowed,
/// every operand within the code, every relative jump onto an instruction, every called
/// section there. It gives the count, the last instruction and where the scan ended. A jump
/// table sets the count to its number of entries.
pub open spec fn scan(c: Seq<u8>, sections: nat, i: int, count: int, last: u8) -> Result<
    (int, u8, int),
    Error,
>
    decreases c.len() + 1024 - i,
{
    if i < 0 || i >= c.len() {
        Ok((count, last, i))
    } else {
        let op = c[i];
        if stack_io(op) is None && is_deprecated(op) {
            Err(Error::ValidationUndefinedInstruction(op, i as usize))
        } else if PUSH0 < op <= PUSH32 {
            if c.len() <= i + (op - PUSH0) {
                Err(Error::ValidationTruncatedImmediate(op, i as usize))
            } else {
                scan(c, sections, i + (op - PUSH0) + 1, count + 1, op)
            }
        } else if op == RJUMP || op == RJUMPI {
            if c.len() <= i + 2 {
                Err(Error::ValidationTruncatedImmediate(op, i as usize))
            } else {
                match dest_check(c, i + 1, i + 3) {
                    Err(e) => Err(e),
                    Ok(_) => scan(c, sections, i + 3, count + 1, op),
                }
            }
        } else if op == RJUMPV {
            if c.len() <= i + 1 {
                Err(Error::ValidationTruncatedImmediate(op, i as usize))
            } else {
                let n = c[i + 1] as int;
                if n == 0 {
                    Err(Error::ValidationInvalidBranchCount(i as usize))
                } else if c.len() <= i + n {
                    Err(Error::ValidationTruncatedImmediate(op, i as usize))
                } else {
                    match table_check(c, i, n, 0) {
                        Err(e) => Err(e),
                        Ok(_) => scan(c, sections, i + 2 * n + 2, n, op),
                    }
                }
            }
        } else if op == CALLF {
            if i + 2 >= c.len() {
                Err(Error::ValidationTruncatedImmediate(op, i as usize))
            } else if be_u16(c, i + 1) >= sections {
                Err(
                    Error::ValidationInvalidSectionArgument(
                        be_u16(c, i + 1),
                        sections as usize,
                        i as usize,
                    ),
                )
            } else {
                scan(c, sections, i + 3, count + 1, op)
            }
        } else {
            scan(c, sections, i + 1, count + 1, op)
        }
    }
}

/// `analysis`, where there is one, marks the data positions of `c`.
pub open spec fn analysis_of(c: Seq<u8>, analysis: Option<Bitvec>) -> bool {
    analysis matches Some(b) ==> b@.len() == c.len() / 8 + 5 && bits_are(b@, data_positions(c, 0))
}

/// The instructions after which the code goes nowhere: halts and returns from the section.
pub open spec fn halts(op: u8) -> bool {
    op == STOP || op == RETF || op == RETURN || op == REVERT || op == INVALID
}

/// The stack height after the instruction at `pos` of `c` runs at height `h`, in a
/// container with the signatures `meta`.
pub open spec fn height_after(c: Seq<u8>, meta: Seq<FunctionMetadata>, pos: int, h: int) -> int {
    let op = c[pos];
    let io = stack_io(op).unwrap();
    let h1 = h - io.0 + io.1;
    if op == CALLF {
        let m = meta[be_u16(c, pos + 1) as int];
        h1 - m.input + m.output
    } else {
        h1
    }
}

/// The instruction at `pos` of `c` can run at height `h` in the section with signature
/// `cur`: EOF code may hold it, the stack holds what it takes and has room for what it
/// gives, a called section is there and fits, and a return leaves the declared outputs.
pub open spec fn step_ok(
    c: Seq<u8>,
    meta: Seq<FunctionMetadata>,
    cur: FunctionMetadata,
    pos: int,
    h: int,
) -> bool {
    let op = c[pos];
    &&& stack_io(op) is Some
    &&& stack_io(op).unwrap().0 <= h
    &&& h <= STACK_LIMIT + stack_io(op).unwrap().0 - stack_io(op).unwrap().1
    &&& op == CALLF ==> {
        let arg = be_u16(c, pos + 1) as int;
        &&& arg < meta.len()
        &&& meta[arg].input <= h
        &&& meta[arg].output + h <= STACK_LIMIT
    }
    &&& op == RETF ==> cur.output == h
}

/// Where the code may go after the instruction at `pos` of `c`.
pub open spec fn flow_targets(c: Seq<u8>, pos: int) -> Seq<int> {
    let op = c[pos];
    if op == CALLF {
        seq![pos + 3]
    } else if op == RJUMP {
        seq![pos + 3 + be_i16(c, pos + 1)]
    } else if op == RJUMPI {
        seq![pos + 3 + be_i16(c, pos + 1), pos + 3]
    } else if op == RJUMPV {
        let n = byte_or_zero(c, pos + 1) as int;
        Seq::new(n as nat, |k: int| pos + 2 + 2 * n + be_i16(c, pos + 2 + 2 * k)).push(
            pos + 2 + 2 * n,
        )
    } else if PUSH1 <= op <= PUSH32 {
        seq![pos + 1 + (op - PUSH0)]
    } else if halts(op) {
        Seq::empty()
    } else {
        seq![pos + 1]
    }
}

/// The instruction at `q` has been given a stack height in `hs`.
pub open spec fn visited(hs: Seq<isize>, q: int) -> bool {
    0 <= q < hs.len() && hs[q] >= 0
}

/// Going to `t` at height `h` is consistent with `hs`: `t` is off the code, or has height `h`.
pub open spec fn lands(hs: Seq<isize>, t: int, h: int) -> bool {
    t < 0 || t >= hs.len() || hs[t] == h
}

/// A stack height for every instruction reached, consistent along every path of the section
/// `section` of `c`: the section starts at its declared inputs, every reached instruction can
/// run at its height and leads to instructions at the height it leaves, and the greatest
/// height reached is the declared one.
pub open spec fn flow_sound(
    c: Seq<u8>,
    meta: Seq<FunctionMetadata>,
    section: int,
    hs: Seq<isize>,
) -> bool {
    let cur = meta[section];
    &&& hs.len() == c.len()
    &&& c.len() > 0 ==> hs[0] == cur.input
    &&& forall|q: int| #[trigger]
        visited(hs, q) ==> step_ok(c, meta, cur, q, hs[q] as int) && forall|k: int|
            0 <= k < flow_targets(c, q).len() ==> lands(
                hs,
                flow_targets(c, q)[k],
                height_after(c, meta, q, hs[q] as int),
            )
    &&& cur.input <= cur.max_stack_height
    &&& forall|q: int| #[trigger]
        visited(hs, q) && !halts(c[q]) ==> height_after(c, meta, q, hs[q] as int)
            <= cur.max_stack_height
    &&& cur.input == cur.max_stack_height || exists|q: int| #[trigger]
        visited(hs, q) && !halts(c[q]) && height_after(c, meta, q, hs[q] as int)
            == cur.max_stack_height
}

/// The number of instructions that `hs` gives a height.
pub open spec fn visited_count(hs: Seq<isize>) -> nat
    decreases hs.len(),
{
    if hs.len() == 0 {
        0
    } else {
        visited_count(hs.drop_last()) + if hs.last() >= 0 {
            1nat
        } else {
            0nat
        }
    }
}

proof fn lemma_visited_count_bound(hs: Seq<isize>)
    ensures
        visited_count(hs) <= hs.len(),
    decreases hs.len(),
{
    if hs.len() > 0 {
        lemma_visited_count_bound(hs.drop_last());
    }
}

proof fn lemma_visited_count_none(hs: Seq<isize>)
    requires
        forall|i: int| 0 <= i < hs.len() ==> hs[i] < 0,
    ensures
        visited_count(hs) == 0,
    decreases hs.len(),
{
    if hs.len() > 0 {
        lemma_visited_count_none(hs.drop_last());
    }
}

proof fn lemma_visited_count_mark(hs: Seq<isize>, p: int, h: isize)
    requires
        0 <= p < hs.len(),
        hs[p] < 0,
        h >= 0,
    ensures
        visited_count(hs.update(p, h)) == visited_count(hs) + 1,
    decreases hs.len(),
{
    let u = hs.update(p, h);
    if p == hs.len() - 1 {
        assert(u.drop_last() =~= hs.drop_last());
    } else {
        assert(u.drop_last() =~= hs.drop_last().update(p, h));
        lemma_visited_count_mark(hs.drop_last(), p, h);
    }
}

/// An instruction that can run at a height leaves a height within the stack.
proof fn lemma_height_after_bounds(
    c: Seq<u8>,
    meta: Seq<FunctionMetadata>,
    cur: FunctionMetadata,
    pos: int,
    h: int,
)
    requires
        0 <= pos < c.len(),
        h >= 0,
        step_ok(c, meta, cur, pos, h),
    ensures
        0 <= height_after(c, meta, pos, h) <= STACK_LIMIT,
{
}

/// A place and height still to visit.
pub struct FlowItem {
    pub pos: usize,
    pub height: usize,
}

/// The places that the jump table of the `RJUMPV` at `pos` adds to the work list, from entry
/// `k` on, each at height `h`; those before the code are left out.
pub open spec fn table_items(c: Seq<u8>, pos: int, n: int, h: int, k: int) -> Seq<FlowItem>
    decreases n - k,
{
    if k >= n {
        Seq::empty()
    } else {
        let t = pos + 2 + 2 * n + be_i16(c, pos + 2 + 2 * k);
        let rest = table_items(c, pos, n, h, k + 1);
        if t >= 0 {
            seq![FlowItem { pos: t as usize, height: h as usize }] + rest
        } else {
            rest
        }
    }
}

/// The error that the instruction at `pos` of `c` meets at stack height `h`, in the section
/// with signature `cur`, if it meets one: an instruction that EOF code may not hold, too few
/// words on the stack or too little room, a called section that is missing or does not fit,
/// or a return with the wrong outputs.
pub open spec fn step_error(
    c: Seq<u8>,
    meta: Seq<FunctionMetadata>,
    cur: FunctionMetadata,
    pos: int,
    h: int,
) -> Option<Error> {
    let op = c[pos];
    match stack_io(op) {
        None => Some(Error::ValidationUndefinedInstruction(op, pos as usize)),
        Some((i, o)) => if i > h {
            Some(Error::StackUnderflow)
        } else if STACK_LIMIT + i - o < h {
            Some(Error::StackOverflow)
        } else {
            let h1 = h - i + o;
            if op == CALLF {
                let arg = be_u16(c, pos + 1) as int;
                if arg >= meta.len() {
                    Some(Error::FunctionMetadataNotFound(arg as usize))
                } else if meta[arg].input > h1 {
                    Some(Error::StackUnderflow)
                } else if meta[arg].output + h1 > STACK_LIMIT {
                    Some(Error::StackOverflow)
                } else {
                    None
                }
            } else if op == RETF && cur.output != h1 {
                Some(Error::ValidationInvalidOutputs(cur.output, h1 as usize, pos as usize))
            } else {
                None
            }
        },
    }
}

/// Where the walk goes on after the instruction at `pos` of `c`: past its operands, or to
/// the target of a relative jump, or past the code where that target lies before it.
pub open spec fn next_pos(c: Seq<u8>, pos: int) -> int {
    let op = c[pos];
    if op == CALLF {
        pos + 3
    } else if op == RJUMP {
        let t = pos + 3 + be_i16(c, pos + 1);
        if t < 0 {
            c.len() as int
        } else {
            t
        }
    } else if op == RJUMPI {
        pos + 3
    } else if op == RJUMPV {
        pos + 2 + 2 * byte_or_zero(c, pos + 1)
    } else if PUSH1 <= op <= PUSH32 {
        pos + 1 + (op - PUSH0)
    } else {
        pos + 1
    }
}

/// The places, each at height `h`, that the instruction at `pos` of `c` adds to the work
/// list: the target of a conditional jump, and those of a jump table.
pub open spec fn next_items(c: Seq<u8>, pos: int, h: int) -> Seq<FlowItem> {
    let op = c[pos];
    if op == RJUMPI {
        let t = pos + 3 + be_i16(c, pos + 1);
        if t >= 0 {
            seq![FlowItem { pos: t as usize, height: h as usize }]
        } else {
            Seq::empty()
        }
    } else if op == RJUMPV {
        table_items(c, pos, byte_or_zero(c, pos + 1) as int, h, 0)
    } else {
        Seq::empty()
    }
}

/// The walk of the section with signature `cur` through `c` standing at `pos` with stack
/// height `height`, the heights given so far `hs`, the work list `wl`, `upd` instructions
/// reached and the greatest height `mx`: it gives the final count and greatest height, or
/// the first error met. Each step spends one unit of `fuel`.
pub open spec fn walk_inner(
    c: Seq<u8>,
    meta: Seq<FunctionMetadata>,
    cur: FunctionMetadata,
    hs: Seq<isize>,
    wl: Seq<FlowItem>,
    upd: int,
    mx: int,
    pos: int,
    height: int,
    fuel: nat,
) -> Result<(int, int), Error>
    decreases fuel, 1int,
{
    if fuel == 0 {
        Err(Error::ValidationUnreachableCode)
    } else if pos < 0 || pos >= c.len() {
        walk_outer(c, meta, cur, hs, wl, upd, mx, (fuel - 1) as nat)
    } else if hs[pos] != -1 {
        if hs[pos] != height {
            Err(Error::ValidationConflictingStack(height as usize, hs[pos] as usize))
        } else {
            walk_outer(c, meta, cur, hs, wl, upd, mx, (fuel - 1) as nat)
        }
    } else {
        let hs1 = hs.update(pos, height as isize);
        let f = (fuel - 1) as nat;
        match step_error(c, meta, cur, pos, height) {
            Some(e) => Err(e),
            None => {
                let h2 = height_after(c, meta, pos, height);
                if halts(c[pos]) {
                    walk_outer(c, meta, cur, hs1, wl, upd + 1, mx, f)
                } else {
                    walk_inner(
                        c,
                        meta,
                        cur,
                        hs1,
                        wl + next_items(c, pos, h2),
                        upd + 1,
                        if h2 > mx {
                            h2
                        } else {
                            mx
                        },
                        next_pos(c, pos),
                        h2,
                        f,
                    )
                }
            },
        }
    }
}

/// The walk between paths: it ends where the work list is empty, and else goes on from the
/// place last added to it.
pub open spec fn walk_outer(
    c: Seq<u8>,
    meta: Seq<FunctionMetadata>,
    cur: FunctionMetadata,
    hs: Seq<isize>,
    wl: Seq<FlowItem>,
    upd: int,
    mx: int,
    fuel: nat,
) -> Result<(int, int), Error>
    decreases fuel, 0int,
{
    if fuel == 0 {
        Err(Error::ValidationUnreachableCode)
    } else if wl.len() == 0 {
        Ok((upd, mx))
    } else {
        walk_inner(
            c,
            meta,
            cur,
            hs,
            wl.drop_last(),
            upd,
            mx,
            wl.last().pos as int,
            wl.last().height as int,
            (fuel - 1) as nat,
        )
    }
}

/// What walking every path of the section `section` of `c` gives, per EOF v1: the number of
/// instructions reached, or the first error met, the greatest stack height reached being
/// checked against the declared one at the end.
pub open spec fn control_flow(c: Seq<u8>, meta: Seq<FunctionMetadata>, section: int) -> Result<
    usize,
    Error,
> {
    if section < 0 || section >= meta.len() {
        Err(Error::FunctionMetadataNotFound(section as usize))
    } else {
        let cur = meta[section];
        let start = seq![FlowItem { pos: 0, height: cur.input as usize }];
        let fuel = (2 * (257 * c.len() + 1) + 1) as nat;
        flow_result(
            section,
            cur,
            walk_outer(c, meta, cur, Seq::new(c.len(), |i: int| -1isize), start, 0, cur.input as int, fuel),
        )
    }
}

/// What a finished walk of the section `section` with signature `cur` gives: the count of
/// instructions reached, where the greatest height reached is the declared one.
pub open spec fn flow_result(section: int, cur: FunctionMetadata, walk: Result<(int, int), Error>) -> Result<
    usize,
    Error,
> {
    match walk {
        Err(e) => Err(e),
        Ok((upd, mx)) => if mx != cur.max_stack_height {
            Err(
                Error::ValidationInvalidMaxStackHeight(
                    section as usize,
                    mx as usize,
                    cur.max_stack_height,
                ),
            )
        } else {
            Ok(upd as usize)
        },
    }
}

/// What validating the code section `section` of `c` gives, per EOF v1: the first error of
/// the scan, of the last instruction, or of the walk through its paths; or that the walk did
/// not reach every instruction the scan counted.
pub open spec fn validation(c: Seq<u8>, meta: Seq<FunctionMetadata>, section: int) -> Result<
    (),
    Error,
> {
    match scan(c, meta.len(), 0, 0, 0) {
        Err(e) => Err(e),
        Ok((count, last, end)) => if !is_terminal(last) {
            Err(Error::ValidationInvalidCodeTermination(last, end as usize))
        } else {
            match control_flow(c, meta, section) {
                Err(e) => Err(e),
                Ok(n) => if n != count {
                    Err(Error::ValidationUnreachableCode)
                } else {
                    Ok(())
                },
            }
        },
    }
}

/// `t` at height `h` is still to visit: it is where the walk stands, or on the work list.
spec fn pending(wl: Seq<FlowItem>, at: Option<(int, int)>, t: int, h: int) -> bool {
    ||| at == Some((t, h))
    ||| exists|j: int| 0 <= j < wl.len() && #[trigger] wl[j].pos == t && wl[j].height == h
}

/// Every target of the instruction at `q` is consistent with `hs` or still to visit.
spec fn covered(
    c: Seq<u8>,
    meta: Seq<FunctionMetadata>,
    hs: Seq<isize>,
    wl: Seq<FlowItem>,
    at: Option<(int, int)>,
    q: int,
) -> bool {
    forall|k: int|
        0 <= k < flow_targets(c, q).len() ==> lands(
            hs,
            flow_targets(c, q)[k],
            height_after(c, meta, q, hs[q] as int),
        ) || pending(wl, at, flow_targets(c, q)[k], height_after(c, meta, q, hs[q] as int))
}

/// Every visited instruction can run and has its targets consistent or still to visit.
spec fn closed(
    c: Seq<u8>,
    meta: Seq<FunctionMetadata>,
    cur: FunctionMetadata,
    hs: Seq<isize>,
    wl: Seq<FlowItem>,
    at: Option<(int, int)>,
) -> bool {
    forall|q: int| #[trigger]
        visited(hs, q) ==> step_ok(c, meta, cur, q, hs[q] as int) && covered(c, meta, hs, wl, at, q)
}

/// `covered` survives a change of heights that keeps the visited ones, where everything
/// that was still to visit is consistent or still to visit.
proof fn lemma_covered_mono(
    c: Seq<u8>,
    meta: Seq<FunctionMetadata>,
    hs: Seq<isize>,
    wl: Seq<FlowItem>,
    at: Option<(int, int)>,
    hs2: Seq<isize>,
    wl2: Seq<FlowItem>,
    at2: Option<(int, int)>,
    q: int,
)
    requires
        visited(hs, q),
        height_after(c, meta, q, hs[q] as int) >= 0,
        covered(c, meta, hs, wl, at, q),
        hs2.len() == hs.len(),
        forall|x: int| #[trigger] visited(hs, x) ==> hs2[x] == hs[x],
        forall|t: int, h: int|
            pending(wl, at, t, h) ==> lands(hs2, t, h) || pending(wl2, at2, t, h),
    ensures
        covered(c, meta, hs2, wl2, at2, q),
{
    assert(hs2[q] == hs[q]);
    let post = height_after(c, meta, q, hs[q] as int);
    assert forall|k: int| 0 <= k < flow_targets(c, q).len() implies lands(
        hs2,
        flow_targets(c, q)[k],
        post,
    ) || pending(wl2, at2, flow_targets(c, q)[k], post) by {
        let t = flow_targets(c, q)[k];
        if lands(hs, t, post) {
            if 0 <= t < hs.len() {
                assert(visited(hs, t));
            }
        }
    }
}

/// `closed` survives a change of heights that keeps the visited ones, where everything that
/// was still to visit is consistent or still to visit; for the instructions visited before.
proof fn lemma_closed_mono(
    c: Seq<u8>,
    meta: Seq<FunctionMetadata>,
    cur: FunctionMetadata,
    hs: Seq<isize>,
    wl: Seq<FlowItem>,
    at: Option<(int, int)>,
    hs2: Seq<isize>,
    wl2: Seq<FlowItem>,
    at2: Option<(int, int)>,
)
    requires
        hs.len() == c.len(),
        closed(c, meta, cur, hs, wl, at),
        hs2.len() == hs.len(),
        forall|x: int| #[trigger] visited(hs, x) ==> hs2[x] == hs[x],
        forall|t: int, h: int|
            pending(wl, at, t, h) ==> lands(hs2, t, h) || pending(wl2, at2, t, h),
    ensures
        forall|q: int| #[trigger]
            visited(hs, q) ==> step_ok(c, meta, cur, q, hs2[q] as int) && covered(
                c,
                meta,
                hs2,
                wl2,
                at2,
                q,
            ),
{
    assert forall|q: int| #[trigger] visited(hs, q) implies step_ok(
        c,
        meta,
        cur,
        q,
        hs2[q] as int,
    ) && covered(c, meta, hs2, wl2, at2, q) by {
        lemma_height_after_bounds(c, meta, cur, q, hs[q] as int);
        lemma_covered_mono(c, meta, hs, wl, at, hs2, wl2, at2, q);
    }
}

/// Taking the last item off the work list makes it where the walk stands.
proof fn lemma_pop_pending(wl: Seq<FlowItem>)
    requires
        wl.len() > 0,
    ensures
        forall|t: int, h: int|
            pending(wl, None, t, h) ==> pending(
                wl.drop_last(),
                Some((wl.last().pos as int, wl.last().height as int)),
                t,
                h,
            ),
{
    assert forall|t: int, h: int| pending(wl, None, t, h) implies pending(
        wl.drop_last(),
        Some((wl.last().pos as int, wl.last().height as int)),
        t,
        h,
    ) by {
        let j = choose|j: int| 0 <= j < wl.len() && #[trigger] wl[j].pos == t && wl[j].height == h;
        if j < wl.len() - 1 {
            assert(wl.drop_last()[j] == wl[j]);
        }
    }
}

/// Where the walk stood is now consistent, and the work list only grew: what was still to
/// visit is consistent or still to visit.
proof fn lemma_extend_pending(
    wl: Seq<FlowItem>,
    p: int,
    h0: int,
    hs2: Seq<isize>,
    wl2: Seq<FlowItem>,
    at2: Option<(int, int)>,
)
    requires
        lands(hs2, p, h0),
        wl2.len() >= wl.len(),
        forall|j: int| 0 <= j < wl.len() ==> wl2[j] == wl[j],
    ensures
        forall|t: int, h: int|
            pending(wl, Some((p, h0)), t, h) ==> lands(hs2, t, h) || pending(wl2, at2, t, h),
{
    assert forall|t: int, h: int| pending(wl, Some((p, h0)), t, h) implies lands(hs2, t, h)
        || pending(wl2, at2, t, h) by {
        if Some((p, h0)) != Some((t, h)) {
            let j = choose|j: int| 0 <= j < wl.len() && #[trigger] wl[j].pos == t && wl[j].height == h;
            assert(wl2[j] == wl[j]);
        }
    }
}

/// The code section `section` of `c`, in a container with the signatures `meta`, is valid
/// per EOF v1: the scan succeeds and ends on an instruction that ends the code, and stack
/// heights consistent along every path reach exactly the instructions it counted.
pub open spec fn section_valid(c: Seq<u8>, meta: Seq<FunctionMetadata>, section: int) -> bool {
    &&& scan(c, meta.len(), 0, 0, 0) is Ok
    &&& is_terminal(scan(c, meta.len(), 0, 0, 0)->Ok_0.1)
    &&& 0 <= section < meta.len()
    &&& exists|hs: Seq<isize>|
        flow_sound(c, meta, section, hs) && visited_count(hs) == scan(
            c,
            meta.len(),
            0,
            0,
            0,
        )->Ok_0.0
}

/// What validating the code sections `code` from `k` on gives: the error of the first
/// invalid one, each against the signatures `meta`.
pub open spec fn sections_validation(code: Seq<Buffer>, meta: Seq<FunctionMetadata>, k: int) -> Result<
    (),
    Error,
>
    decreases code.len() - k,
{
    if k < 0 || k >= code.len() {
        Ok(())
    } else {
        match validation(code[k].bytes(), meta, k) {
            Err(e) => Err(e),
            Ok(_) => sections_validation(code, meta, k + 1),
        }
    }
}

impl Container {
    /// Checks the relative jump whose 16-bit offset is at `imm`, counted from `from`, against
    /// the data positions of `code`, which it computes where `analysis` has none yet.
    fn check_dest(code: &Buffer, analysis: Option<Bitvec>, imm: usize, from: usize, length: usize)
        -> (r: Result<Bitvec, Error>)
        requires
            code.spec_is_initialized(),
            rjumpv_counts_fit(code.bytes(), 0),
            code.bytes().len() + 0x20000 <= isize::MAX,
            length == code.bytes().len(),
            imm <= length + 1024,
            from <= length + 1024,
            analysis_of(code.bytes(), analysis),
        ensures
            match dest_check(code.bytes(), imm as int, from as int) {
                Err(e) => r == Err::<Bitvec, Error>(e),
                Ok(_) => r matches Ok(b) && analysis_of(code.bytes(), Some(b)),
            },
    {
        if code.len() < imm + 2 {
            return Err(Error::UnexpectedEndOfFile);
        }
        let analysis = match analysis {
            Some(a) => a,
            None => Bitvec::eof_code_bitmap(code),
        };
        let offset = code.get_i16_or_default(imm);
        let d: isize = from as isize + offset as isize;
        if d < 0 {
            let dest: usize = usize::MAX - ((-(d + 1)) as usize);
            return Err(Error::ValidationInvalidJumpDest(offset, dest, imm));
        }
        let dest = d as usize;
        if dest >= length {
            return Err(Error::ValidationInvalidJumpDest(offset, dest, imm));
        }
        proof {
            assert(bit_of(analysis@, dest as int) <==> data_positions(code.bytes(), 0).contains(
                dest as int,
            ));
        }
        if !analysis.is_code_segment(dest) {
            return Err(Error::ValidationInvalidJumpDest(offset, dest, imm));
        }
        Ok(analysis)
    }

    /// Walks every path of the code section `section` of `code`, giving each instruction it
    /// reaches a stack height, and checks that the code is valid per EOF v1: the heights agree
    /// where paths meet, every instruction has what it takes on the stack and room for what it
    /// gives, returns leave the declared outputs, and the greatest height is the declared one.
    /// It answers how many instructions it reached.
    #[verifier::rlimit(60)]
    pub fn validate_control_flow(code: &Buffer, section: usize, metadata: &[FunctionMetadata])
        -> (r: Result<usize, Error>)
        requires
            code.spec_is_initialized(),
            code.bytes().len() + 0x20000 <= isize::MAX,
        ensures
            section >= metadata@.len() ==> r == Err::<usize, Error>(
                Error::FunctionMetadataNotFound(section),
            ),
            r matches Ok(n) ==> section < metadata@.len() && exists|hs: Seq<isize>|
                flow_sound(code.bytes(), metadata@, section as int, hs) && n == visited_count(hs),
            r == control_flow(code.bytes(), metadata@, section as int),
    {
        let ghost c = code.bytes();
        let ghost meta = metadata@;
        let len = code.len();
        let mut heights: Vec<isize> = Vec::new();
        while heights.len() < len
            invariant
                heights@.len() <= len,
                len == c.len(),
                forall|i: int| 0 <= i < heights@.len() ==> heights@[i] == -1,
            decreases len - heights@.len(),
        {
            heights.push(-1);
        }
        proof {
            lemma_visited_count_none(heights@);
        }
        let mut height_update: usize = 0;
        if section >= metadata.len() {
            return Err(Error::FunctionMetadataNotFound(section));
        }
        let current = metadata[section];
        let mut worklist: Vec<FlowItem> = Vec::new();
        worklist.push(FlowItem { pos: 0, height: current.input as usize });
        let mut max_stack_height: usize = current.input as usize;
        proof {
            assert(worklist@[0].pos == 0 && worklist@[0].height == current.input);
            assert forall|q: int| #[trigger] visited(heights@, q) implies false by {}
            assert(heights@ =~= Seq::new(c.len(), |i: int| -1isize));
            assert(worklist@ =~= seq![FlowItem { pos: 0, height: current.input as usize }]);
        }
        let ghost top = walk_outer(
            c,
            meta,
            current,
            heights@,
            worklist@,
            0,
            current.input as int,
            (2 * (257 * c.len() + 1) + 1) as nat,
        );
        let ghost mut fuel: nat = (2 * (257 * c.len() + 1) + 1) as nat;
        assert(control_flow(c, meta, section as int) == flow_result(section as int, current, top));
        while worklist.len() > 0
            invariant
                walk_outer(
                    c,
                    meta,
                    current,
                    heights@,
                    worklist@,
                    height_update as int,
                    max_stack_height as int,
                    fuel,
                ) == top,
                control_flow(c, meta, section as int) == flow_result(section as int, current, top),
                fuel >= 2 * (257 * (len - height_update) + worklist@.len()) + 1,
                len == c.len(),
                c == code.bytes(),
                code.spec_is_initialized(),
                c.len() + 0x20000 <= isize::MAX,
                meta == metadata@,
                section < meta.len(),
                current == meta[section as int],
                heights@.len() == len,
                forall|i: int| 0 <= i < len ==> -1 <= #[trigger] heights@[i] <= 1024,
                forall|j: int| 0 <= j < worklist@.len() ==> #[trigger] worklist@[j].height <= 1024,
                height_update == visited_count(heights@),
                height_update <= len,
                closed(c, meta, current, heights@, worklist@, None),
                len > 0 ==> heights@[0] == current.input || pending(
                    worklist@,
                    None,
                    0,
                    current.input as int,
                ),
                current.input <= max_stack_height <= 1024,
                forall|q: int| #[trigger]
                    visited(heights@, q) && !halts(c[q]) ==> height_after(
                        c,
                        meta,
                        q,
                        heights@[q] as int,
                    ) <= max_stack_height,
                max_stack_height == current.input || exists|q: int| #[trigger]
                    visited(heights@, q) && !halts(c[q]) && height_after(
                        c,
                        meta,
                        q,
                        heights@[q] as int,
                    ) == max_stack_height,
            decreases 257 * (len - height_update) + worklist@.len(),
        {
            let ghost m0 = 257 * (len - height_update) + worklist@.len();
            let ghost wl_full = worklist@;
            proof {
                lemma_pop_pending(wl_full);
            }
            let item = worklist.pop().unwrap();
            let mut pos = item.pos;
            let mut height = item.height;
            let ghost mut broke = false;
            proof {
                assert(worklist@ == wl_full.drop_last());
                assert(walk_outer(
                    c,
                    meta,
                    current,
                    heights@,
                    wl_full,
                    height_update as int,
                    max_stack_height as int,
                    fuel,
                ) == walk_inner(
                    c,
                    meta,
                    current,
                    heights@,
                    worklist@,
                    height_update as int,
                    max_stack_height as int,
                    pos as int,
                    height as int,
                    (fuel - 1) as nat,
                ));
                fuel = (fuel - 1) as nat;
                lemma_closed_mono(
                    c,
                    meta,
                    current,
                    heights@,
                    wl_full,
                    None,
                    heights@,
                    worklist@,
                    Some((pos as int, height as int)),
                );
            }
            while pos < len
                invariant_except_break
                    !broke,
                    walk_inner(
                        c,
                        meta,
                        current,
                        heights@,
                        worklist@,
                        height_update as int,
                        max_stack_height as int,
                        pos as int,
                        height as int,
                        fuel,
                    ) == top,
                    fuel >= 2 * (257 * (len - height_update) + worklist@.len()) + 2,
                    closed(c, meta, current, heights@, worklist@, Some((pos as int, height as int))),
                    len > 0 ==> heights@[0] == current.input || pending(
                        worklist@,
                        Some((pos as int, height as int)),
                        0,
                        current.input as int,
                    ),
                invariant
                    control_flow(c, meta, section as int) == flow_result(section as int, current, top),
                    len == c.len(),
                    c == code.bytes(),
                    code.spec_is_initialized(),
                    c.len() + 0x20000 <= isize::MAX,
                    meta == metadata@,
                    section < meta.len(),
                    current == meta[section as int],
                    heights@.len() == len,
                    forall|i: int| 0 <= i < len ==> -1 <= #[trigger] heights@[i] <= 1024,
                    forall|j: int|
                        0 <= j < worklist@.len() ==> #[trigger] worklist@[j].height <= 1024,
                    height <= 1024,
                    height_update == visited_count(heights@),
                    height_update <= len,
                    257 * (len - height_update) + worklist@.len() + 1 <= m0,
                    current.input <= max_stack_height <= 1024,
                    forall|q: int| #[trigger]
                        visited(heights@, q) && !halts(c[q]) ==> height_after(
                            c,
                            meta,
                            q,
                            heights@[q] as int,
                        ) <= max_stack_height,
                    max_stack_height == current.input || exists|q: int| #[trigger]
                        visited(heights@, q) && !halts(c[q]) && height_after(
                            c,
                            meta,
                            q,
                            heights@[q] as int,
                        ) == max_stack_height,
                ensures
                    broke ==> walk_outer(
                        c,
                        meta,
                        current,
                        heights@,
                        worklist@,
                        height_update as int,
                        max_stack_height as int,
                        fuel,
                    ) == top && fuel >= 2 * (257 * (len - height_update) + worklist@.len()) + 1,
                    !broke ==> pos >= len && walk_inner(
                        c,
                        meta,
                        current,
                        heights@,
                        worklist@,
                        height_update as int,
                        max_stack_height as int,
                        pos as int,
                        height as int,
                        fuel,
                    ) == top && fuel >= 2 * (257 * (len - height_update) + worklist@.len()) + 2,
                    heights@.len() == len,
                    forall|i: int| 0 <= i < len ==> -1 <= #[trigger] heights@[i] <= 1024,
                    forall|j: int|
                        0 <= j < worklist@.len() ==> #[trigger] worklist@[j].height <= 1024,
                    height_update == visited_count(heights@),
                    height_update <= len,
                    257 * (len - height_update) + worklist@.len() < m0,
                    closed(c, meta, current, heights@, worklist@, None),
                    len > 0 ==> heights@[0] == current.input || pending(
                        worklist@,
                        None,
                        0,
                        current.input as int,
                    ),
                    current.input <= max_stack_height <= 1024,
                    forall|q: int| #[trigger]
                        visited(heights@, q) && !halts(c[q]) ==> height_after(
                            c,
                            meta,
                            q,
                            heights@[q] as int,
                        ) <= max_stack_height,
                    max_stack_height == current.input || exists|q: int| #[trigger]
                        visited(heights@, q) && !halts(c[q]) && height_after(
                            c,
                            meta,
                            q,
                            heights@[q] as int,
                        ) == max_stack_height,
                decreases len - height_update,
            {
                let ghost f0 = fuel;
                let ghost upd0 = height_update as int;
                let ghost mx0 = max_stack_height as int;
                let op = code.get_or_default(pos);
                let want = heights[pos];
                if want != -1 {
                    if want as usize != height {
                        proof {
                            assert(heights@[pos as int] == want);
                            assert(walk_inner(
                                c,
                                meta,
                                current,
                                heights@,
                                worklist@,
                                upd0,
                                mx0,
                                pos as int,
                                height as int,
                                f0,
                            ) == Err::<(int, int), Error>(
                                Error::ValidationConflictingStack(height, want as usize),
                            ));
                        }
                        return Err(Error::ValidationConflictingStack(height, want as usize));
                    }
                    proof {
                        lemma_extend_pending(
                            worklist@,
                            pos as int,
                            height as int,
                            heights@,
                            worklist@,
                            None,
                        );
                        lemma_closed_mono(
                            c,
                            meta,
                            current,
                            heights@,
                            worklist@,
                            Some((pos as int, height as int)),
                            heights@,
                            worklist@,
                            None,
                        );
                    }
                    proof {
                        fuel = (f0 - 1) as nat;
                        broke = true;
                    }
                    break;
                }
                let ghost hs0 = heights@;
                let ghost wl0 = worklist@;
                let ghost pos0 = pos as int;
                let ghost pre = height as int;
                heights.set(pos, height as isize);
                proof {
                    lemma_visited_count_mark(hs0, pos0, height as isize);
                    lemma_visited_count_bound(heights@);
                }
                height_update += 1;
                let info = match opcode_info(op) {
                    Some(i) => i,
                    None => {
                        proof {
                            assert(walk_inner(c, meta, current, hs0, wl0, upd0, mx0, pos0, pre, f0)
                                == Err::<(int, int), Error>(
                                Error::ValidationUndefinedInstruction(op, pos),
                            ));
                        }
                        return Err(Error::ValidationUndefinedInstruction(op, pos));
                    },
                };
                proof {
                    assert(stack_io(op) is Some && info.min_stack == stack_io(op).unwrap().0
                        && info.max_stack == STACK_LIMIT + stack_io(op).unwrap().0 - stack_io(
                        op,
                    ).unwrap().1);
                }
                if info.min_stack > height {
                    proof {
                        assert(walk_inner(c, meta, current, hs0, wl0, upd0, mx0, pos0, pre, f0) == Err::<(int, int), Error>(Error::StackUnderflow));
                    }
                    return Err(Error::StackUnderflow);
                }
                if info.max_stack < height {
                    proof {
                        assert(walk_inner(c, meta, current, hs0, wl0, upd0, mx0, pos0, pre, f0) == Err::<(int, int), Error>(Error::StackOverflow));
                    }
                    return Err(Error::StackOverflow);
                }
                height = height + STACK_LIMIT - info.max_stack;
                let mut halted = false;
                if op == CALLF {
                    let arg = code.get_u16_or_default(pos + 1) as usize;
                    if arg >= metadata.len() {
                        proof {
                            assert(walk_inner(c, meta, current, hs0, wl0, upd0, mx0, pos0, pre, f0) == Err::<(int, int), Error>(
                                Error::FunctionMetadataNotFound(arg),
                            ));
                        }
                        return Err(Error::FunctionMetadataNotFound(arg));
                    }
                    let m = metadata[arg];
                    let input = m.input as usize;
                    let output = m.output as usize;
                    if input > height {
                        proof {
                            assert(walk_inner(c, meta, current, hs0, wl0, upd0, mx0, pos0, pre, f0) == Err::<(int, int), Error>(Error::StackUnderflow));
                        }
                        return Err(Error::StackUnderflow);
                    }
                    if output + height > STACK_LIMIT {
                        proof {
                            assert(walk_inner(c, meta, current, hs0, wl0, upd0, mx0, pos0, pre, f0) == Err::<(int, int), Error>(Error::StackOverflow));
                        }
                        return Err(Error::StackOverflow);
                    }
                    height = height - input + output;
                    pos = pos + 3;
                } else if op == RETF {
                    if current.output as usize != height {
                        proof {
                            assert(walk_inner(c, meta, current, hs0, wl0, upd0, mx0, pos0, pre, f0) == Err::<(int, int), Error>(
                                Error::ValidationInvalidOutputs(current.output, height, pos),
                            ));
                        }
                        return Err(Error::ValidationInvalidOutputs(current.output, height, pos));
                    }
                    halted = true;
                } else if op == RJUMP {
                    let arg = code.get_i16_or_default(pos + 1);
                    let t: isize = pos as isize + 3 + arg as isize;
                    if t < 0 {
                        pos = len;
                    } else {
                        pos = t as usize;
                    }
                } else if op == RJUMPI {
                    let arg = code.get_i16_or_default(pos + 1);
                    let t: isize = pos as isize + 3 + arg as isize;
                    if t >= 0 {
                        worklist.push(FlowItem { pos: t as usize, height });
                    }
                    pos = pos + 3;
                } else if op == RJUMPV {
                    let count = code.get_or_default(pos + 1);
                    let mut k: u8 = 0;
                    while k < count
                        invariant
                            k <= count,
                            c[pos0] == RJUMPV,
                            count == byte_or_zero(c, pos0 + 1),
                            pos == pos0,
                            0 <= pos0 < len,
                            len == c.len(),
                            c == code.bytes(),
                            code.spec_is_initialized(),
                            c.len() + 0x20000 <= isize::MAX,
                            height <= 1024,
                            worklist@.len() <= wl0.len() + k,
                            worklist@.len() >= wl0.len(),
                            wl0 + table_items(c, pos0, count as int, height as int, 0) == worklist@
                                + table_items(c, pos0, count as int, height as int, k as int),
                            forall|j: int| 0 <= j < wl0.len() ==> worklist@[j] == wl0[j],
                            forall|j: int|
                                0 <= j < worklist@.len() ==> #[trigger] worklist@[j].height
                                    <= 1024,
                            forall|kk: int|
                                0 <= kk < k ==> flow_targets(c, pos0)[kk] < 0 || pending(
                                    worklist@,
                                    None,
                                    flow_targets(c, pos0)[kk],
                                    height as int,
                                ),
                        decreases count - k,
                    {
                        let arg = code.get_i16_or_default(pos + 2 + 2 * k as usize);
                        let t: isize = pos as isize + 2 + 2 * count as isize + arg as isize;
                        let ghost before = worklist@;
                        proof {
                            assert(t == pos0 + 2 + 2 * count + be_i16(c, pos0 + 2 + 2 * k));
                        }
                        if t >= 0 {
                            worklist.push(FlowItem { pos: t as usize, height });
                            proof {
                                assert(worklist@[before.len() as int].pos == t);
                                assert(worklist@[before.len() as int].height == height);
                            }
                        }
                        proof {
                            assert(forall|j: int| 0 <= j < before.len() ==> worklist@[j] == before[j]);
                            assert forall|j: int| 0 <= j < wl0.len() implies worklist@[j] == wl0[j] by {
                                assert(j < before.len());
                                assert(before[j] == wl0[j]);
                            }
                            assert(flow_targets(c, pos0)[k as int] == t);
                            let rest = table_items(c, pos0, count as int, height as int, k + 1);
                            if t >= 0 {
                                assert(table_items(c, pos0, count as int, height as int, k as int)
                                    == seq![FlowItem { pos: t as usize, height }] + rest);
                                assert(before + (seq![FlowItem { pos: t as usize, height }] + rest)
                                    =~= worklist@ + rest);
                            } else {
                                assert(table_items(c, pos0, count as int, height as int, k as int)
                                    == rest);
                                assert(worklist@ == before);
                            }
                            assert forall|kk: int|
                                0 <= kk < k + 1 implies flow_targets(c, pos0)[kk] < 0 || pending(
                                worklist@,
                                None,
                                flow_targets(c, pos0)[kk],
                                height as int,
                            ) by {
                                if kk == k && t >= 0 {
                                    assert(worklist@[before.len() as int].pos == flow_targets(c, pos0)[kk]);
                                } else if kk < k && flow_targets(c, pos0)[kk] >= 0 {
                                    let j = choose|j: int|
                                        0 <= j < before.len() && #[trigger] before[j].pos
                                            == flow_targets(c, pos0)[kk] && before[j].height
                                            == height;
                                    assert(worklist@[j] == before[j]);
                                }
                            }
                        }
                        k += 1;
                    }
                    pos = pos + 2 + 2 * count as usize;
                } else if PUSH1 <= op && op <= PUSH32 {
                    pos = pos + 1 + (op - PUSH0) as usize;
                } else if info.terminal {
                    halted = true;
                } else {
                    pos = pos + 1;
                }
                proof {
                    assert(step_error(c, meta, current, pos0, pre) is None);
                    if !halted {
                        assert(pos as int == next_pos(c, pos0));
                        assert(worklist@ =~= wl0 + next_items(c, pos0, height as int));
                    }
                    assert(op == c[pos0]);
                    assert(step_ok(c, meta, current, pos0, pre));
                    assert(height == height_after(c, meta, pos0, pre));
                    assert(halted == halts(op));
                }
                if halted {
                    proof {
                        let hs1 = heights@;
                        let wl1 = worklist@;
                        assert(hs1[pos0] == pre);
                        assert forall|x: int| #[trigger] visited(hs0, x) implies hs1[x] == hs0[x] by {}
                        lemma_extend_pending(wl0, pos0, pre, heights@, worklist@, None);
                        lemma_closed_mono(
                            c,
                            meta,
                            current,
                            hs0,
                            wl0,
                            Some((pos0, pre)),
                            heights@,
                            worklist@,
                            None,
                        );
                        assert(flow_targets(c, pos0).len() == 0);
                        if len > 0 {
                            if hs0[0] == current.input {
                                assert(visited(hs0, 0));
                            } else {
                                assert(pending(wl0, Some((pos0, pre)), 0, current.input as int));
                            }
                        }
                        assert forall|q: int| #[trigger] visited(hs1, q) implies step_ok(
                            c,
                            meta,
                            current,
                            q,
                            hs1[q] as int,
                        ) && covered(c, meta, hs1, wl1, None, q) by {
                            if q != pos0 {
                                assert(visited(hs0, q));
                            }
                        }
                        assert forall|q: int| #[trigger]
                            visited(hs1, q) && !halts(c[q]) implies height_after(
                            c,
                            meta,
                            q,
                            hs1[q] as int,
                        ) <= max_stack_height by {
                            if q != pos0 {
                                assert(visited(hs0, q));
                            }
                        }
                        if max_stack_height != current.input {
                            let q = choose|q: int| #[trigger]
                                visited(hs0, q) && !halts(c[q]) && height_after(
                                    c,
                                    meta,
                                    q,
                                    hs0[q] as int,
                                ) == max_stack_height;
                            assert(visited(hs1, q));
                        }
                    }
                    proof {
                        assert(walk_inner(c, meta, current, hs0, wl0, upd0, mx0, pos0, pre, f0)
                            == walk_outer(
                            c,
                            meta,
                            current,
                            heights@,
                            worklist@,
                            height_update as int,
                            max_stack_height as int,
                            (f0 - 1) as nat,
                        ));
                        fuel = (f0 - 1) as nat;
                        broke = true;
                    }
                    break;
                }
                let ghost old_max = max_stack_height;
                if height > max_stack_height {
                    max_stack_height = height;
                }
                proof {
                    let hs1 = heights@;
                    let wl1 = worklist@;
                    let at1 = Some((pos as int, height as int));
                    assert(hs1[pos0] == pre);
                    assert forall|x: int| #[trigger] visited(hs0, x) implies hs1[x] == hs0[x] by {}
                    assert(covered(c, meta, hs1, wl1, at1, pos0)) by {
                        assert(height_after(c, meta, pos0, hs1[pos0] as int) == height);
                        if op == RJUMPI {
                            let t = flow_targets(c, pos0)[0];
                            if t >= 0 {
                                assert(wl1[wl0.len() as int].pos == t);
                                assert(wl1[wl0.len() as int].height == height);
                            }
                        }
                        if op == RJUMPV {
                            assert forall|k: int| 0 <= k < flow_targets(c, pos0).len() implies lands(
                                hs1,
                                flow_targets(c, pos0)[k],
                                height as int,
                            ) || pending(wl1, at1, flow_targets(c, pos0)[k], height as int) by {
                                if k < flow_targets(c, pos0).len() - 1 {
                                    if flow_targets(c, pos0)[k] >= 0 {
                                        let j = choose|j: int|
                                            0 <= j < wl1.len() && #[trigger] wl1[j].pos
                                                == flow_targets(c, pos0)[k] && wl1[j].height
                                                == height;
                                    }
                                }
                            }
                        }
                    }
                    assert forall|q: int| #[trigger]
                        visited(hs1, q) && !halts(c[q]) implies height_after(
                        c,
                        meta,
                        q,
                        hs1[q] as int,
                    ) <= max_stack_height by {
                        if q != pos0 {
                            assert(visited(hs0, q));
                        }
                    }
                    if max_stack_height != current.input {
                        if max_stack_height == height {
                            assert(visited(hs1, pos0));
                        } else {
                            let q = choose|q: int| #[trigger]
                                visited(hs0, q) && !halts(c[q]) && height_after(
                                    c,
                                    meta,
                                    q,
                                    hs0[q] as int,
                                ) == old_max;
                            assert(visited(hs1, q));
                        }
                    }
                    lemma_extend_pending(
                        wl0,
                        pos0,
                        pre,
                        heights@,
                        worklist@,
                        Some((pos as int, height as int)),
                    );
                    lemma_closed_mono(
                        c,
                        meta,
                        current,
                        hs0,
                        wl0,
                        Some((pos0, pre)),
                        heights@,
                        worklist@,
                        Some((pos as int, height as int)),
                    );
                    if len > 0 {
                        if hs0[0] == current.input {
                            assert(visited(hs0, 0));
                        } else {
                            assert(pending(wl0, Some((pos0, pre)), 0, current.input as int));
                            assert(lands(hs1, 0, current.input as int) || pending(
                                wl1,
                                at1,
                                0,
                                current.input as int,
                            ));
                        }
                    }
                    assert forall|q: int| #[trigger] visited(hs1, q) implies step_ok(
                        c,
                        meta,
                        current,
                        q,
                        hs1[q] as int,
                    ) && covered(c, meta, hs1, wl1, at1, q) by {
                        if q != pos0 {
                            assert(visited(hs0, q));
                        }
                    }
                    assert(walk_inner(c, meta, current, hs0, wl0, upd0, mx0, pos0, pre, f0)
                        == walk_inner(
                        c,
                        meta,
                        current,
                        heights@,
                        worklist@,
                        height_update as int,
                        max_stack_height as int,
                        pos as int,
                        height as int,
                        (f0 - 1) as nat,
                    ));
                    fuel = (f0 - 1) as nat;
                }
            }
            proof {
                if !broke {
                    fuel = (fuel - 1) as nat;
                }
            }
        }
        if max_stack_height != current.max_stack_height as usize {
            return Err(
                Error::ValidationInvalidMaxStackHeight(
                    section,
                    max_stack_height,
                    current.max_stack_height,
                ),
            );
        }
        proof {
            assert(flow_sound(c, meta, section as int, heights@));
        }
        Ok(height_update)
    }

    /// Checks that the code section `section` of a container with the signatures `metadata`
    /// is valid per EOF v1: every instruction allowed and whole, every relative jump onto an
    /// instruction, every called section there, a last instruction that ends the code, and
    /// every instruction reached along its paths at consistent stack heights.
    #[verifier::rlimit(40)]
    pub fn validate_code(code: &Buffer, section: usize, metadata: &Vec<FunctionMetadata>) -> (r:
        Result<(), Error>)
        requires
            code.spec_is_initialized(),
            rjumpv_counts_fit(code.bytes(), 0),
            code.bytes().len() + 0x20000 <= isize::MAX,
        ensures
            match scan(code.bytes(), metadata@.len(), 0, 0, 0) {
                Err(e) => r == Err::<(), Error>(e),
                Ok((count, last, end)) => if !is_terminal(last) {
                    r == Err::<(), Error>(
                        Error::ValidationInvalidCodeTermination(last, end as usize),
                    )
                } else {
                    r is Ok ==> section_valid(code.bytes(), metadata@, section as int)
                },
            },
            r is Ok ==> section_valid(code.bytes(), metadata@, section as int),
            r == validation(code.bytes(), metadata@, section as int),
    {
        let ghost c = code.bytes();
        let ghost nm = metadata@.len();
        let mut i: usize = 0;
        let mut instruction_count: usize = 0;
        let mut analysis: Option<Bitvec> = None;
        let mut opcode: u8 = 0;
        while i < code.len()
            invariant
                c == code.bytes(),
                code.spec_is_initialized(),
                rjumpv_counts_fit(c, 0),
                c.len() + 0x20000 <= isize::MAX,
                nm == metadata@.len(),
                i <= c.len() + 1024,
                instruction_count <= i + 256,
                analysis_of(c, analysis),
                scan(c, nm, 0, 0, 0) == scan(c, nm, i as int, instruction_count as int, opcode),
            decreases c.len() + 1024 - i,
        {
            let ghost i0 = i as int;
            instruction_count += 1;
            opcode = code.get_or_default(i);
            let valid = match opcode_info(opcode) {
                Some(_) => true,
                None => false,
            };
            if !valid && (opcode == CALLCODE || opcode == SELFDESTRUCT || opcode == JUMP || opcode
                == JUMPI || opcode == PC) {
                return Err(Error::ValidationUndefinedInstruction(opcode, i));
            }
            if opcode > PUSH0 && opcode <= PUSH32 {
                let size = opcode - PUSH0;
                if code.len() <= i + size as usize {
                    return Err(Error::ValidationTruncatedImmediate(opcode, i));
                }
                i += size as usize;
            }
            if opcode == RJUMP || opcode == RJUMPI {
                if code.len() <= i + 2 {
                    return Err(Error::ValidationTruncatedImmediate(opcode, i));
                }
                analysis = Some(Self::check_dest(code, analysis, i + 1, i + 3, code.len())?);
                i += 2;
            }
            if opcode == RJUMPV {
                if code.len() <= i + 1 {
                    return Err(Error::ValidationTruncatedImmediate(opcode, i));
                }
                instruction_count = code.get_or_default(i + 1) as usize;
                if instruction_count == 0 {
                    return Err(Error::ValidationInvalidBranchCount(i));
                }
                if code.len() <= i + instruction_count {
                    return Err(Error::ValidationTruncatedImmediate(opcode, i));
                }
                let mut j: usize = 0;
                while j < instruction_count
                    invariant
                        c == code.bytes(),
                        code.spec_is_initialized(),
                        rjumpv_counts_fit(c, 0),
                        c.len() + 0x20000 <= isize::MAX,
                        i == i0,
                        0 <= i0 < c.len(),
                        instruction_count == c[i0 + 1],
                        opcode == RJUMPV,
                        nm == metadata@.len(),
                        scan(c, nm, 0, 0, 0) == (match table_check(
                            c,
                            i0,
                            instruction_count as int,
                            0,
                        ) {
                            Err(e) => Err(e),
                            Ok(_) => scan(
                                c,
                                nm,
                                i0 + 2 * instruction_count + 2,
                                instruction_count as int,
                                opcode,
                            ),
                        }),
                        j <= instruction_count,
                        analysis_of(c, analysis),
                        table_check(c, i0, instruction_count as int, 0) == table_check(
                            c,
                            i0,
                            instruction_count as int,
                            j as int,
                        ),
                    decreases instruction_count - j,
                {
                    proof {
                        assert(table_check(c, i0, instruction_count as int, j as int) == match dest_check(
                            c,
                            i0 + 2 + j * 2,
                            i0 + 2 * instruction_count + 2,
                        ) {
                            Err(e) => Err(e),
                            Ok(_) => table_check(c, i0, instruction_count as int, j + 1),
                        });
                    }
                    analysis = Some(
                        Self::check_dest(
                            code,
                            analysis,
                            i + 2 + j * 2,
                            i + 2 * instruction_count + 2,
                            code.len(),
                        )?,
                    );
                    j += 1;
                }
                i += 1 + 2 * instruction_count;
            }
            if opcode == CALLF {
                if i + 2 >= code.len() {
                    return Err(Error::ValidationTruncatedImmediate(opcode, i));
                }
                let arg = code.get_u16_or_default(i + 1);
                if arg as usize >= metadata.len() {
                    return Err(Error::ValidationInvalidSectionArgument(arg, metadata.len(), i));
                }
                i += 2;
            }
            i += 1;
        }
        if !(opcode == STOP || opcode == RJUMP || opcode == RETF || opcode == RETURN || opcode
            == REVERT || opcode == INVALID) {
            return Err(Error::ValidationInvalidCodeTermination(opcode, i));
        }
        let path = Self::validate_control_flow(code, section, metadata.as_slice())?;
        if path != instruction_count {
            return Err(Error::ValidationUnreachableCode);
        }
        Ok(())
    }

    /// Checks every code section of the container, in order, against its signatures; the
    /// first invalid one gives the error.
    pub fn validate_container(&self) -> (r: Result<(), Error>)
        requires
            forall|i: int|
                0 <= i < self.code@.len() ==> {
                    &&& (#[trigger] self.code@[i]).spec_is_initialized()
                    &&& rjumpv_counts_fit(self.code@[i].bytes(), 0)
                    &&& self.code@[i].bytes().len() + 0x20000 <= isize::MAX
                },
        ensures
            r is Ok ==> forall|i: int|
                0 <= i < self.code@.len() ==> section_valid(
                    (#[trigger] self.code@[i]).bytes(),
                    self.types@,
                    i,
                ),
            r == sections_validation(self.code@, self.types@, 0),
    {
        let mut k: usize = 0;
        while k < self.code.len()
            invariant
                k <= self.code@.len(),
                forall|i: int|
                    0 <= i < self.code@.len() ==> {
                        &&& (#[trigger] self.code@[i]).spec_is_initialized()
                        &&& rjumpv_counts_fit(self.code@[i].bytes(), 0)
                        &&& self.code@[i].bytes().len() + 0x20000 <= isize::MAX
                    },
                forall|i: int|
                    0 <= i < k ==> section_valid((#[trigger] self.code@[i]).bytes(), self.types@, i),
                sections_validation(self.code@, self.types@, 0) == sections_validation(
                    self.code@,
                    self.types@,
                    k as int,
                ),
            decreases self.code@.len() - k,
        {
            Self::validate_code(&self.code[k], k, &self.types)?;
            k += 1;
        }
        Ok(())
    }
}

} // verus!
