use vstd::prelude::*;

use crate::buffer::{byte_or_zero, Buffer};
use crate::opcode_table::{CALLF, PUSH1, PUSH32, RJUMP, RJUMPI, RJUMPV};

verus! {

/// A bit vector over code positions: bit `i` lives in bit `i % 8` of byte `i / 8`.
pub struct Bitvec(Vec<u8>);

const BITS_MASK: [u16; 8] = [0, 1, 0b11, 0b111, 0b1111, 0b1_1111, 0b11_1111, 0b111_1111];

impl View for Bitvec {
    type V = Seq<u8>;

    closed spec fn view(&self) -> Seq<u8> {
        self.0@
    }
}

/// Bit `i` of the bytes `s`.
pub open spec fn bit_of(s: Seq<u8>, i: int) -> bool {
    (s[i / 8] >> ((i % 8) as u8)) & 1u8 == 1u8
}

/// The bits of `s` are exactly the members of `set`.
pub open spec fn bits_are(s: Seq<u8>, set: Set<int>) -> bool {
    forall|i: int| 0 <= i < 8 * s.len() ==> (#[trigger] bit_of(s, i) <==> set.contains(i))
}

/// The byte that sets the bits from `pos % 8` upwards.
pub open spec fn high_mask(pos: usize) -> u8 {
    (0xFFu16 << (pos % 8)) as u8
}

/// The positions `lo..hi`.
pub open spec fn span(lo: int, hi: int) -> Set<int> {
    Set::new(|i: int| lo <= i < hi)
}

impl Bitvec {
    /// `capacity` zero bytes.
    pub fn new(capacity: usize) -> (b: Self)
        ensures
            b@ == Seq::new(capacity as nat, |i: int| 0u8),
    {
        Bitvec(vec![0u8; capacity])
    }

    /// Sets bit `pos`.
    pub fn _set1(&mut self, pos: usize)
        requires
            pos / 8 < old(self)@.len(),
        ensures
            final(self)@ == old(self)@.update(
                (pos / 8) as int,
                old(self)@[(pos / 8) as int] | (1u8 << (pos % 8)),
            ),
    {
        let b = self.0[pos / 8];
        self.0.set(pos / 8, b | (1u8 << (pos % 8)));
    }

    /// ORs `flag << (pos % 8)` into the byte of `pos`; the bits that pass byte boundary, when
    /// there are any, become the next byte.
    pub fn set_n(&mut self, flag: u16, pos: usize)
        requires
            pos / 8 < old(self)@.len(),
            ((flag << (pos % 8)) >> 8u16) as u8 != 0 ==> pos / 8 + 1 < old(self)@.len(),
        ensures
            ({
                let a = flag << (pos % 8);
                let s1 = old(self)@.update((pos / 8) as int, old(self)@[(pos / 8) as int] | (a as u8));
                final(self)@ == if (a >> 8u16) as u8 != 0 {
                    s1.update((pos / 8 + 1) as int, (a >> 8u16) as u8)
                } else {
                    s1
                }
            }),
    {
        let a: u16 = flag << (pos % 8);
        let lo = self.0[pos / 8] | (a as u8);
        self.0.set(pos / 8, lo);
        let b = (a >> 8u16) as u8;
        if b != 0 {
            self.0.set(pos / 8 + 1, b);
        }
    }

    /// Sets the 8 bits from `pos` on, clearing the rest of the following byte.
    pub fn set8(&mut self, pos: usize)
        requires
            pos / 8 + 1 < old(self)@.len(),
        ensures
            final(self)@ == old(self)@.update(
                (pos / 8) as int,
                old(self)@[(pos / 8) as int] | high_mask(pos),
            ).update((pos / 8 + 1) as int, !high_mask(pos)),
    {
        let a = (0xFFu16 << (pos % 8)) as u8;
        let b = self.0[pos / 8];
        self.0.set(pos / 8, b | a);
        self.0.set(pos / 8 + 1, !a);
    }

    /// Sets the 16 bits from `pos` on, clearing the rest of the last byte.
    pub fn set16(&mut self, pos: usize)
        requires
            pos / 8 + 2 < old(self)@.len(),
        ensures
            final(self)@ == old(self)@.update(
                (pos / 8) as int,
                old(self)@[(pos / 8) as int] | high_mask(pos),
            ).update((pos / 8 + 1) as int, 0xFFu8).update((pos / 8 + 2) as int, !high_mask(pos)),
    {
        let a = (0xFFu16 << (pos % 8)) as u8;
        let b = self.0[pos / 8];
        self.0.set(pos / 8, b | a);
        self.0.set(pos / 8 + 1, 0xFF);
        self.0.set(pos / 8 + 2, !a);
    }

    /// Whether bit `pos` is clear, that is `pos` is not part of an instruction's data.
    pub fn is_code_segment(&self, pos: usize) -> (r: bool)
        requires
            pos / 8 < self@.len(),
        ensures
            r == !bit_of(self@, pos as int),
    {
        let y = self.0[pos / 8] >> ((pos % 8) as u8);
        assert((y & 1u8 == 0u8) <==> !(y & 1u8 == 1u8)) by (bit_vector);
        (y & 1) == 0
    }

    /// The bytes of the bit vector.
    pub fn to_vec(&self) -> (v: &Vec<u8>)
        ensures
            v@ == self@,
    {
        &self.0
    }
}

proof fn lemma_or_high(x: u8, r: usize, j: u8)
    requires
        r < 8,
        j < 8,
    ensures
        (((x | ((0xFFu16 << r) as u8)) >> j) & 1u8 == 1u8) <==> (((x >> j) & 1u8 == 1u8) || j
            as usize >= r),
{
    assert((((x | ((0xFFu16 << r) as u8)) >> j) & 1u8 == 1u8) <==> (((x >> j) & 1u8 == 1u8) || j
        as usize >= r)) by (bit_vector)
        requires
            r < 8,
            j < 8,
    ;
}

proof fn lemma_not_high(r: usize, j: u8)
    requires
        r < 8,
        j < 8,
    ensures
        (((!((0xFFu16 << r) as u8)) >> j) & 1u8 == 1u8) <==> (j as usize) < r,
{
    assert((((!((0xFFu16 << r) as u8)) >> j) & 1u8 == 1u8) <==> (j as usize) < r) by (bit_vector)
        requires
            r < 8,
            j < 8,
    ;
}

proof fn lemma_full_byte(j: u8)
    requires
        j < 8,
    ensures
        (0xFFu8 >> j) & 1u8 == 1u8,
{
    assert((0xFFu8 >> j) & 1u8 == 1u8) by (bit_vector)
        requires
            j < 8,
    ;
}

proof fn lemma_low_bits(x: u8, flag: u16, k: usize, r: usize, j: u8)
    requires
        1 <= k <= 7,
        flag == (1u16 << k) - 1u16,
        r < 8,
        j < 8,
    ensures
        (((x | ((flag << r) as u8)) >> j) & 1u8 == 1u8) <==> (((x >> j) & 1u8 == 1u8) || (r <= j
            as usize && (j as usize) < r + k)),
        ((((flag << r) >> 8u16) as u8 >> j) & 1u8 == 1u8) <==> (j as usize) + 8 < r + k,
        (((flag << r) >> 8u16) as u8 == 0u8) <==> r + k <= 8,
{
    assert((((x | ((flag << r) as u8)) >> j) & 1u8 == 1u8) <==> (((x >> j) & 1u8 == 1u8) || (r
        <= j as usize && (j as usize) < r + k))) by (bit_vector)
        requires
            1 <= k <= 7,
            flag == (1u16 << k) - 1u16,
            r < 8,
            j < 8,
    ;
    assert(((((flag << r) >> 8u16) as u8 >> j) & 1u8 == 1u8) <==> (j as usize) + 8 < r + k)
        by (bit_vector)
        requires
            1 <= k <= 7,
            flag == (1u16 << k) - 1u16,
            r < 8,
            j < 8,
    ;
    assert((((flag << r) >> 8u16) as u8 == 0u8) <==> r + k <= 8) by (bit_vector)
        requires
            1 <= k <= 7,
            flag == (1u16 << k) - 1u16,
            r < 8,
    ;
}

/// Setting the 8 bits from `q` on, when no bit from `q` on was set, adds `q..q+8` to the bits.
proof fn lemma_set8_bits(s: Seq<u8>, t: Seq<u8>, q: usize, set: Set<int>)
    requires
        bits_are(s, set),
        forall|x: int| set.contains(x) ==> x < q,
        q / 8 + 1 < s.len(),
        t == s.update((q / 8) as int, s[(q / 8) as int] | high_mask(q)).update(
            (q / 8 + 1) as int,
            !high_mask(q),
        ),
    ensures
        bits_are(t, set.union(span(q as int, q + 8))),
{
    let r = q % 8;
    assert forall|i: int| 0 <= i < 8 * t.len() implies (#[trigger] bit_of(t, i) <==> set.union(
        span(q as int, q + 8),
    ).contains(i)) by {
        let b = i / 8;
        let j = (i % 8) as u8;
        assert(bit_of(s, i) <==> set.contains(i));
        if b == q / 8 {
            lemma_or_high(s[b], r, j);
        } else if b == q / 8 + 1 {
            lemma_not_high(r, j);
        } else {
            assert(t[b] == s[b]);
        }
    }
}

/// Setting the 16 bits from `q` on, when no bit from `q` on was set, adds `q..q+16` to the bits.
proof fn lemma_set16_bits(s: Seq<u8>, t: Seq<u8>, q: usize, set: Set<int>)
    requires
        bits_are(s, set),
        forall|x: int| set.contains(x) ==> x < q,
        q / 8 + 2 < s.len(),
        t == s.update((q / 8) as int, s[(q / 8) as int] | high_mask(q)).update(
            (q / 8 + 1) as int,
            0xFFu8,
        ).update((q / 8 + 2) as int, !high_mask(q)),
    ensures
        bits_are(t, set.union(span(q as int, q + 16))),
{
    let r = q % 8;
    assert forall|i: int| 0 <= i < 8 * t.len() implies (#[trigger] bit_of(t, i) <==> set.union(
        span(q as int, q + 16),
    ).contains(i)) by {
        let b = i / 8;
        let j = (i % 8) as u8;
        assert(bit_of(s, i) <==> set.contains(i));
        if b == q / 8 {
            lemma_or_high(s[b], r, j);
        } else if b == q / 8 + 1 {
            lemma_full_byte(j);
        } else if b == q / 8 + 2 {
            lemma_not_high(r, j);
        } else {
            assert(t[b] == s[b]);
        }
    }
}

/// Setting `k < 8` bits from `q` on, when no bit from `q` on was set, adds `q..q+k` to the bits.
proof fn lemma_setn_bits(s: Seq<u8>, t: Seq<u8>, q: usize, k: usize, flag: u16, set: Set<int>)
    requires
        bits_are(s, set),
        forall|x: int| set.contains(x) ==> x < q,
        1 <= k <= 7,
        flag == (1u16 << k) - 1u16,
        q / 8 < s.len(),
        (q + k - 1) / 8 < s.len(),
        ({
            let a = flag << (q % 8);
            let s1 = s.update((q / 8) as int, s[(q / 8) as int] | (a as u8));
            t == if (a >> 8u16) as u8 != 0 {
                s1.update((q / 8 + 1) as int, (a >> 8u16) as u8)
            } else {
                s1
            }
        }),
    ensures
        bits_are(t, set.union(span(q as int, q + k))),
{
    let r = q % 8;
    let a = flag << r;
    lemma_low_bits(0u8, flag, k, r, 0u8);
    assert(t.len() == s.len());
    assert forall|i: int| 0 <= i < 8 * t.len() implies (#[trigger] bit_of(t, i) <==> set.union(
        span(q as int, q + k),
    ).contains(i)) by {
        let b = i / 8;
        let j = (i % 8) as u8;
        assert(bit_of(s, i) <==> set.contains(i));
        lemma_low_bits(s[(q / 8) as int], flag, k, r, j);
        if b == q / 8 {
        } else if b == q / 8 + 1 {
            if (a >> 8u16) as u8 == 0 {
                assert(t[b] == s[b]);
            }
        } else {
            assert(t[b] == s[b]);
        }
    }
}

/// The number of bytes after the instruction at `pc` that it marks as data.
pub open spec fn immediate_len(code: Seq<u8>, pc: int) -> int {
    let op = code[pc];
    if PUSH1 <= op <= PUSH32 {
        op - PUSH1 + 1
    } else if op == RJUMP || op == RJUMPI || op == CALLF {
        2
    } else if op == RJUMPV {
        let n = code[pc + 1] * 2 + 1;
        if pc + 1 + n > code.len() {
            code.len() - (pc + 1)
        } else {
            n
        }
    } else {
        0
    }
}

/// An `RJUMPV` without its count byte ends the analysis.
pub open spec fn analysis_stops(code: Seq<u8>, pc: int) -> bool {
    code[pc] == RJUMPV && pc + 1 >= code.len()
}

/// The positions that the instructions from `pc` on mark as data (immediate operands).
pub open spec fn data_positions(code: Seq<u8>, pc: int) -> Set<int>
    decreases code.len() - pc,
{
    if pc < 0 || pc >= code.len() || analysis_stops(code, pc) {
        Set::empty()
    } else {
        let next = pc + 1 + immediate_len(code, pc);
        let here = span(pc + 1, next);
        if next >= code.len() {
            here
        } else {
            here.union(data_positions(code, next))
        }
    }
}

/// Every `RJUMPV` that the analysis from `pc` on meets has a count below 128, so that its
/// operand length `2 * count + 1` fits in a byte.
pub open spec fn rjumpv_counts_fit(code: Seq<u8>, pc: int) -> bool
    decreases code.len() - pc,
{
    if pc < 0 || pc >= code.len() || analysis_stops(code, pc) {
        true
    } else {
        let next = pc + 1 + immediate_len(code, pc);
        &&& (code[pc] == RJUMPV ==> code[pc + 1] < 128)
        &&& (next >= code.len() || rjumpv_counts_fit(code, next))
    }
}

/// Walking from an instruction at `q` up to a position `pc` that is not data, the walk
/// reaches `pc` as an instruction, and marks its operands as data.
proof fn lemma_walk_reaches(c: Seq<u8>, q: int, pc: int)
    requires
        0 <= q <= pc < c.len(),
        !data_positions(c, q).contains(pc),
        !analysis_stops(c, pc),
    ensures
        span(pc + 1, pc + 1 + immediate_len(c, pc)).subset_of(data_positions(c, q)),
    decreases pc - q,
{
    let next = q + 1 + immediate_len(c, q);
    if q == pc {
        if next < c.len() {
            assert(data_positions(c, q) == span(q + 1, next).union(data_positions(c, next)));
        }
    } else {
        assert(!analysis_stops(c, q));
        assert(immediate_len(c, q) >= 0);
        assert(!span(q + 1, next).contains(pc));
        assert(next <= pc);
        assert(data_positions(c, q) == span(q + 1, next).union(data_positions(c, next)));
        lemma_walk_reaches(c, next, pc);
    }
}

/// The operands of every instruction are data: where position `pc` of `c` holds an
/// instruction (it is not data), the two bytes after `RJUMP`, `RJUMPI` and `CALLF` and the
/// `n` bytes after `PUSHn` are data positions, and so are the count and the entries of a jump
/// table that lie within the code.
pub proof fn lemma_operands_are_data(c: Seq<u8>, pc: int)
    requires
        0 <= pc < c.len(),
        !data_positions(c, 0).contains(pc),
    ensures
        c[pc] == RJUMP || c[pc] == RJUMPI || c[pc] == CALLF ==> data_positions(c, 0).contains(pc + 1)
            && data_positions(c, 0).contains(pc + 2),
        PUSH1 <= c[pc] <= PUSH32 ==> forall|k: int|
            1 <= k <= c[pc] - PUSH1 + 1 ==> #[trigger] data_positions(c, 0).contains(pc + k),
        c[pc] == RJUMPV ==> forall|k: int|
            1 <= k <= 2 * byte_or_zero(c, pc + 1) + 1 && pc + k < c.len()
                ==> #[trigger] data_positions(c, 0).contains(pc + k),
{
    if !analysis_stops(c, pc) {
        lemma_walk_reaches(c, 0, pc);
        assert forall|k: int| 1 <= k <= immediate_len(c, pc) implies #[trigger] data_positions(
            c,
            0,
        ).contains(pc + k) by {
            assert(span(pc + 1, pc + 1 + immediate_len(c, pc)).contains(pc + k));
        }
    }
}

/// The walk from `q` marks only positions past `q`.
proof fn lemma_data_after(c: Seq<u8>, q: int)
    ensures
        forall|x: int| #[trigger] data_positions(c, q).contains(x) ==> x > q,
    decreases c.len() - q,
{
    if !(q < 0 || q >= c.len() || analysis_stops(c, q)) {
        let next = q + 1 + immediate_len(c, q);
        assert(immediate_len(c, q) >= 0);
        if next < c.len() {
            lemma_data_after(c, next);
            assert(data_positions(c, q) == span(q + 1, next).union(data_positions(c, next)));
        } else {
            assert(data_positions(c, q) == span(q + 1, next));
        }
    }
}

/// From an instruction at `q` to an instruction at `pc`, the walk from `q` marks past `pc`
/// what the walk from `pc` marks.
proof fn lemma_walk_split(c: Seq<u8>, q: int, pc: int)
    requires
        0 <= q <= pc < c.len(),
        !data_positions(c, q).contains(pc),
    ensures
        forall|x: int|
            x >= pc ==> (data_positions(c, q).contains(x) <==> data_positions(c, pc).contains(x)),
    decreases pc - q,
{
    if q < pc {
        let next = q + 1 + immediate_len(c, q);
        assert(!analysis_stops(c, q));
        assert(!span(q + 1, next).contains(pc));
        assert(next <= pc);
        assert(data_positions(c, q) == span(q + 1, next).union(data_positions(c, next)));
        lemma_walk_split(c, next, pc);
    }
}

/// The instruction after each instruction is code: where position `pc` of `c` holds an
/// instruction, the position past its operands (three on for `RJUMP`, `RJUMPI` and `CALLF`,
/// `n + 1` on for `PUSHn`, past the table for `RJUMPV`, the next one for the others) is not
/// data.
pub proof fn lemma_next_instruction_is_code(c: Seq<u8>, pc: int)
    requires
        0 <= pc < c.len(),
        !data_positions(c, 0).contains(pc),
    ensures
        c[pc] == RJUMP || c[pc] == RJUMPI || c[pc] == CALLF ==> !data_positions(c, 0).contains(
            pc + 3,
        ),
        PUSH1 <= c[pc] <= PUSH32 ==> !data_positions(c, 0).contains(pc + 2 + (c[pc] - PUSH1)),
        c[pc] == RJUMPV && pc + 1 < c.len() && pc + 2 + 2 * c[pc + 1] <= c.len() ==> !data_positions(c, 0).contains(
            pc + 2 + 2 * c[pc + 1],
        ),
        !(PUSH1 <= c[pc] <= PUSH32) && c[pc] != RJUMP && c[pc] != RJUMPI && c[pc] != CALLF && c[pc]
            != RJUMPV ==> !data_positions(c, 0).contains(pc + 1),
{
    lemma_walk_split(c, 0, pc);
    if !analysis_stops(c, pc) {
        let next = pc + 1 + immediate_len(c, pc);
        if next < c.len() {
            lemma_data_after(c, next);
            assert(data_positions(c, pc) == span(pc + 1, next).union(data_positions(c, next)));
        }
    }
}

proof fn lemma_zero_bits(n: nat)
    ensures
        bits_are(Seq::new(n, |i: int| 0u8), Set::empty()),
{
    let s = Seq::new(n, |i: int| 0u8);
    assert forall|i: int| 0 <= i < 8 * s.len() implies (#[trigger] bit_of(s, i) <==> Set::<
        int,
    >::empty().contains(i)) by {
        let j = (i % 8) as u8;
        assert((0u8 >> j) & 1u8 == 0u8) by (bit_vector);
    }
}

impl Bitvec {
    /// The data positions of `code`: bit `i` is set iff position `i` holds an immediate
    /// operand. The bitmap has 4 spare bytes, for the operands of a `PUSH` near the end.
    pub fn eof_code_bitmap(code: &Buffer) -> (bits: Bitvec)
        requires
            code.spec_is_initialized(),
            rjumpv_counts_fit(code.bytes(), 0),
            code.bytes().len() <= isize::MAX,
        ensures
            bits@.len() == code.bytes().len() / 8 + 5,
            bits_are(bits@, data_positions(code.bytes(), 0)),
    {
        let mut bits = Bitvec::new(code.len() / 8 + 1 + 4);
        proof {
            lemma_zero_bits((code.bytes().len() / 8 + 5) as nat);
        }
        bits.eof_code_bitmap_internal(code);
        bits
    }

    /// Sets the `numbits` bits from `pos` on, in chunks of 16, 8 and fewer bits; returns the
    /// position after them.
    fn mark_span(&mut self, pos: usize, numbits: u8, Ghost(set): Ghost<Set<int>>) -> (end: usize)
        requires
            (pos + numbits) / 8 < old(self)@.len(),
            pos + numbits <= usize::MAX,
            forall|x: int| set.contains(x) ==> x < pos,
        ensures
            end == pos + numbits,
            final(self)@.len() == old(self)@.len(),
            bits_are(old(self)@, set) ==> bits_are(
                final(self)@,
                set.union(span(pos as int, pos + numbits)),
            ),
    {
        let ghost zero = bits_are(self@, set);
        let ghost e = pos + numbits;
        let mut pc = pos;
        let mut numbits = numbits;
        assert(set.union(span(pos as int, pos as int)) =~= set);
        if numbits >= 8 {
            while numbits >= 16
                invariant
                    self@.len() == old(self)@.len(),
                    pos <= pc,
                    pc + numbits == e,
                    e / 8 < self@.len(),
                    e <= usize::MAX,
                    forall|x: int| set.contains(x) ==> x < pos,
                    zero ==> bits_are(self@, set.union(span(pos as int, pc as int))),
                decreases numbits,
            {
                let ghost s0 = self@;
                self.set16(pc);
                proof {
                    if zero {
                        lemma_set16_bits(s0, self@, pc, set.union(span(pos as int, pc as int)));
                        assert(set.union(span(pos as int, pc as int)).union(
                            span(pc as int, pc + 16),
                        ) =~= set.union(span(pos as int, pc + 16)));
                    }
                }
                numbits -= 16;
                pc += 16;
            }
            while numbits >= 8
                invariant
                    self@.len() == old(self)@.len(),
                    pos <= pc,
                    pc + numbits == e,
                    e / 8 < self@.len(),
                    e <= usize::MAX,
                    forall|x: int| set.contains(x) ==> x < pos,
                    zero ==> bits_are(self@, set.union(span(pos as int, pc as int))),
                decreases numbits,
            {
                let ghost s0 = self@;
                self.set8(pc);
                proof {
                    if zero {
                        lemma_set8_bits(s0, self@, pc, set.union(span(pos as int, pc as int)));
                        assert(set.union(span(pos as int, pc as int)).union(
                            span(pc as int, pc + 8),
                        ) =~= set.union(span(pos as int, pc + 8)));
                    }
                }
                numbits -= 8;
                pc += 8;
            }
        }
        if 1 <= numbits && numbits <= 7 {
            let flag = BITS_MASK[numbits as usize];
            assert(flag == (1u16 << numbits as usize) - 1u16) by {
                assert(BITS_MASK@ == seq![0u16, 1, 0b11, 0b111, 0b1111, 0b1_1111, 0b11_1111, 0b111_1111]);
                assert((1u16 << 1usize) - 1u16 == 1u16) by (bit_vector);
                assert((1u16 << 2usize) - 1u16 == 3u16) by (bit_vector);
                assert((1u16 << 3usize) - 1u16 == 7u16) by (bit_vector);
                assert((1u16 << 4usize) - 1u16 == 15u16) by (bit_vector);
                assert((1u16 << 5usize) - 1u16 == 31u16) by (bit_vector);
                assert((1u16 << 6usize) - 1u16 == 63u16) by (bit_vector);
                assert((1u16 << 7usize) - 1u16 == 127u16) by (bit_vector);
            }
            proof {
                lemma_low_bits(0u8, flag, numbits as usize, pc % 8, 0u8);
            }
            let ghost s0 = self@;
            self.set_n(flag, pc);
            proof {
                if zero {
                    lemma_setn_bits(
                        s0,
                        self@,
                        pc,
                        numbits as usize,
                        flag,
                        set.union(span(pos as int, pc as int)),
                    );
                    assert(set.union(span(pos as int, pc as int)).union(
                        span(pc as int, pc + numbits),
                    ) =~= set.union(span(pos as int, pc + numbits)));
                }
            }
            pc += numbits as usize;
        }
        pc
    }

    /// Marks the data positions of `code` in the bit vector; on a bit vector with no bit set
    /// the result is exactly the data positions.
    #[verifier::loop_isolation(false)]
    pub fn eof_code_bitmap_internal(&mut self, code: &Buffer)
        requires
            code.spec_is_initialized(),
            rjumpv_counts_fit(code.bytes(), 0),
            code.bytes().len() <= isize::MAX,
            old(self)@.len() >= code.bytes().len() / 8 + 5,
        ensures
            final(self)@.len() == old(self)@.len(),
            bits_are(old(self)@, Set::empty()) ==> bits_are(
                final(self)@,
                data_positions(code.bytes(), 0),
            ),
    {
        let ghost c = code.bytes();
        let ghost zero = bits_are(self@, Set::empty());
        let ghost mut done: Set<int> = Set::empty();
        let ghost total = data_positions(c, 0);
        let code_len = code.len();
        let mut pc: usize = 0;
        assert(total =~= done.union(data_positions(c, 0)));
        while pc < code_len
            invariant
                self@.len() == old(self)@.len(),
                pc <= code_len + 32,
                rjumpv_counts_fit(c, pc as int),
                zero ==> bits_are(self@, done),
                forall|x: int| done.contains(x) ==> x < pc,
                total == done.union(data_positions(c, pc as int)),
            decreases code_len + 32 - pc,
        {
            let ghost start = pc as int;
            let op = code.get_or_default(pc);
            let mut numbits: u8;
            pc += 1;
            if PUSH1 <= op && op <= PUSH32 {
                numbits = op - PUSH1 + 1;
            } else if op == RJUMP || op == RJUMPI || op == CALLF {
                numbits = 2;
            } else if op == RJUMPV {
                let end = code_len;
                if pc >= end {
                    assert(data_positions(c, start) == Set::<int>::empty());
                    assert(total =~= done);
                    return ;
                }
                numbits = code.get_or_default(pc) * 2 + 1;
                if pc + numbits as usize > end {
                    numbits = (end - pc) as u8;
                }
            } else {
                assert(immediate_len(c, start) == 0);
                if pc < code_len {
                    assert(data_positions(c, start) =~= data_positions(c, pc as int));
                } else {
                    assert(data_positions(c, start) =~= Set::<int>::empty());
                }
                continue ;
            }
            assert(immediate_len(c, start) == numbits);
            let ghost p0 = pc as int;
            let ghost n0 = numbits as int;
            let ghost before = done;
            pc = self.mark_span(pc, numbits, Ghost(before));
            proof {
                done = before.union(span(p0, p0 + n0));
                if pc < code_len {
                    assert(data_positions(c, start) == span(p0, p0 + n0).union(
                        data_positions(c, pc as int),
                    ));
                    assert(total =~= done.union(data_positions(c, pc as int)));
                } else {
                    assert(total =~= done.union(data_positions(c, pc as int)));
                }
            }
        }
        assert(total =~= done);
    }
}

} // verus!
