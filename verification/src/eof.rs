use vstd::prelude::*;

use crate::buffer::{be_u16, Buffer};
use crate::error::Error;

verus! {

pub const OFFSET_TYPES_KIND: usize = 3;

pub const OFFSET_CODE_KIND: usize = 6;

pub const EOF1_VERSION: u8 = 1;

pub const EOF_MAGIC: [u8; 2] = [0xef, 0x00];

const HEADER_LEN_WITHOUT_TERMINATOR: usize = 14;

const SECTION_LEN: usize = 3;

/// `FunctionMetadata` is an EOF function signature.
#[derive(Debug, Clone, Copy, PartialEq, Eq, Structural)]
pub struct FunctionMetadata {
    pub input: u8,
    pub output: u8,
    pub max_stack_height: u16,
}

impl FunctionMetadata {
    pub const MAX_INPUT_ITEMS: u8 = 127;

    pub const MAX_OUTPUT_ITEMS: u8 = 127;

    pub const MAX_STACK_HEIGHT: u16 = 1023;

    /// The outcome of the limits check of the signature of section `section_index`.
    pub open spec fn check(self, section_index: u8) -> Result<(), Error> {
        if self.input > 127 {
            Err(Error::TooManyInputs(section_index, self.input))
        } else if self.output > 127 {
            Err(Error::TooManyOutputs(section_index, self.input))
        } else if self.max_stack_height > 1023 {
            Err(Error::TooLargeMaxStackHeight(section_index, self.input))
        } else {
            Ok(())
        }
    }

    /// The 4-byte encoding: input, output, then the big-endian maximum stack height.
    pub open spec fn encoding(self) -> Seq<u8> {
        seq![
            self.input,
            self.output,
            (self.max_stack_height / 256) as u8,
            (self.max_stack_height % 256) as u8,
        ]
    }

    pub fn assert_valid(&self, section_index: u8) -> (r: Result<(), Error>)
        ensures
            r == self.check(section_index),
    {
        if self.input > Self::MAX_INPUT_ITEMS {
            return Err(Error::TooManyInputs(section_index, self.input));
        }
        if self.output > Self::MAX_OUTPUT_ITEMS {
            return Err(Error::TooManyOutputs(section_index, self.input));
        }
        if self.max_stack_height > Self::MAX_STACK_HEIGHT {
            return Err(Error::TooLargeMaxStackHeight(section_index, self.input));
        }
        Ok(())
    }

    pub fn _to_bytes(&self) -> (v: Vec<u8>)
        ensures
            v@ == self.encoding(),
    {
        let h = self.max_stack_height;
        assert((h >> 8u16) as u8 == (h / 256) as u8 && (h & 0x00ffu16) as u8 == (h % 256) as u8)
            by (bit_vector);
        vec![self.input, self.output, (h >> 8u16) as u8, (h & 0x00ff) as u8]
    }
}

/// The kind of an EOF section.
#[derive(Debug, Clone, Copy, PartialEq, Eq, Structural)]
pub enum SectionKind {
    Type,
    Code,
    Data,
}

/// The section kind that the byte `b` names.
pub open spec fn kind_of(b: u8) -> Option<SectionKind> {
    if b == 1 {
        Some(SectionKind::Type)
    } else if b == 2 {
        Some(SectionKind::Code)
    } else if b == 3 {
        Some(SectionKind::Data)
    } else {
        None
    }
}

impl SectionKind {
    /// The byte that names the kind.
    pub open spec fn byte(self) -> u8 {
        match self {
            SectionKind::Type => 1,
            SectionKind::Code => 2,
            SectionKind::Data => 3,
        }
    }

    pub fn to_u8(&self) -> (b: u8)
        ensures
            b == self.byte(),
    {
        match self {
            SectionKind::Type => 1,
            SectionKind::Code => 2,
            SectionKind::Data => 3,
        }
    }

    /// `Ok` iff the kind is `expected`.
    pub fn assert_kind(&self, expected: SectionKind) -> (r: Result<(), Error>)
        ensures
            r == (if *self == expected {
                Ok(())
            } else {
                Err(Error::MissingSectionHeader(expected.byte(), self.byte()))
            }),
    {
        if *self != expected {
            return Err(Error::MissingSectionHeader(expected.to_u8(), self.to_u8()));
        }
        Ok(())
    }

    /// The kind that `kind` names.
    pub fn try_from(kind: u8) -> (r: Result<Self, Error>)
        ensures
            r == (match kind_of(kind) {
                Some(k) => Ok(k),
                None => Err(Error::UnknownSectionHeader(kind)),
            }),
    {
        if kind == 1 {
            Ok(SectionKind::Type)
        } else if kind == 2 {
            Ok(SectionKind::Code)
        } else if kind == 3 {
            Ok(SectionKind::Data)
        } else {
            Err(Error::UnknownSectionHeader(kind))
        }
    }
}

/// A (kind, size) pair of an EOF header.
#[derive(Debug)]
pub struct Section {
    pub kind: SectionKind,
    pub size: u16,
}

/// The (kind, size) pair at `idx` of `b`.
pub open spec fn section_at(b: Seq<u8>, idx: int) -> Result<(SectionKind, u16), Error> {
    if idx + 3 >= b.len() {
        Err(Error::UnexpectedEndOfFile)
    } else {
        match kind_of(b[idx]) {
            None => Err(Error::UnknownSectionHeader(b[idx])),
            Some(k) => Ok((k, be_u16(b, idx + 1))),
        }
    }
}

/// The count-prefixed list of big-endian `u16` at `idx` of `b`.
pub open spec fn list_at(b: Seq<u8>, idx: int) -> Result<Seq<u16>, Error> {
    if b.len() < idx + 2 {
        Err(Error::UnexpectedEndOfFile)
    } else {
        let count = be_u16(b, idx);
        if b.len() <= idx + 2 + count * 2 {
            Err(Error::UnexpectedEndOfFile)
        } else {
            Ok(Seq::new(count as nat, |i: int| be_u16(b, idx + 2 + 2 * i)))
        }
    }
}

/// The (kind, count, sizes) list at `idx` of `b`.
pub open spec fn section_list_at(b: Seq<u8>, idx: int) -> Result<(SectionKind, Seq<u16>), Error> {
    if idx >= b.len() {
        Err(Error::UnexpectedEndOfFile)
    } else {
        match kind_of(b[idx]) {
            None => Err(Error::UnknownSectionHeader(b[idx])),
            Some(k) => match list_at(b, idx + 1) {
                Err(e) => Err(e),
                Ok(l) => Ok((k, l)),
            },
        }
    }
}

impl Section {
    /// `parse_section` decodes a (kind, size) [pair][Section] from an EOF header.
    fn parse(bytes: &Buffer, idx: usize) -> (r: Result<Self, Error>)
        requires
            bytes.spec_is_initialized(),
        ensures
            section_at(bytes.bytes(), idx as int) == (match r {
                Ok(s) => Ok((s.kind, s.size)),
                Err(e) => Err(e),
            }),
    {
        let len = bytes.len();
        if idx >= usize::MAX - SECTION_LEN || idx + SECTION_LEN >= len {
            return Err(Error::UnexpectedEndOfFile);
        }
        let kind = SectionKind::try_from(bytes.get_or_default(idx))?;
        Ok(Section { kind, size: bytes.get_u16_or_default(idx + 1) })
    }
}

/// A (kind, sizes) list of an EOF header.
#[derive(Debug)]
pub struct SectionList {
    pub kind: SectionKind,
    pub list: Vec<u16>,
}

/// The sum of `s`.
pub open spec fn sum(s: Seq<u16>) -> int
    decreases s.len(),
{
    if s.len() == 0 {
        0
    } else {
        sum(s.drop_last()) + s.last()
    }
}

impl SectionList {
    /// `parse_section_list` decodes a (kind, len, []codeSize) [section list][SectionList] from an EOF header.
    fn parse(bytes: &Buffer, idx: usize) -> (r: Result<Self, Error>)
        requires
            bytes.spec_is_initialized(),
        ensures
            section_list_at(bytes.bytes(), idx as int) == (match r {
                Ok(s) => Ok((s.kind, s.list@)),
                Err(e) => Err(e),
            }),
    {
        if idx >= bytes.len() {
            return Err(Error::UnexpectedEndOfFile);
        }
        let kind = SectionKind::try_from(bytes.get_or_default(idx))?;
        let list = Self::parse_list(bytes, idx + 1)?;
        Ok(SectionList { kind, list })
    }

    // `parse_list` decodes a list of u16..
    fn parse_list(bytes: &Buffer, idx: usize) -> (r: Result<Vec<u16>, Error>)
        requires
            bytes.spec_is_initialized(),
            idx <= bytes.bytes().len(),
        ensures
            list_at(bytes.bytes(), idx as int) == (match r {
                Ok(l) => Ok(l@),
                Err(e) => Err(e),
            }),
    {
        let len = bytes.len();
        if len < 2 || len - 2 < idx {
            return Err(Error::UnexpectedEndOfFile);
        }
        let count = bytes.get_u16_or_default(idx);
        if len - idx - 2 <= (count as usize) * 2 {
            return Err(Error::UnexpectedEndOfFile);
        }
        let mut list: Vec<u16> = Vec::with_capacity(count as usize);
        let mut i: usize = 0;
        while i < count as usize
            invariant
                i <= count,
                idx + 2 + count * 2 < len,
                len == bytes.bytes().len(),
                bytes.spec_is_initialized(),
                list@ == Seq::new(i as nat, |j: int| be_u16(bytes.bytes(), idx + 2 + 2 * j)),
            decreases count - i,
        {
            list.push(bytes.get_u16_or_default(idx + 2 + 2 * i));
            i += 1;
        }
        Ok(list)
    }

    /// The sum of the sizes, as a `usize`: at most 1024 sizes of 16 bits, so it never
    /// overflows.
    fn total_size_wide(&self) -> (t: usize)
        requires
            self.list@.len() <= 1024,
        ensures
            t == sum(self.list@),
            t <= 0xffff * 1024,
    {
        let mut t: usize = 0;
        let mut i: usize = 0;
        while i < self.list.len()
            invariant
                i <= self.list@.len(),
                self.list@.len() <= 1024,
                t == sum(self.list@.take(i as int)),
                t <= 0xffff * i,
            decreases self.list@.len() - i,
        {
            proof {
                assert(self.list@.take(i + 1).drop_last() == self.list@.take(i as int));
            }
            t = t + self.list[i] as usize;
            i += 1;
        }
        assert(self.list@.take(i as int) == self.list@);
        t
    }

    /// The sum of the sizes.
    pub fn total_size(&self) -> (t: u16)
        requires
            sum(self.list@) <= u16::MAX,
        ensures
            t == sum(self.list@),
    {
        let mut t: u16 = 0;
        let mut i: usize = 0;
        while i < self.list.len()
            invariant
                i <= self.list@.len(),
                sum(self.list@) <= u16::MAX,
                t == sum(self.list@.take(i as int)),
            decreases self.list@.len() - i,
        {
            proof {
                lemma_sum_prefix_le(self.list@, (i + 1) as int);
                assert(self.list@.take(i + 1).drop_last() == self.list@.take(i as int));
            }
            t = t + self.list[i];
            i += 1;
        }
        assert(self.list@.take(i as int) == self.list@);
        t
    }
}

/// A prefix sums to no more than the whole.
pub proof fn lemma_sum_prefix_le(s: Seq<u16>, k: int)
    requires
        0 <= k <= s.len(),
    ensures
        sum(s.take(k)) <= sum(s),
        0 <= sum(s.take(k)),
    decreases s.len(),
{
    if k < s.len() {
        lemma_sum_prefix_le(s.drop_last(), k);
        assert(s.drop_last().take(k) == s.take(k));
    } else {
        assert(s.take(k) == s);
    }
    if s.len() > 0 {
        lemma_sum_nonneg(s.drop_last());
    }
    lemma_sum_nonneg(s.take(k));
}

pub proof fn lemma_sum_nonneg(s: Seq<u16>)
    ensures
        sum(s) >= 0,
    decreases s.len(),
{
    if s.len() > 0 {
        lemma_sum_nonneg(s.drop_last());
    }
}

/// The decoded contents of an EOF container.
pub ghost struct ContainerModel {
    pub types: Seq<FunctionMetadata>,
    pub code: Seq<Seq<u8>>,
    pub data: Seq<u8>,
}

/// `Container` is an EOF container object.
#[derive(Debug, PartialEq, Eq)]
pub struct Container {
    pub types: Vec<FunctionMetadata>,
    pub code: Vec<Buffer>,
    pub data: Buffer,
}

impl Container {
    /// The signatures, code sections and data of the container.
    pub open spec fn model(&self) -> ContainerModel {
        ContainerModel {
            types: self.types@,
            code: self.code@.map_values(|c: Buffer| c.bytes()),
            data: self.data.bytes(),
        }
    }

    /// Every buffer of the container is initialized.
    /// Every buffer of the container holds its own copy of its bytes.
    pub open spec fn owned(&self) -> bool {
        &&& self.data.source() is Owned
        &&& forall|i: int| 0 <= i < self.code@.len() ==> #[trigger] self.code@[i].source() is Owned
    }

    pub open spec fn initialized(&self) -> bool {
        &&& self.data.spec_is_initialized()
        &&& forall|i: int| 0 <= i < self.code@.len() ==> #[trigger] self.code@[i].spec_is_initialized()
    }
}

pub open spec fn spec_has_eof_magic(b: Seq<u8>) -> bool {
    b.len() >= 2 && b[0] == 0xefu8 && b[1] == 0x00u8
}

pub fn has_eof_magic(bytes: &Buffer) -> (r: bool)
    requires
        bytes.spec_is_initialized(),
    ensures
        r == spec_has_eof_magic(bytes.bytes()),
{
    EOF_MAGIC.len() <= bytes.len() && bytes.get_or_default(0) == EOF_MAGIC[0]
        && bytes.get_or_default(1) == EOF_MAGIC[1]
}

fn assert_eof_version_1(bytes: &Buffer) -> (r: Result<(), Error>)
    requires
        bytes.spec_is_initialized(),
        bytes.bytes().len() > 2,
    ensures
        r == (if bytes.bytes()[2] == 1 {
            Ok(())
        } else {
            Err(Error::InvalidVersion(bytes.bytes()[2]))
        }),
{
    if 2 < bytes.len() && bytes.get_or_default(2) == EOF1_VERSION {
        return Ok(());
    }
    Err(Error::InvalidVersion(bytes.get_or_default(2)))
}

/// The offset of the header terminator after `n` code sections.
pub open spec fn terminator_offset(n: int) -> int {
    12 + 2 * n
}

/// The type size, code sizes and data size that the header of `b` declares, or the first
/// header error.
#[verifier::opaque]
pub open spec fn header_of(b: Seq<u8>) -> Result<(u16, Seq<u16>, u16), Error> {
    if !spec_has_eof_magic(b) {
        Err(Error::InvalidMagic)
    } else if b.len() < 14 {
        Err(Error::UnexpectedEndOfFile)
    } else if b[2] != 1 {
        Err(Error::InvalidVersion(b[2]))
    } else {
        match section_at(b, 3) {
            Err(e) => Err(e),
            Ok((tk, ts)) => if tk != SectionKind::Type {
                Err(Error::MissingSectionHeader(1, tk.byte()))
            } else if ts < 4 || ts % 4 != 0 {
                Err(Error::InvalidTypeSizeMustBeDivisibleBy4(ts))
            } else if ts / 4 > 1024 {
                Err(Error::InvalidTypeSizeExceed(ts))
            } else {
                match section_list_at(b, 6) {
                    Err(e) => Err(e),
                    Ok((ck, sizes)) => if ck != SectionKind::Code {
                        Err(Error::MissingSectionHeader(2, ck.byte()))
                    } else if sizes.len() != ts / 4 {
                        Err(Error::MismatchCodeSize((ts / 4) as usize, sizes.len() as usize))
                    } else {
                        match section_at(b, 9 + 2 * sizes.len() as int) {
                            Err(e) => Err(e),
                            Ok((dk, ds)) => if dk != SectionKind::Data {
                                Err(Error::MissingSectionHeader(3, dk.byte()))
                            } else if b[terminator_offset(sizes.len() as int)] != 0 {
                                Err(Error::MissingTerminator(b[terminator_offset(sizes.len() as int)]))
                            } else {
                                Ok((ts, sizes, ds))
                            },
                        }
                    },
                }
            },
        }
    }
}

/// The container size that a header declares.
pub open spec fn declared_size(ts: u16, sizes: Seq<u16>, ds: u16) -> int {
    terminator_offset(sizes.len() as int) + ts + sum(sizes) + ds + 1
}

/// The declared sizes of a well-formed header add up within `u16`, as the decoder adds them
/// in `u16` arithmetic.
pub open spec fn sizes_fit(b: Seq<u8>) -> bool {
    header_of(b) matches Ok((ts, sizes, ds)) ==> declared_size(ts, sizes, ds) <= u16::MAX
}

/// The signature `i` of the type section that starts at `base`.
pub open spec fn metadata_at(b: Seq<u8>, base: int, i: int) -> FunctionMetadata {
    FunctionMetadata {
        input: b[base + 4 * i],
        output: b[base + 4 * i + 1],
        max_stack_height: be_u16(b, base + 4 * i + 2),
    }
}

/// The first limits error among the signatures from `i` on.
pub open spec fn metadata_error(types: Seq<FunctionMetadata>, i: int) -> Option<Error>
    decreases types.len() - i,
{
    if i < 0 || i >= types.len() {
        None
    } else {
        match types[i].check(i as u8) {
            Err(e) => Some(e),
            Ok(_) => metadata_error(types, i + 1),
        }
    }
}

/// The first empty code section from `i` on.
pub open spec fn empty_code_section(sizes: Seq<u16>, i: int) -> Option<int>
    decreases sizes.len() - i,
{
    if i < 0 || i >= sizes.len() {
        None
    } else if sizes[i] == 0 {
        Some(i)
    } else {
        empty_code_section(sizes, i + 1)
    }
}

/// Where code section `i` starts.
pub open spec fn code_offset(ts: u16, sizes: Seq<u16>, i: int) -> int {
    terminator_offset(sizes.len() as int) + 1 + ts + sum(sizes.take(i))
}

/// The container that `b` encodes, or the first error the decoder meets.
#[verifier::opaque]
pub open spec fn decode(b: Seq<u8>) -> Result<ContainerModel, Error> {
    match header_of(b) {
        Err(e) => Err(e),
        Ok((ts, sizes, ds)) => {
            let expected = declared_size(ts, sizes, ds);
            let base = terminator_offset(sizes.len() as int) + 1;
            let types = Seq::new(sizes.len(), |i: int| metadata_at(b, base, i));
            if expected > u16::MAX || b.len() != expected {
                Err(Error::InvalidContainerSize(b.len() as usize, expected as usize))
            } else if metadata_error(types, 0) is Some {
                Err(metadata_error(types, 0).unwrap())
            } else if types[0].input != 0 || types[0].output != 0 {
                Err(Error::InvalidSection0Type(types[0].input, types[0].output))
            } else if empty_code_section(sizes, 0) is Some {
                Err(Error::InvalidCodeSize(empty_code_section(sizes, 0).unwrap() as usize))
            } else {
                let data_start = code_offset(ts, sizes, sizes.len() as int);
                Ok(
                    ContainerModel {
                        types,
                        code: Seq::new(
                            sizes.len(),
                            |i: int|
                                b.subrange(
                                    code_offset(ts, sizes, i),
                                    code_offset(ts, sizes, i) + sizes[i],
                                ),
                        ),
                        data: b.subrange(data_start, data_start + ds),
                    },
                )
            }
        },
    }
}

impl Container {
    /// `unmarshal_binary` decodes an EOF [Container].
    #[verifier::loop_isolation(false)]
    pub fn unmarshal_binary(bytes: &Buffer) -> (r: Result<Self, Error>)
        requires
            bytes.spec_is_initialized(),
        ensures
            decode(bytes.bytes()) == (match r {
                Ok(c) => Ok(c.model()),
                Err(e) => Err(e),
            }),
            r matches Ok(c) ==> c.initialized() && c.owned(),
    {
        let ghost b = bytes.bytes();
        reveal(decode);
        reveal(header_of);
        if !has_eof_magic(bytes) {
            return Err(Error::InvalidMagic);
        }
        if bytes.len() < HEADER_LEN_WITHOUT_TERMINATOR {
            return Err(Error::UnexpectedEndOfFile);
        }
        assert_eof_version_1(bytes)?;
        let type_section = Section::parse(bytes, OFFSET_TYPES_KIND)?;
        type_section.kind.assert_kind(SectionKind::Type)?;
        if type_section.size < 4 || type_section.size % 4 != 0 {
            return Err(Error::InvalidTypeSizeMustBeDivisibleBy4(type_section.size));
        }
        let type_section_size = (type_section.size / 4) as usize;
        if type_section_size > 1024 {
            return Err(Error::InvalidTypeSizeExceed(type_section.size));
        }
        let code_section_list = SectionList::parse(bytes, OFFSET_CODE_KIND)?;
        code_section_list.kind.assert_kind(SectionKind::Code)?;
        if code_section_list.list.len() != type_section_size {
            return Err(Error::MismatchCodeSize(type_section_size, code_section_list.list.len()));
        }
        let offset_data_kind = OFFSET_CODE_KIND + 2 + 2 * code_section_list.list.len() + 1;
        let data_section = Section::parse(bytes, offset_data_kind)?;
        data_section.kind.assert_kind(SectionKind::Data)?;
        let offset_terminator = offset_data_kind + 3;
        if offset_terminator >= bytes.len() {
            return Err(Error::UnexpectedEndOfFile);
        }
        let terminator = bytes.get_or_default(offset_terminator);
        if terminator != 0 {
            return Err(Error::MissingTerminator(terminator));
        }
        let ghost ts = type_section.size;
        let ghost sizes = code_section_list.list@;
        let ghost ds = data_section.size;
        assert(header_of(b) == Ok::<(u16, Seq<u16>, u16), Error>((ts, sizes, ds)));
        proof {
            lemma_sum_nonneg(sizes);
        }
        let total = code_section_list.total_size_wide();
        assert(offset_terminator <= 4096);
        let expected_size = offset_terminator + type_section.size as usize
            + total + data_section.size as usize + 1;
        if expected_size > 0xffff || bytes.len() != expected_size {
            return Err(Error::InvalidContainerSize(bytes.len(), expected_size));
        }
        let idx = offset_terminator + 1;
        let ghost all = Seq::new(sizes.len(), |i: int| metadata_at(b, idx as int, i));
        let mut types: Vec<FunctionMetadata> = Vec::with_capacity(type_section_size);
        let mut section_index: usize = 0;
        while section_index < type_section_size
            invariant
                section_index <= type_section_size,
                type_section_size == sizes.len(),
                4 * type_section_size == ts,
                idx + ts <= bytes.bytes().len(),
                bytes.spec_is_initialized(),
                b == bytes.bytes(),
                types@ == all.take(section_index as int),
                metadata_error(all, 0) == metadata_error(all, section_index as int),
            decreases type_section_size - section_index,
        {
            let signature = FunctionMetadata {
                input: bytes.get_or_default(idx + section_index * 4),
                output: bytes.get_or_default(idx + section_index * 4 + 1),
                max_stack_height: bytes.get_u16_or_default(idx + section_index * 4 + 2),
            };
            assert(signature == all[section_index as int]);
            signature.assert_valid(section_index as u8)?;
            types.push(signature);
            section_index += 1;
            assert(all.take(section_index as int) == all.take(section_index - 1).push(signature));
        }
        assert(types@ == all);
        if types[0].input != 0 || types[0].output != 0 {
            return Err(Error::InvalidSection0Type(types[0].input, types[0].output));
        }
        let mut idx = idx + (type_section.size as usize);
        let mut code: Vec<Buffer> = Vec::with_capacity(code_section_list.list.len());
        let mut i: usize = 0;
        while i < code_section_list.list.len()
            invariant
                i <= sizes.len(),
                code_section_list.list@ == sizes,
                bytes.spec_is_initialized(),
                b == bytes.bytes(),
                b.len() == declared_size(ts, sizes, ds),
                idx == code_offset(ts, sizes, i as int),
                code@.len() == i,
                forall|j: int| 0 <= j < i ==> #[trigger] code@[j].spec_is_initialized(),
                forall|j: int| 0 <= j < i ==> #[trigger] code@[j].source() is Owned,
                forall|j: int|
                    0 <= j < i ==> #[trigger] code@[j].bytes() == b.subrange(
                        code_offset(ts, sizes, j),
                        code_offset(ts, sizes, j) + sizes[j],
                    ),
                empty_code_section(sizes, 0) == empty_code_section(sizes, i as int),
            decreases sizes.len() - i,
        {
            let size = code_section_list.list[i] as usize;
            if size == 0 {
                return Err(Error::InvalidCodeSize(i));
            }
            proof {
                lemma_sum_prefix_le(sizes, (i + 1) as int);
                assert(sizes.take(i + 1).drop_last() == sizes.take(i as int));
            }
            code.push(Buffer::from_slice(&bytes.as_slice()[idx..idx + size]));
            idx += size;
            i += 1;
        }
        proof {
            assert(sizes.take(sizes.len() as int) == sizes);
        }
        let data = Buffer::from_slice(&bytes.as_slice()[idx..idx + (data_section.size as usize)]);
        let c = Container { types, code, data };
        assert(c.model().code =~= decode(b)->Ok_0.code);
        Ok(c)
    }
}

/// The big-endian bytes of `x`.
pub open spec fn be_bytes(x: u16) -> Seq<u8> {
    seq![(x / 256) as u8, (x % 256) as u8]
}

/// The binary form of a container: header, signatures, code sections, data.
#[verifier::opaque]
pub open spec fn encode(m: ContainerModel) -> Seq<u8> {
    seq![0xefu8, 0x00u8, 1u8, 1u8] + be_bytes((m.types.len() * 4) as u16) + seq![2u8] + be_bytes(
        m.code.len() as u16,
    ) + m.code.map_values(|c: Seq<u8>| be_bytes(c.len() as u16)).flatten() + seq![3u8]
        + be_bytes(m.data.len() as u16) + seq![0u8] + m.types.map_values(
        |t: FunctionMetadata| t.encoding(),
    ).flatten() + m.code.flatten() + m.data
}

fn push_be_u16(v: &mut Vec<u8>, x: u16)
    ensures
        final(v)@ == old(v)@ + be_bytes(x),
{
    assert((x >> 8u16) as u8 == (x / 256) as u8 && (x & 0x00ffu16) as u8 == (x % 256) as u8)
        by (bit_vector);
    v.push((x >> 8u16) as u8);
    v.push((x & 0x00ff) as u8);
}

impl Container {
    /// `marshal_binary` encodes an EOF [Container] into binary format.
    pub fn _marshal_binary(&self) -> (r: Buffer)
        requires
            self.initialized(),
            self.types@.len() * 4 <= usize::MAX,
        ensures
            r.bytes() == encode(self.model()),
            r.spec_is_initialized(),
    {
        let ghost m = self.model();
        reveal(encode);
        let mut bytes: Vec<u8> = Vec::new();
        bytes.push(EOF_MAGIC[0]);
        bytes.push(EOF_MAGIC[1]);
        bytes.push(EOF1_VERSION);
        // type section
        bytes.push(SectionKind::Type.to_u8());
        push_be_u16(&mut bytes, (self.types.len() * 4) as u16);
        // code section
        bytes.push(SectionKind::Code.to_u8());
        push_be_u16(&mut bytes, self.code.len() as u16);
        let ghost sizes = m.code.map_values(|c: Seq<u8>| be_bytes(c.len() as u16));
        let ghost head = bytes@;
        let mut i: usize = 0;
        while i < self.code.len()
            invariant
                i <= self.code@.len(),
                self.initialized(),
                m == self.model(),
                sizes == m.code.map_values(|c: Seq<u8>| be_bytes(c.len() as u16)),
                sizes.len() == self.code@.len(),
                bytes@ == head + sizes.take(i as int).flatten(),
            decreases self.code@.len() - i,
        {
            assert(self.code@[i as int].spec_is_initialized());
            let n = self.code[i].len();
            push_be_u16(&mut bytes, n as u16);
            proof {
                assert(m.code[i as int] == self.code@[i as int].bytes());
                assert(sizes[i as int] == be_bytes(n as u16));
                assert(sizes.take(i + 1) == sizes.take(i as int).push(sizes[i as int]));
                sizes.take(i as int).lemma_flatten_push(sizes[i as int]);
            }
            i += 1;
        }
        assert(sizes.take(sizes.len() as int) == sizes);
        // data section
        bytes.push(SectionKind::Data.to_u8());
        push_be_u16(&mut bytes, self.data.len() as u16);
        // terminator
        bytes.push(0u8);
        // write section contents
        let ghost sigs = m.types.map_values(|t: FunctionMetadata| t.encoding());
        let ghost head = bytes@;
        let mut i: usize = 0;
        while i < self.types.len()
            invariant
                i <= self.types@.len(),
                m == self.model(),
                sigs == m.types.map_values(|t: FunctionMetadata| t.encoding()),
                sigs.len() == self.types@.len(),
                bytes@ == head + sigs.take(i as int).flatten(),
            decreases self.types@.len() - i,
        {
            let sig = self.types[i]._to_bytes();
            bytes.push(sig[0]);
            bytes.push(sig[1]);
            bytes.push(sig[2]);
            bytes.push(sig[3]);
            proof {
                assert(sigs.take(i + 1) == sigs.take(i as int).push(sigs[i as int]));
                sigs.take(i as int).lemma_flatten_push(sigs[i as int]);
                assert(sigs[i as int] == self.types@[i as int].encoding());
                assert(sig@ =~= sigs[i as int]);
            }
            i += 1;
        }
        assert(sigs.take(sigs.len() as int) == sigs);
        let ghost head = bytes@;
        let mut i: usize = 0;
        while i < self.code.len()
            invariant
                i <= self.code@.len(),
                self.initialized(),
                m == self.model(),
                bytes@ == head + m.code.take(i as int).flatten(),
            decreases self.code@.len() - i,
        {
            assert(self.code@[i as int].spec_is_initialized());
            let part = self.code[i].as_slice();
            let mut j: usize = 0;
            let ghost before = bytes@;
            while j < part.len()
                invariant
                    j <= part@.len(),
                    bytes@ == before + part@.take(j as int),
                decreases part@.len() - j,
            {
                bytes.push(part[j]);
                j += 1;
                assert(part@.take(j as int) == part@.take(j - 1).push(part@[j - 1]));
            }
            assert(part@.take(j as int) == part@);
            proof {
                assert(m.code.take(i + 1) == m.code.take(i as int).push(m.code[i as int]));
                m.code.take(i as int).lemma_flatten_push(m.code[i as int]);
            }
            i += 1;
        }
        assert(m.code.take(m.code.len() as int) == m.code);
        let part = self.data.as_slice();
        let ghost before = bytes@;
        let mut j: usize = 0;
        while j < part.len()
            invariant
                j <= part@.len(),
                bytes@ == before + part@.take(j as int),
            decreases part@.len() - j,
        {
            bytes.push(part[j]);
            j += 1;
            assert(part@.take(j as int) == part@.take(j - 1).push(part@[j - 1]));
        }
        assert(part@.take(j as int) == part@);
        assert(bytes@ =~= encode(m));
        Buffer::from_vec(bytes)
    }
}

} // verus!
