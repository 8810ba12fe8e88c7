use std::ops::Range;
use vstd::prelude::*;

verus! {

/// Where the bytes of a [`Buffer`] come from.
#[derive(Clone, Debug, PartialEq, Eq)]
pub enum BufferSource {
    /// Bytes owned by the buffer itself.
    Owned(Vec<u8>),
    /// A window `range` of the data of the account `key`, with its bytes.
    Account { key: [u8; 32], start: usize, end: usize, data: Vec<u8> },
    /// A window of an account whose data has not been attached yet.
    AccountUninit { key: [u8; 32], start: usize, end: usize },
}

/// An immutable byte buffer: owned bytes or a window into account data.
#[derive(Clone, Debug, PartialEq, Eq)]
pub struct Buffer {
    inner: BufferSource,
}

impl Buffer {
    /// The bytes the buffer gives access to; empty while it is uninitialized.
    pub closed spec fn bytes(&self) -> Seq<u8> {
        match self.inner {
            BufferSource::Owned(v) => v@,
            BufferSource::Account { data, .. } => data@,
            BufferSource::AccountUninit { .. } => Seq::empty(),
        }
    }

    /// Whether the buffer refers to an account whose data is not attached.
    pub closed spec fn spec_is_initialized(&self) -> bool {
        !(self.inner is AccountUninit)
    }

    pub closed spec fn source(&self) -> BufferSource {
        self.inner
    }

    /// Where the bytes come from.
    pub fn inner(&self) -> (r: &BufferSource)
        ensures
            *r == self.source(),
    {
        &self.inner
    }

    /// A buffer over the bytes `data` of the window `range` of account `key`.
    pub fn from_account(key: [u8; 32], range: Range<usize>, data: &[u8]) -> (b: Self)
        ensures
            b.bytes() == data@,
            b.spec_is_initialized(),
            b.source() matches BufferSource::Account { key: k, start, end, .. } && k == key
                && start == range.start && end == range.end,
    {
        Buffer {
            inner: BufferSource::Account {
                key,
                start: range.start,
                end: range.end,
                data: vstd::slice::slice_to_vec(data),
            },
        }
    }

    /// A buffer over a window of an account whose data is not attached yet.
    pub fn account_uninit(key: [u8; 32], range: Range<usize>) -> (b: Self)
        ensures
            !b.spec_is_initialized(),
            b.bytes() == Seq::<u8>::empty(),
            b.source() == (BufferSource::AccountUninit { key, start: range.start, end: range.end }),
    {
        Buffer { inner: BufferSource::AccountUninit { key, start: range.start, end: range.end } }
    }

    /// A buffer that owns `v`.
    pub fn from_vec(v: Vec<u8>) -> (b: Self)
        ensures
            b.bytes() == v@,
            b.source() == BufferSource::Owned(v),
            b.spec_is_initialized(),
    {
        Buffer { inner: BufferSource::Owned(v) }
    }

    /// A buffer that owns a copy of `v`.
    pub fn from_slice(v: &[u8]) -> (b: Self)
        ensures
            b.bytes() == v@,
            b.source() is Owned,
            b.spec_is_initialized(),
    {
        Self::from_vec(vstd::slice::slice_to_vec(v))
    }

    /// The empty owned buffer.
    pub fn empty() -> (b: Self)
        ensures
            b.bytes() == Seq::<u8>::empty(),
            b.source() is Owned,
            b.spec_is_initialized(),
    {
        Self::from_vec(Vec::new())
    }

    /// Whether the buffer's bytes are attached.
    pub fn is_initialized(&self) -> (r: bool)
        ensures
            r == self.spec_is_initialized(),
    {
        !matches!(self.inner, BufferSource::AccountUninit { .. })
    }

    /// The account and window of an uninitialized buffer.
    pub fn uninit_data(&self) -> (r: Option<([u8; 32], Range<usize>)>)
        ensures
            self.spec_is_initialized() ==> r is None,
            self.source() matches BufferSource::AccountUninit { key, start, end }
                ==> r matches Some((k, range)) && k == key && range.start == start && range.end == end,
    {
        match &self.inner {
            BufferSource::AccountUninit { key, start, end } => Some((*key, *start..*end)),
            _ => None,
        }
    }

    /// The bytes of an initialized buffer.
    pub fn as_slice(&self) -> (s: &[u8])
        requires
            self.spec_is_initialized(),
        ensures
            s@ == self.bytes(),
    {
        match &self.inner {
            BufferSource::Owned(v) => v.as_slice(),
            BufferSource::Account { data, .. } => data.as_slice(),
            BufferSource::AccountUninit { .. } => &[],
        }
    }

    /// The number of bytes of an initialized buffer.
    pub fn len(&self) -> (n: usize)
        requires
            self.spec_is_initialized(),
        ensures
            n == self.bytes().len(),
    {
        self.as_slice().len()
    }

    /// The byte at `index`, or 0 past the end.
    pub fn get_or_default(&self, index: usize) -> (b: u8)
        requires
            self.spec_is_initialized(),
        ensures
            b == byte_or_zero(self.bytes(), index as int),
    {
        let s = self.as_slice();
        if index < s.len() {
            s[index]
        } else {
            0
        }
    }

    /// The big-endian `u16` at `index`, reading 0 past the end.
    pub fn get_u16_or_default(&self, index: usize) -> (r: u16)
        requires
            self.spec_is_initialized(),
        ensures
            r == be_u16(self.bytes(), index as int),
    {
        let hi = self.get_or_default(index);
        let _len = self.len();
        let lo = match index.checked_add(1) {
            Some(next) => self.get_or_default(next),
            None => 0,
        };
        (hi as u16) * 256 + (lo as u16)
    }

    /// The big-endian two's complement `i16` at `index`, reading 0 past the end.
    pub fn get_i16_or_default(&self, index: usize) -> (r: i16)
        requires
            self.spec_is_initialized(),
        ensures
            r == be_i16(self.bytes(), index as int),
    {
        let u = self.get_u16_or_default(index);
        if u >= 0x8000 {
            (u as i32 - 0x10000) as i16
        } else {
            u as i16
        }
    }

    /// The copy of the bytes of an initialized buffer.
    pub fn to_vec(&self) -> (v: Vec<u8>)
        requires
            self.spec_is_initialized(),
        ensures
            v@ == self.bytes(),
    {
        vstd::slice::slice_to_vec(self.as_slice())
    }
}

/// The byte at `i` of `s`, 0 outside of it.
pub open spec fn byte_or_zero(s: Seq<u8>, i: int) -> u8 {
    if 0 <= i < s.len() { s[i] } else { 0 }
}

/// The big-endian `u16` at `i` of `s`, reading 0 outside of it.
pub open spec fn be_u16(s: Seq<u8>, i: int) -> u16 {
    (byte_or_zero(s, i) * 256 + byte_or_zero(s, i + 1)) as u16
}

/// The big-endian two's complement `i16` at `i` of `s`, reading 0 outside of it.
pub open spec fn be_i16(s: Seq<u8>, i: int) -> int {
    let u = be_u16(s, i);
    if u >= 0x8000 {
        u - 0x10000
    } else {
        u as int
    }
}

impl Default for Buffer {
    fn default() -> (b: Self)
        ensures
            b.bytes() == Seq::<u8>::empty(),
            b.source() is Owned,
    {
        Self::empty()
    }
}

} // verus!
