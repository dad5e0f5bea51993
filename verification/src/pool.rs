//! The string pool behind every record: strings are copied into one byte
//! buffer and records hold `offset + len` ranges into it.

use vstd::prelude::*;
use vstd::utf8::encode_utf8;

verus! {

/// A string as a byte range of its handle's pool. Absent and empty are both
/// a zero length.
#[derive(Clone, Copy, Debug, PartialEq, Eq, Structural)]
pub struct LiteParseStr {
    pub offset: u32,
    pub len: u32,
}

/// The absent string.
pub open spec fn absent_str() -> LiteParseStr {
    LiteParseStr { offset: 0, len: 0 }
}

pub struct Pool {
    bytes: Vec<u8>,
}

/// The bytes `s` names in `pool`, when the range lies inside it.
pub open spec fn read_str(pool: Seq<u8>, s: LiteParseStr) -> Option<Seq<u8>> {
    if s.offset + s.len <= pool.len() {
        Some(pool.subrange(s.offset as int, s.offset + s.len))
    } else {
        None
    }
}

impl Pool {
    pub closed spec fn view(&self) -> Seq<u8> {
        self.bytes@
    }

    pub fn new() -> (p: Self)
        ensures
            p.view() == Seq::<u8>::empty(),
    {
        Pool { bytes: Vec::new() }
    }

    pub fn len(&self) -> (n: usize)
        ensures
            n == self.view().len(),
    {
        self.bytes.len()
    }

    /// The pool's bytes, for the view that exposes them.
    pub fn as_bytes(&self) -> (b: &[u8])
        ensures
            b@ == self.view(),
    {
        self.bytes.as_slice()
    }

    /// Copy `value` in and return its range. The pool must stay addressable
    /// by `u32` offsets.
    pub fn push(&mut self, value: &str) -> (s: LiteParseStr)
        requires
            old(self).view().len() + encode_utf8(value@).len() <= u32::MAX,
        ensures
            final(self).view() == old(self).view() + encode_utf8(value@),
            s.offset == old(self).view().len(),
            s.len == encode_utf8(value@).len(),
    {
        let bytes = value.as_bytes();
        let offset = self.bytes.len() as u32;
        let ghost start = self.bytes@;
        let mut i: usize = 0;
        while i < bytes.len()
            invariant
                0 <= i <= bytes@.len(),
                bytes@ == encode_utf8(value@),
                self.bytes@ == start + bytes@.take(i as int),
            decreases bytes@.len() - i,
        {
            self.bytes.push(bytes[i]);
            i = i + 1;
            assert(self.bytes@ =~= start + bytes@.take(i as int));
        }
        assert(bytes@.take(bytes@.len() as int) =~= bytes@);
        LiteParseStr { offset, len: bytes.len() as u32 }
    }

    /// Copy an optional string in; absent is the zero range and adds
    /// nothing.
    pub fn push_opt(&mut self, value: Option<&str>) -> (s: LiteParseStr)
        requires
            value matches Some(v) ==> old(self).view().len() + encode_utf8(v@).len() <= u32::MAX,
        ensures
            match value {
                Some(v) => final(self).view() == old(self).view() + encode_utf8(v@) && s.offset
                    == old(self).view().len() && s.len == encode_utf8(v@).len(),
                None => final(self).view() == old(self).view() && s == absent_str(),
            },
    {
        match value {
            Some(v) => self.push(v),
            None => LiteParseStr { offset: 0, len: 0 },
        }
    }

    /// The bytes `s` names, when its range lies inside the pool.
    pub fn read(&self, s: LiteParseStr) -> (r: Option<&[u8]>)
        ensures
            match read_str(self.view(), s) {
                Some(b) => r matches Some(x) && x@ == b,
                None => r is None,
            },
    {
        let start = s.offset as usize;
        let count = s.len as usize;
        if count <= self.bytes.len() && start <= self.bytes.len() - count {
            Some(&self.bytes.as_slice()[start..start + count])
        } else {
            None
        }
    }
}

/// A string read back from the pool is the string that was pushed, and
/// pushing never changes what an earlier valid range reads.
pub proof fn lemma_pool_round_trip(before: Seq<u8>, value: Seq<char>, earlier: LiteParseStr)
    requires
        before.len() + encode_utf8(value).len() <= u32::MAX,
    ensures
        read_str(
            before + encode_utf8(value),
            LiteParseStr { offset: before.len() as u32, len: encode_utf8(value).len() as u32 },
        ) == Some(encode_utf8(value)),
        read_str(before, earlier) is Some ==> read_str(before + encode_utf8(value), earlier)
            == read_str(before, earlier),
{
    let after = before + encode_utf8(value);
    assert(after.subrange(before.len() as int, after.len() as int) =~= encode_utf8(value));
    if read_str(before, earlier) is Some {
        assert(after.subrange(earlier.offset as int, earlier.offset + earlier.len)
            =~= before.subrange(earlier.offset as int, earlier.offset + earlier.len));
    }
}

} // verus!
