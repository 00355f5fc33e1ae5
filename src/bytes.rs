use vstd::prelude::*;

use byteorder::ByteOrder;

use crate::error::DecodeError;

verus! {

/// The little-endian 16-bit integer at `i` of `d`.
pub open spec fn le16(d: Seq<u8>, i: int) -> u16 {
    (d[i] as int + 256 * d[i + 1] as int) as u16
}

/// The little-endian 32-bit integer at `i` of `d`.
pub open spec fn le32(d: Seq<u8>, i: int) -> u32 {
    (d[i] as int + 256 * d[i + 1] as int + 65536 * d[i + 2] as int + 16777216 * d[i
        + 3] as int) as u32
}

/// Relies on byteorder's LittleEndian::read_u16: the first two bytes of its
/// argument, low byte first.
#[verifier::external_body]
fn le_u16_at(data: &[u8], pos: usize) -> (r: u16)
    requires
        pos + 2 <= data@.len(),
    ensures
        r as int == data@[pos as int] as int + 256 * data@[pos + 1] as int,
{
    byteorder::LittleEndian::read_u16(&data[pos..])
}

/// Relies on byteorder's LittleEndian::read_u32: the first four bytes of its
/// argument, low byte first.
#[verifier::external_body]
fn le_u32_at(data: &[u8], pos: usize) -> (r: u32)
    requires
        pos + 4 <= data@.len(),
    ensures
        r as int == data@[pos as int] as int + 256 * data@[pos + 1] as int + 65536 * data@[pos
            + 2] as int + 16777216 * data@[pos + 3] as int,
{
    byteorder::LittleEndian::read_u32(&data[pos..])
}

/// `r`, with `pos` the reader's position after it, is what the layout `s`
/// gives: the same value and position where `s` succeeds, the same error
/// where it fails.
pub open spec fn outcome<X: View>(r: Result<X, DecodeError>, pos: int, s: Result<(X::V, int), DecodeError>) -> bool {
    match s {
        Ok((m, q)) => r matches Ok(x) && x@ == m && pos == q,
        Err(e) => r == Err::<X, DecodeError>(e),
    }
}

/// The text that `String::from_utf8` makes of `b`, or `None` where `b` is
/// not valid UTF-8.
pub uninterp spec fn utf8_text(b: Seq<u8>) -> Option<Seq<char>>;

/// Relies on String::from_utf8: the text of the bytes where they are valid
/// UTF-8, and an error otherwise.
#[verifier::external_body]
fn text_of(b: Vec<u8>) -> (r: Option<String>)
    ensures
        match r {
            Some(s) => utf8_text(b@) == Some(s@),
            None => utf8_text(b@) is None,
        },
{
    String::from_utf8(b).ok()
}

/// A length-prefixed string at `pos`, read within `end`: a 16-bit length,
/// then that many bytes of UTF-8 text. On success, the text and the
/// position after it.
pub open spec fn spec_string(d: Seq<u8>, pos: int, end: int) -> Result<(Seq<char>, int), DecodeError> {
    if pos + 2 > end {
        Err(DecodeError::Truncated)
    } else {
        let n = le16(d, pos) as int;
        if pos + 2 + n > end {
            Err(DecodeError::Truncated)
        } else {
            match utf8_text(d.subrange(pos + 2, pos + 2 + n)) {
                Some(s) => Ok((s, pos + 2 + n)),
                None => Err(DecodeError::InvalidData),
            }
        }
    }
}

/// A view of the input that exposes only the bytes from `pos` up to `end`.
///
/// Reads advance `pos`; a read that needs bytes beyond `end` fails with
/// `Truncated`, so no step can consume bytes that belong to the next record.
#[derive(Debug)]
pub struct Bounded {
    pub pos: usize,
    pub end: usize,
}

impl Bounded {
    /// The view lies within the input.
    pub open spec fn wf(&self, data: Seq<u8>) -> bool {
        self.pos <= self.end <= data.len()
    }

    /// A view of all of `data`.
    pub fn whole(data: &[u8]) -> (r: Bounded)
        ensures
            r.pos == 0,
            r.end == data@.len(),
            r.wf(data@),
    {
        Bounded { pos: 0, end: data.len() }
    }

    /// How many bytes can still be read.
    pub fn remaining(&self) -> (r: usize)
        requires
            self.pos <= self.end,
        ensures
            r == self.end - self.pos,
    {
        self.end - self.pos
    }

    /// A view of the next `n` bytes of this one, or of all that is left
    /// where fewer remain. The new view shares its start with this one.
    pub fn take(&self, n: u64) -> (r: Bounded)
        requires
            self.pos <= self.end,
        ensures
            r.pos == self.pos,
            r.end == if self.pos + n < self.end { self.pos + n } else { self.end as int },
    {
        if n < (self.end - self.pos) as u64 {
            Bounded { pos: self.pos, end: self.pos + n as usize }
        } else {
            Bounded { pos: self.pos, end: self.end }
        }
    }

    /// Consumes everything that is left.
    pub fn drain(&mut self)
        ensures
            final(self).pos == old(self).end,
            final(self).end == old(self).end,
    {
        self.pos = self.end;
    }

    /// Consumes `n` bytes without reading them.
    pub fn skip(&mut self, n: usize) -> (r: Result<(), DecodeError>)
        requires
            old(self).pos <= old(self).end,
        ensures
            final(self).end == old(self).end,
            old(self).pos + n <= old(self).end ==> r is Ok && final(self).pos == old(self).pos
                + n,
            old(self).pos + n > old(self).end ==> r == Err::<(), DecodeError>(
                DecodeError::Truncated,
            ),
            final(self).pos <= final(self).end,
    {
        if n <= self.end - self.pos {
            self.pos = self.pos + n;
            Ok(())
        } else {
            self.pos = self.end;
            Err(DecodeError::Truncated)
        }
    }

    /// Reads one byte.
    pub fn read_u8(&mut self, data: &[u8]) -> (r: Result<u8, DecodeError>)
        requires
            old(self).wf(data@),
        ensures
            final(self).end == old(self).end,
            final(self).wf(data@),
            old(self).pos + 1 <= old(self).end ==> r == Ok::<u8, DecodeError>(
                data@[old(self).pos as int],
            ) && final(self).pos == old(self).pos + 1,
            old(self).pos + 1 > old(self).end ==> r == Err::<u8, DecodeError>(
                DecodeError::Truncated,
            ),
    {
        if self.pos < self.end {
            let b = data[self.pos];
            self.pos = self.pos + 1;
            Ok(b)
        } else {
            Err(DecodeError::Truncated)
        }
    }

    /// Reads a little-endian 16-bit integer.
    pub fn read_u16(&mut self, data: &[u8]) -> (r: Result<u16, DecodeError>)
        requires
            old(self).wf(data@),
        ensures
            final(self).end == old(self).end,
            final(self).wf(data@),
            old(self).pos + 2 <= old(self).end ==> r == Ok::<u16, DecodeError>(
                le16(data@, old(self).pos as int),
            ) && final(self).pos == old(self).pos + 2,
            old(self).pos + 2 > old(self).end ==> r == Err::<u16, DecodeError>(
                DecodeError::Truncated,
            ),
    {
        if 2 <= self.end - self.pos {
            let v = le_u16_at(data, self.pos);
            self.pos = self.pos + 2;
            Ok(v)
        } else {
            self.pos = self.end;
            Err(DecodeError::Truncated)
        }
    }

    /// Reads a little-endian 32-bit integer.
    pub fn read_u32(&mut self, data: &[u8]) -> (r: Result<u32, DecodeError>)
        requires
            old(self).wf(data@),
        ensures
            final(self).end == old(self).end,
            final(self).wf(data@),
            old(self).pos + 4 <= old(self).end ==> r == Ok::<u32, DecodeError>(
                le32(data@, old(self).pos as int),
            ) && final(self).pos == old(self).pos + 4,
            old(self).pos + 4 > old(self).end ==> r == Err::<u32, DecodeError>(
                DecodeError::Truncated,
            ),
    {
        if 4 <= self.end - self.pos {
            let v = le_u32_at(data, self.pos);
            self.pos = self.pos + 4;
            Ok(v)
        } else {
            self.pos = self.end;
            Err(DecodeError::Truncated)
        }
    }

    /// Reads a length-prefixed UTF-8 string.
    pub fn read_string(&mut self, data: &[u8]) -> (r: Result<String, DecodeError>)
        requires
            old(self).wf(data@),
        ensures
            final(self).end == old(self).end,
            final(self).wf(data@),
            match spec_string(data@, old(self).pos as int, old(self).end as int) {
                Ok((s, q)) => r matches Ok(t) && t@ == s && final(self).pos == q,
                Err(e) => r == Err::<String, DecodeError>(e),
            },
    {
        let n = self.read_u16(data)?;
        let start = self.pos;
        if (n as usize) > self.end - self.pos {
            self.pos = self.end;
            return Err(DecodeError::Truncated);
        }
        let mut bytes: Vec<u8> = Vec::with_capacity(n as usize);
        let mut i: usize = 0;
        while i < n as usize
            invariant
                start + n <= self.end <= data@.len(),
                i <= n,
                bytes@ == data@.subrange(start as int, start + i),
            decreases n - i,
        {
            bytes.push(data[start + i]);
            i = i + 1;
            assert(bytes@ =~= data@.subrange(start as int, start + i));
        }
        self.pos = start + n as usize;
        match text_of(bytes) {
            Some(s) => Ok(s),
            None => Err(DecodeError::InvalidData),
        }
    }
}

} // verus!
