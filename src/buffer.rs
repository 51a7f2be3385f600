use vstd::prelude::*;

use crate::error::{ClassReaderError, Result};

verus! {

/// Big-endian value of two bytes.
pub open spec fn be16(b0: u8, b1: u8) -> u16 {
    (b0 as int * 256 + b1 as int) as u16
}

/// Big-endian value of four bytes.
pub open spec fn be32(b0: u8, b1: u8, b2: u8, b3: u8) -> u32 {
    (((b0 as int * 256 + b1 as int) * 256 + b2 as int) * 256 + b3 as int) as u32
}

/// The unsigned 16-bit value stored at `pos`.
pub open spec fn u16_at(data: Seq<u8>, pos: int) -> u16 {
    be16(data[pos], data[pos + 1])
}

/// The unsigned 32-bit value stored at `pos`.
pub open spec fn u32_at(data: Seq<u8>, pos: int) -> u32 {
    be32(data[pos], data[pos + 1], data[pos + 2], data[pos + 3])
}

/// The unsigned 64-bit value stored at `pos`.
pub open spec fn u64_at(data: Seq<u8>, pos: int) -> u64 {
    (u32_at(data, pos) as int * 0x1_0000_0000 + u32_at(data, pos + 4) as int) as u64
}

/// One UTF-16 unit from a two-byte modified UTF-8 sequence.
pub open spec fn unit2(b0: u8, b1: u8) -> u16 {
    (((b0 & 0x1F) as u16) * 64 + ((b1 & 0x3F) as u16)) as u16
}

/// One UTF-16 unit from a three-byte modified UTF-8 sequence.
pub open spec fn unit3(b0: u8, b1: u8, b2: u8) -> u16 {
    (((b0 & 0x0F) as u16) * 4096 + ((b1 & 0x3F) as u16) * 64 + ((b2 & 0x3F) as u16)) as u16
}

pub open spec fn is_cont(b: u8) -> bool {
    b & 0xC0 == 0x80
}

/// Length of the modified UTF-8 sequence led by `b0`, or 0 where `b0` leads none.
pub open spec fn seq_len(b0: u8) -> int {
    if 1 <= b0 && b0 < 0x80 {
        1
    } else if b0 & 0xE0 == 0xC0 {
        2
    } else if b0 & 0xF0 == 0xE0 {
        3
    } else {
        0
    }
}

/// The UTF-16 units that modified UTF-8 bytes encode, or `None` where the bytes
/// are malformed: a zero byte, a byte that leads no sequence, a sequence cut
/// short or one whose continuation bytes are not of the form `10xxxxxx`.
pub open spec fn mutf8_units(b: Seq<u8>) -> Option<Seq<u16>>
    decreases b.len(),
{
    if b.len() == 0 {
        Some(Seq::empty())
    } else {
        let n = seq_len(b[0]);
        if n == 0 || b.len() < n || (n >= 2 && !is_cont(b[1])) || (n == 3 && !is_cont(b[2])) {
            None
        } else {
            let u: u16 = if n == 1 {
                b[0] as u16
            } else if n == 2 {
                unit2(b[0], b[1])
            } else {
                unit3(b[0], b[1], b[2])
            };
            match mutf8_units(b.subrange(n, b.len() as int)) {
                Some(rest) => Some(seq![u] + rest),
                None => None,
            }
        }
    }
}

/// Prefixes `p` to a decoded result.
pub open spec fn prefixed(p: Seq<u16>, o: Option<Seq<u16>>) -> Option<Seq<u16>> {
    match o {
        Some(rest) => Some(p + rest),
        None => None,
    }
}

/// Decodes modified UTF-8 bytes into UTF-16 units.
pub fn decode_mutf8(b: &[u8]) -> (r: Option<Vec<u16>>)
    ensures
        r is Some <==> mutf8_units(b@) is Some,
        r is Some ==> r->Some_0@ == mutf8_units(b@)->Some_0,
{
    let mut out: Vec<u16> = Vec::new();
    let mut i: usize = 0;
    let n = b.len();
    proof {
        assert(b@.subrange(0, n as int) =~= b@);
        if let Some(t) = mutf8_units(b@) {
            assert(out@ + t =~= t);
        }
    }
    while i < n
        invariant
            n == b@.len(),
            i <= n,
            mutf8_units(b@) == prefixed(out@, mutf8_units(b@.subrange(i as int, n as int))),
        decreases n - i,
    {
        let rest = Ghost(b@.subrange(i as int, n as int));
        let b0 = b[i];
        let len: usize = if 1 <= b0 && b0 < 0x80 {
            1
        } else if b0 & 0xE0 == 0xC0 {
            2
        } else if b0 & 0xF0 == 0xE0 {
            3
        } else {
            0
        };
        assert(len as int == seq_len(rest@[0]));
        if len == 0 || n - i < len || (len >= 2 && b[i + 1] & 0xC0 != 0x80) || (len == 3 && b[i + 2] & 0xC0 != 0x80) {
            return None;
        }
        let u: u16 = if len == 1 {
            b0 as u16
        } else if len == 2 {
            ((b0 & 0x1F) as u16) * 64 + ((b[i + 1] & 0x3F) as u16)
        } else {
            let b1 = b[i + 1];
            let b2 = b[i + 2];
            assert(b0 & 0x0F <= 0x0F) by (bit_vector);
            assert(b1 & 0x3F <= 0x3F) by (bit_vector);
            assert(b2 & 0x3F <= 0x3F) by (bit_vector);
            ((b0 & 0x0F) as u16) * 4096 + ((b[i + 1] & 0x3F) as u16) * 64 + ((b[i + 2] & 0x3F) as u16)
        };
        let ghost prev = out@;
        out.push(u);
        assert(rest@.subrange(len as int, rest@.len() as int) =~= b@.subrange(i + len, n as int));
        proof {
            let tail = mutf8_units(b@.subrange(i + len, n as int));
            if let Some(t) = tail {
                assert(prev + (seq![u] + t) =~= out@ + t);
            }
        }
        i = i + len;
    }
    assert(b@.subrange(n as int, n as int) =~= Seq::<u8>::empty());
    assert(out@ + Seq::<u16>::empty() =~= out@);
    Some(out)
}

/// The characters that UTF-16 units stand for, or `None` where they hold an
/// unpaired surrogate. Computed by `String::from_utf16`.
pub uninterp spec fn utf16_text(units: Seq<u16>) -> Option<Seq<char>>;

/// Relies on `String::from_utf16`: it decodes UTF-16 units, failing on an
/// unpaired surrogate; no units give the empty string.
#[verifier::external_body]
fn string_from_utf16(units: &Vec<u16>) -> (r: Option<String>)
    ensures
        r is Some <==> utf16_text(units@) is Some,
        r is Some ==> r->Some_0@ == utf16_text(units@)->Some_0,
        units@.len() == 0 ==> r is Some && r->Some_0@.len() == 0,
{
    String::from_utf16(units).ok()
}

/// The text that modified UTF-8 bytes encode, if they are well formed.
pub open spec fn text_of(b: Seq<u8>) -> Option<Seq<char>> {
    match mutf8_units(b) {
        Some(units) => utf16_text(units),
        None => None,
    }
}

/// Decodes a whole modified UTF-8 byte string.
pub fn decode_text(b: &[u8]) -> (r: Result<String>)
    ensures
        text_of(b@) is Some ==> r is Ok && r->Ok_0@ == text_of(b@)->Some_0,
        text_of(b@) is None ==> r == Err::<String, ClassReaderError>(ClassReaderError::InvalidCesu8String),
{
    match decode_mutf8(b) {
        Some(units) => match string_from_utf16(&units) {
            Some(s) => Ok(s),
            None => Err(ClassReaderError::InvalidCesu8String),
        },
        None => Err(ClassReaderError::InvalidCesu8String),
    }
}

/// A position-tracked reader over an immutable byte slice.
pub struct Buffer<'a> {
    pub data: &'a [u8],
    pub pos: usize,
}

impl<'a> Buffer<'a> {
    pub open spec fn wf(&self) -> bool {
        self.pos <= self.data@.len()
    }

    /// Whether `n` more bytes can be read.
    pub open spec fn has(&self, n: int) -> bool {
        self.pos + n <= self.data@.len()
    }

    pub fn new(data: &'a [u8]) -> (r: Self)
        ensures
            r.data@ == data@,
            r.pos == 0,
            r.wf(),
    {
        Buffer { data, pos: 0 }
    }

    pub fn get_pos(&self) -> (r: usize)
        ensures
            r == self.pos,
    {
        self.pos
    }

    pub fn set_pos(&mut self, pos: usize)
        requires
            pos <= old(self).data@.len(),
        ensures
            final(self).data == old(self).data,
            final(self).pos == pos,
            final(self).wf(),
    {
        self.pos = pos;
    }

    pub fn read_u8(&mut self) -> (r: Result<u8>)
        requires
            old(self).wf(),
        ensures
            final(self).data == old(self).data,
            final(self).wf(),
            old(self).has(1) ==> r == Ok::<u8, ClassReaderError>(old(self).data@[old(self).pos as int])
                && final(self).pos == old(self).pos + 1,
            !old(self).has(1) ==> r == Err::<u8, ClassReaderError>(ClassReaderError::UnexpectedEndOfData)
                && final(self).pos == old(self).pos,
    {
        if self.pos < self.data.len() {
            let b = self.data[self.pos];
            self.pos = self.pos + 1;
            Ok(b)
        } else {
            Err(ClassReaderError::UnexpectedEndOfData)
        }
    }

    pub fn read_u16(&mut self) -> (r: Result<u16>)
        requires
            old(self).wf(),
        ensures
            final(self).data == old(self).data,
            final(self).wf(),
            old(self).has(2) ==> r == Ok::<u16, ClassReaderError>(u16_at(old(self).data@, old(self).pos as int))
                && final(self).pos == old(self).pos + 2,
            !old(self).has(2) ==> r == Err::<u16, ClassReaderError>(ClassReaderError::UnexpectedEndOfData)
                && final(self).pos == old(self).pos,
    {
        if self.data.len() - self.pos >= 2 {
            let b0 = self.data[self.pos] as u16;
            let b1 = self.data[self.pos + 1] as u16;
            self.pos = self.pos + 2;
            Ok(b0 * 256 + b1)
        } else {
            Err(ClassReaderError::UnexpectedEndOfData)
        }
    }

    pub fn read_u32(&mut self) -> (r: Result<u32>)
        requires
            old(self).wf(),
        ensures
            final(self).data == old(self).data,
            final(self).wf(),
            old(self).has(4) ==> r == Ok::<u32, ClassReaderError>(u32_at(old(self).data@, old(self).pos as int))
                && final(self).pos == old(self).pos + 4,
            !old(self).has(4) ==> r == Err::<u32, ClassReaderError>(ClassReaderError::UnexpectedEndOfData)
                && final(self).pos == old(self).pos,
    {
        if self.data.len() - self.pos >= 4 {
            let p = self.pos;
            let b0 = self.data[p] as u32;
            let b1 = self.data[p + 1] as u32;
            let b2 = self.data[p + 2] as u32;
            let b3 = self.data[p + 3] as u32;
            self.pos = p + 4;
            Ok(((b0 * 256 + b1) * 256 + b2) * 256 + b3)
        } else {
            Err(ClassReaderError::UnexpectedEndOfData)
        }
    }

    pub fn read_u64(&mut self) -> (r: Result<u64>)
        requires
            old(self).wf(),
        ensures
            final(self).data == old(self).data,
            final(self).wf(),
            old(self).has(8) ==> r == Ok::<u64, ClassReaderError>(u64_at(old(self).data@, old(self).pos as int))
                && final(self).pos == old(self).pos + 8,
            !old(self).has(8) ==> r == Err::<u64, ClassReaderError>(ClassReaderError::UnexpectedEndOfData)
                && final(self).pos == old(self).pos,
    {
        if self.data.len() - self.pos >= 8 {
            let hi = self.read_u32();
            let lo = self.read_u32();
            match (hi, lo) {
                (Ok(hi), Ok(lo)) => Ok((hi as u64) * 0x1_0000_0000 + (lo as u64)),
                _ => Err(ClassReaderError::UnexpectedEndOfData),
            }
        } else {
            Err(ClassReaderError::UnexpectedEndOfData)
        }
    }

    /// Reads `len` raw bytes.
    pub fn read_bytes(&mut self, len: usize) -> (r: Result<Vec<u8>>)
        requires
            old(self).wf(),
        ensures
            final(self).data == old(self).data,
            final(self).wf(),
            old(self).has(len as int) ==> r is Ok && r->Ok_0@ == old(self).data@.subrange(
                old(self).pos as int,
                old(self).pos + len,
            ) && final(self).pos == old(self).pos + len,
            !old(self).has(len as int) ==> r == Err::<Vec<u8>, ClassReaderError>(ClassReaderError::UnexpectedEndOfData)
                && final(self).pos == old(self).pos,
    {
        if self.data.len() - self.pos >= len {
            let start = self.pos;
            let mut out: Vec<u8> = Vec::with_capacity(len);
            let mut i: usize = 0;
            while i < len
                invariant
                    start + len <= self.data.len(),
                    i <= len,
                    out@ == self.data@.subrange(start as int, start + i),
                decreases len - i,
            {
                out.push(self.data[start + i]);
                i = i + 1;
                assert(out@ =~= self.data@.subrange(start as int, start + i));
            }
            self.pos = start + len;
            Ok(out)
        } else {
            Err(ClassReaderError::UnexpectedEndOfData)
        }
    }

    /// Reads `len` bytes of modified UTF-8 text.
    pub fn read_utf8(&mut self, len: usize) -> (r: Result<String>)
        requires
            old(self).wf(),
        ensures
            final(self).data == old(self).data,
            final(self).wf(),
            !old(self).has(len as int) ==> r == Err::<String, ClassReaderError>(ClassReaderError::UnexpectedEndOfData),
            old(self).has(len as int) ==> ({
                let t = text_of(old(self).data@.subrange(old(self).pos as int, old(self).pos + len));
                &&& t is Some ==> r is Ok && r->Ok_0@ == t->Some_0 && final(self).pos == old(self).pos + len
                &&& t is None ==> r == Err::<String, ClassReaderError>(ClassReaderError::InvalidCesu8String)
            }),
    {
        let bytes = self.read_bytes(len)?;
        decode_text(bytes.as_slice())
    }
}

} // verus!
