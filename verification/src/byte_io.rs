//! Typed byte reader and writer used by the wire-format code.
//!
//! A [`Reader`] walks a borrowed byte slice between a position and a bound;
//! [`Reader::limit`] carves out a bounded sub-reader so a payload cannot read
//! past its declared length. A [`Writer`] appends to an owned buffer and
//! signals [`Full`] once an optional bound is reached. Multi-byte integers
//! are tagged with an [`Endianness`].

use vstd::prelude::*;

verus! {

/// Endianness tag for multi-byte integer reads and writes.
#[derive(Clone, Copy, Debug, PartialEq, Eq, Structural)]
pub enum Endianness {
    BigEndian,
    LittleEndian,
    /// Network byte order: the most significant byte first.
    NetworkEndian,
    /// Byte order of the supported targets, which are little-endian.
    NativeEndian,
}

/// Whether the tag lays the most significant byte first.
pub open spec fn spec_is_big(e: Endianness) -> bool {
    e == Endianness::BigEndian || e == Endianness::NetworkEndian
}

impl Endianness {
    /// Whether this tag lays the most significant byte first.
    pub fn is_big(self) -> (r: bool)
        ensures
            r == spec_is_big(self),
    {
        match self {
            Endianness::BigEndian => true,
            Endianness::NetworkEndian => true,
            Endianness::LittleEndian => false,
            Endianness::NativeEndian => false,
        }
    }
}

/// The value of a 16-bit integer laid out as two bytes under a tag.
pub open spec fn spec_u16_value(b0: u8, b1: u8, big: bool) -> u16 {
    if big {
        (b0 * 256 + b1) as u16
    } else {
        (b1 * 256 + b0) as u16
    }
}

/// Error of a read that asked for more bytes than the reader holds.
#[derive(Clone, Copy, Debug, PartialEq, Eq, Structural)]
pub enum ReadError {
    Eof,
}

/// The writer refused additional bytes: its bound is reached.
#[derive(Clone, Copy, Debug, PartialEq, Eq, Structural)]
pub struct Full;

/// A reader over a borrowed byte slice, bounded by `end`.
pub struct Reader<'a> {
    bytes: &'a [u8],
    pos: usize,
    end: usize,
}

impl<'a> Reader<'a> {
    /// The whole underlying byte sequence.
    pub closed spec fn data(self) -> Seq<u8> {
        self.bytes@
    }

    /// The current read position.
    pub closed spec fn pos(self) -> int {
        self.pos as int
    }

    /// The bound past which this reader refuses to read.
    pub closed spec fn end(self) -> int {
        self.end as int
    }

    /// The reader's position and bound lie within the data.
    pub open spec fn wf(self) -> bool {
        0 <= self.pos() <= self.end() <= self.data().len()
    }

    /// How many bytes are left before the bound.
    pub open spec fn spec_remaining(self) -> int {
        self.end() - self.pos()
    }

    /// A reader over all of `bytes`.
    pub fn new(bytes: &'a [u8]) -> (r: Reader<'a>)
        ensures
            r.wf(),
            r.data() == bytes@,
            r.pos() == 0,
            r.end() == bytes@.len(),
    {
        Reader { bytes, pos: 0, end: bytes.len() }
    }

    /// How many bytes are left before the bound.
    pub fn remaining(&self) -> (r: usize)
        requires
            self.wf(),
        ensures
            r == self.spec_remaining(),
    {
        self.end - self.pos
    }

    /// Reads one byte and advances.
    pub fn read_u8(&mut self) -> (r: Result<u8, ReadError>)
        requires
            old(self).wf(),
        ensures
            final(self).wf(),
            final(self).data() == old(self).data(),
            final(self).end() == old(self).end(),
            match r {
                Ok(b) => {
                    &&& old(self).spec_remaining() >= 1
                    &&& b == old(self).data()[old(self).pos()]
                    &&& final(self).pos() == old(self).pos() + 1
                },
                Err(e) => {
                    &&& e == ReadError::Eof
                    &&& old(self).spec_remaining() == 0
                    &&& final(self).pos() == old(self).pos()
                },
            },
    {
        if self.pos < self.end {
            let b = self.bytes[self.pos];
            self.pos = self.pos + 1;
            Ok(b)
        } else {
            Err(ReadError::Eof)
        }
    }

    /// Reads a 16-bit integer under the given endianness tag.
    pub fn read_u16(&mut self, endianness: Endianness) -> (r: Result<u16, ReadError>)
        requires
            old(self).wf(),
        ensures
            final(self).wf(),
            final(self).data() == old(self).data(),
            final(self).end() == old(self).end(),
            match r {
                Ok(v) => {
                    &&& old(self).spec_remaining() >= 2
                    &&& v == spec_u16_value(
                        old(self).data()[old(self).pos()],
                        old(self).data()[old(self).pos() + 1],
                        spec_is_big(endianness),
                    )
                    &&& final(self).pos() == old(self).pos() + 2
                },
                Err(e) => {
                    &&& e == ReadError::Eof
                    &&& old(self).spec_remaining() < 2
                    &&& final(self).pos() == old(self).pos()
                },
            },
    {
        if self.end - self.pos >= 2 {
            let b0 = self.bytes[self.pos];
            let b1 = self.bytes[self.pos + 1];
            self.pos = self.pos + 2;
            if endianness.is_big() {
                Ok((b0 as u16) * 256 + (b1 as u16))
            } else {
                Ok((b1 as u16) * 256 + (b0 as u16))
            }
        } else {
            Err(ReadError::Eof)
        }
    }

    /// Reads exactly `n` bytes into an owned buffer.
    pub fn read_vec(&mut self, n: usize) -> (r: Result<Vec<u8>, ReadError>)
        requires
            old(self).wf(),
        ensures
            final(self).wf(),
            final(self).data() == old(self).data(),
            final(self).end() == old(self).end(),
            match r {
                Ok(v) => {
                    &&& old(self).spec_remaining() >= n
                    &&& v@ == old(self).data().subrange(old(self).pos(), old(self).pos() + n)
                    &&& final(self).pos() == old(self).pos() + n
                },
                Err(e) => {
                    &&& e == ReadError::Eof
                    &&& old(self).spec_remaining() < n
                    &&& final(self).pos() == old(self).pos()
                },
            },
    {
        if self.end - self.pos < n {
            return Err(ReadError::Eof);
        }
        let mut v: Vec<u8> = Vec::new();
        let mut i: usize = 0;
        while i < n
            invariant
                i <= n,
                self.wf(),
                self.pos + n <= self.end,
                v@ == self.data().subrange(self.pos as int, self.pos + i),
            decreases n - i,
        {
            v.push(self.bytes[self.pos + i]);
            i = i + 1;
            proof {
                assert(v@ =~= self.data().subrange(self.pos as int, self.pos + i));
            }
        }
        self.pos = self.pos + n;
        Ok(v)
    }

    /// Carves out a sub-reader over the next `n` bytes and advances this
    /// reader past them; the sub-reader refuses reads past its bound.
    pub fn limit(&mut self, n: usize) -> (r: Result<Reader<'a>, ReadError>)
        requires
            old(self).wf(),
        ensures
            final(self).wf(),
            final(self).data() == old(self).data(),
            final(self).end() == old(self).end(),
            match r {
                Ok(sub) => {
                    &&& old(self).spec_remaining() >= n
                    &&& sub.wf()
                    &&& sub.data() == old(self).data()
                    &&& sub.pos() == old(self).pos()
                    &&& sub.end() == old(self).pos() + n
                    &&& final(self).pos() == old(self).pos() + n
                },
                Err(e) => {
                    &&& e == ReadError::Eof
                    &&& old(self).spec_remaining() < n
                    &&& final(self).pos() == old(self).pos()
                },
            },
    {
        if self.end - self.pos < n {
            return Err(ReadError::Eof);
        }
        let sub = Reader { bytes: self.bytes, pos: self.pos, end: self.pos + n };
        self.pos = self.pos + n;
        Ok(sub)
    }

    /// Drains this reader to its bound.
    pub fn skip_remaining(&mut self)
        requires
            old(self).wf(),
        ensures
            final(self).wf(),
            final(self).data() == old(self).data(),
            final(self).end() == old(self).end(),
            final(self).pos() == final(self).end(),
    {
        self.pos = self.end;
    }
}

/// A writer that appends to an owned buffer, up to an optional bound.
pub struct Writer {
    out: Vec<u8>,
    bound: Option<usize>,
}

impl Writer {
    /// The bytes written so far.
    pub closed spec fn written(self) -> Seq<u8> {
        self.out@
    }

    /// The bound past which writes are refused, if any.
    pub closed spec fn bound(self) -> Option<usize> {
        self.bound
    }

    /// The buffer respects the bound.
    pub open spec fn wf(self) -> bool {
        match self.bound() {
            Some(b) => self.written().len() <= b,
            None => true,
        }
    }

    /// Whether the bound admits `n` more bytes.
    pub open spec fn spec_has_space(self, n: int) -> bool {
        match self.bound() {
            Some(b) => self.written().len() + n <= b,
            None => true,
        }
    }

    /// An unbounded writer over an empty buffer.
    pub fn new() -> (r: Writer)
        ensures
            r.wf(),
            r.written() == Seq::<u8>::empty(),
            r.bound() is None,
    {
        Writer { out: Vec::new(), bound: None }
    }

    /// A writer that refuses to grow past `bound` bytes.
    pub fn with_bound(bound: usize) -> (r: Writer)
        ensures
            r.wf(),
            r.written() == Seq::<u8>::empty(),
            r.bound() == Some(bound),
    {
        Writer { out: Vec::new(), bound: Some(bound) }
    }

    /// Appends one byte, or refuses it with `Full`.
    pub fn write_u8(&mut self, b: u8) -> (r: Result<(), Full>)
        requires
            old(self).wf(),
        ensures
            final(self).wf(),
            final(self).bound() == old(self).bound(),
            match r {
                Ok(()) => {
                    &&& old(self).spec_has_space(1)
                    &&& final(self).written() == old(self).written().push(b)
                },
                Err(_) => {
                    &&& !old(self).spec_has_space(1)
                    &&& final(self).written() == old(self).written()
                },
            },
    {
        match self.bound {
            Some(bound) => {
                if self.out.len() >= bound {
                    return Err(Full);
                }
            },
            None => {},
        }
        self.out.push(b);
        Ok(())
    }

    /// Appends a 16-bit integer under the given endianness tag, or refuses
    /// the whole value with `Full` when fewer than two bytes fit.
    pub fn write_u16(&mut self, v: u16, endianness: Endianness) -> (r: Result<(), Full>)
        requires
            old(self).wf(),
        ensures
            final(self).wf(),
            final(self).bound() == old(self).bound(),
            match r {
                Ok(()) => {
                    &&& old(self).spec_has_space(2)
                    &&& final(self).written() == old(self).written() + spec_u16_bytes(
                        v,
                        spec_is_big(endianness),
                    )
                    &&& spec_u16_value(
                        final(self).written()[old(self).written().len() as int],
                        final(self).written()[old(self).written().len() as int + 1],
                        spec_is_big(endianness),
                    ) == v
                },
                Err(_) => {
                    &&& !old(self).spec_has_space(2)
                    &&& final(self).written() == old(self).written()
                },
            },
    {
        match self.bound {
            Some(bound) => {
                if bound - self.out.len() < 2 {
                    return Err(Full);
                }
            },
            None => {},
        }
        let hi = (v / 256) as u8;
        let lo = (v % 256) as u8;
        proof {
            assert(hi * 256 + lo == v) by (nonlinear_arith)
                requires
                    hi == v / 256,
                    lo == v % 256,
            ;
        }
        let ghost before = self.out@;
        if endianness.is_big() {
            self.out.push(hi);
            self.out.push(lo);
            proof {
                assert(self.out@ =~= before + spec_u16_bytes(v, true));
            }
        } else {
            self.out.push(lo);
            self.out.push(hi);
            proof {
                assert(self.out@ =~= before + spec_u16_bytes(v, false));
            }
        }
        Ok(())
    }

    /// Appends a run of bytes, or refuses the whole run with `Full`.
    pub fn write_bytes(&mut self, data: &[u8]) -> (r: Result<(), Full>)
        requires
            old(self).wf(),
        ensures
            final(self).wf(),
            final(self).bound() == old(self).bound(),
            match r {
                Ok(()) => {
                    &&& old(self).spec_has_space(data@.len() as int)
                    &&& final(self).written() == old(self).written() + data@
                },
                Err(_) => {
                    &&& !old(self).spec_has_space(data@.len() as int)
                    &&& final(self).written() == old(self).written()
                },
            },
    {
        match self.bound {
            Some(bound) => {
                if bound - self.out.len() < data.len() {
                    return Err(Full);
                }
            },
            None => {},
        }
        let mut i: usize = 0;
        let ghost before = self.out@;
        while i < data.len()
            invariant
                i <= data@.len(),
                self.wf(),
                self.bound == old(self).bound,
                self.out@ == before + data@.subrange(0, i as int),
                match self.bound {
                    Some(b) => before.len() + data@.len() <= b,
                    None => true,
                },
            decreases data@.len() - i,
        {
            self.out.push(data[i]);
            i = i + 1;
            proof {
                assert(self.out@ =~= before + data@.subrange(0, i as int));
            }
        }
        proof {
            assert(data@.subrange(0, data@.len() as int) =~= data@);
        }
        Ok(())
    }

    /// Hands the buffer out.
    pub fn into_vec(self) -> (r: Vec<u8>)
        ensures
            r@ == self.written(),
    {
        self.out
    }
}

/// A 16-bit integer laid out as two bytes under a tag.
pub open spec fn spec_u16_bytes(v: u16, big: bool) -> Seq<u8> {
    if big {
        seq![(v / 256) as u8, (v % 256) as u8]
    } else {
        seq![(v % 256) as u8, (v / 256) as u8]
    }
}

} // verus!
