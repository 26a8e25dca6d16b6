//! A byte-stream channel with typed read and write helpers.
//!
//! The channel is backed by memory: a buffer of bytes received from the peer
//! and a buffer of bytes written for it. A transport (a test harness, or a
//! socket pump outside the library) moves written bytes into the peer's
//! receive buffer. Multi-byte integers are laid out little-endian, the
//! machine's byte order here.

use vstd::prelude::*;
use crate::bytes::{le_of, from_le_of, to_le, from_le, lemma_from_le_bound, lemma_pow256_vals};

verus! {

/// The one failure a memory-backed channel can report: a read past the bytes
/// the peer has supplied.
#[derive(Debug, Clone, Copy, PartialEq, Eq, Structural)]
pub struct ChannelError;

/// What a channel holds: the bytes not yet read, and the bytes written so
/// far.
pub ghost struct ChannelView {
    pub unread: Seq<u8>,
    pub written: Seq<u8>,
}

/// A duplex byte channel over in-memory buffers.
pub struct Channel {
    reader: Vec<u8>,
    rpos: usize,
    writer: Vec<u8>,
}


impl View for Channel {
    type V = ChannelView;

    closed spec fn view(&self) -> ChannelView {
        ChannelView {
            unread: if self.rpos as int <= self.reader@.len() {
                self.reader@.skip(self.rpos as int)
            } else {
                Seq::empty()
            },
            written: self.writer@,
        }
    }
}

impl Channel {
    /// Make a new channel from the bytes to be read and a write buffer.
    pub fn new(reader: Vec<u8>, writer: Vec<u8>) -> (r: Channel)
        ensures
            r@.unread == reader@,
            r@.written == writer@,
    {
        let r = Channel { reader, rpos: 0, writer };
        proof {
            assert(r@.unread =~= r.reader@);
        }
        r
    }

    /// How many bytes remain to be read.
    pub fn unread_len(&self) -> (n: usize)
        ensures
            n as int == self@.unread.len(),
    {
        if self.rpos <= self.reader.len() {
            self.reader.len() - self.rpos
        } else {
            0
        }
    }

    /// Hand the channel more incoming bytes, as the transport does when the
    /// peer's writes arrive.
    pub fn feed(&mut self, data: &[u8])
        ensures
            final(self)@.unread == old(self)@.unread + data@,
            final(self)@.written == old(self)@.written,
    {
        if self.rpos > self.reader.len() {
            self.rpos = self.reader.len();
        }
        let ghost base = self.reader@;
        let ghost pos = self.rpos as int;
        proof {
            assert(old(self)@.unread =~= base.skip(pos));
        }
        let mut i: usize = 0;
        while i < data.len()
            invariant
                i <= data@.len(),
                self.rpos as int == pos,
                pos <= base.len(),
                self.writer@ == old(self).writer@,
                self.reader@ == base + data@.take(i as int),
            decreases data@.len() - i,
        {
            self.reader.push(data[i]);
            i = i + 1;
            proof {
                assert(base + data@.take(i - 1) + seq![data@[i - 1]] =~= base + data@.take(
                    i as int,
                ));
            }
        }
        proof {
            assert(data@.take(data@.len() as int) =~= data@);
            assert(self@.unread =~= base.skip(pos) + data@);
        }
    }

    /// Take the bytes written so far off the channel, as the transport does
    /// when it ships them to the peer.
    pub fn take_written(&mut self) -> (r: Vec<u8>)
        ensures
            r@ == old(self)@.written,
            final(self)@.written == Seq::<u8>::empty(),
            final(self)@.unread == old(self)@.unread,
    {
        let mut out: Vec<u8> = Vec::new();
        let n = self.writer.len();
        let mut i: usize = 0;
        while i < n
            invariant
                i <= n,
                n == self.writer@.len(),
                *self == *old(self),
                out@ == self.writer@.take(i as int),
            decreases n - i,
        {
            out.push(self.writer[i]);
            i = i + 1;
            proof {
                assert(self.writer@.take(i - 1).push(self.writer@[i - 1]) =~= self.writer@.take(
                    i as int,
                ));
            }
        }
        self.writer.clear();
        proof {
            assert(out@ =~= old(self)@.written);
        }
        out
    }

    /// Write raw bytes.
    pub fn write_bytes(&mut self, data: &[u8])
        ensures
            final(self)@.written == old(self)@.written + data@,
            final(self)@.unread == old(self)@.unread,
    {
        let mut i: usize = 0;
        while i < data.len()
            invariant
                i <= data@.len(),
                self.rpos == old(self).rpos,
                self.reader@ == old(self).reader@,
                self.writer@ == old(self).writer@ + data@.take(i as int),
            decreases data@.len() - i,
        {
            self.writer.push(data[i]);
            i = i + 1;
            proof {
                assert(old(self).writer@ + data@.take(i - 1) + seq![data@[i - 1]] =~= old(self).writer@ + data@.take(i as int));
            }
        }
        proof {
            assert(data@.take(data@.len() as int) =~= data@);
        }
    }

    /// Read exactly n bytes; fails, leaving the channel unchanged, when fewer
    /// remain.
    pub fn read_bytes(&mut self, n: usize) -> (r: Result<Vec<u8>, ChannelError>)
        ensures
            r is Ok <==> old(self)@.unread.len() >= n,
            r matches Ok(v) ==> v@ == old(self)@.unread.take(n as int) && final(self)@.unread
                == old(self)@.unread.skip(n as int) && final(self)@.written == old(self)@.written,
            r is Err ==> *final(self) == *old(self),
    {
        let rlen = self.reader.len();
        let avail = self.unread_len();
        if n > avail {
            return Err(ChannelError);
        }
        let mut out: Vec<u8> = Vec::new();
        let mut i: usize = 0;
        while i < n
            invariant
                i <= n,
                n <= avail,
                *self == *old(self),
                rlen as int == self.reader@.len(),
                avail as int == self@.unread.len(),
                out@ == self@.unread.take(i as int),
            decreases n - i,
        {
            proof {
                assert(self.rpos as int <= self.reader@.len());
                assert(self.rpos + i < rlen);
                assert(self@.unread[i as int] == self.reader@[self.rpos + i]);
            }
            out.push(self.reader[self.rpos + i]);
            i = i + 1;
            proof {
                assert(self@.unread.take(i - 1).push(self@.unread[i - 1]) =~= self@.unread.take(
                    i as int,
                ));
            }
        }
        if n > 0 {
            proof {
                assert(self.rpos as int <= self.reader@.len());
                assert(self.rpos + n <= rlen);
            }
            self.rpos = self.rpos + n;
        }
        proof {
            assert(self@.unread =~= old(self)@.unread.skip(n as int));
        }
        Ok(out)
    }

    /// Write one byte.
    pub fn write_u8(&mut self, s: u8)
        ensures
            final(self)@.written == old(self)@.written + seq![s],
            final(self)@.unread == old(self)@.unread,
    {
        self.writer.push(s);
        proof {
            assert(old(self)@.written.push(s) =~= old(self)@.written + seq![s]);
        }
    }

    /// Read one byte.
    pub fn read_u8(&mut self) -> (r: Result<u8, ChannelError>)
        ensures
            r is Ok <==> old(self)@.unread.len() >= 1,
            r matches Ok(v) ==> v == old(self)@.unread[0] && final(self)@.unread == old(self)@.unread.skip(1) && final(self)@.written == old(self)@.written,
            r is Err ==> *final(self) == *old(self),
    {
        let bs = self.read_bytes(1)?;
        Ok(bs[0])
    }

    /// Write a bool as one byte.
    pub fn write_bool(&mut self, b: bool)
        ensures
            final(self)@.written == old(self)@.written + seq![(if b { 1u8 } else { 0u8 })],
            final(self)@.unread == old(self)@.unread,
    {
        self.write_u8(if b { 1 } else { 0 });
    }

    /// Read a bool: any nonzero byte is true.
    pub fn read_bool(&mut self) -> (r: Result<bool, ChannelError>)
        ensures
            r is Ok <==> old(self)@.unread.len() >= 1,
            r matches Ok(v) ==> v == (old(self)@.unread[0] != 0) && final(self)@.unread == old(self)@.unread.skip(1) && final(self)@.written == old(self)@.written,
            r is Err ==> *final(self) == *old(self),
    {
        let b = self.read_u8()?;
        Ok(b != 0)
    }

    /// Write a u16 as two little-endian bytes.
    pub fn write_u16(&mut self, s: u16)
        ensures
            final(self)@.written == old(self)@.written + le_of(s as int, 2),
            final(self)@.unread == old(self)@.unread,
    {
        let bs = to_le(s as u128, 2);
        self.write_bytes(bs.as_slice());
    }

    /// Read a u16 from two little-endian bytes.
    pub fn read_u16(&mut self) -> (r: Result<u16, ChannelError>)
        ensures
            r is Ok <==> old(self)@.unread.len() >= 2,
            r matches Ok(v) ==> v as int == from_le_of(old(self)@.unread.take(2)) && final(self)@.unread == old(self)@.unread.skip(2) && final(self)@.written == old(self)@.written,
            r is Err ==> *final(self) == *old(self),
    {
        let bs = self.read_bytes(2)?;
        proof {
            lemma_from_le_bound(bs@);
            lemma_pow256_vals();
        }
        Ok(from_le(bs.as_slice()) as u16)
    }

    /// Write a u32 as four little-endian bytes.
    pub fn write_u32(&mut self, s: u32)
        ensures
            final(self)@.written == old(self)@.written + le_of(s as int, 4),
            final(self)@.unread == old(self)@.unread,
    {
        let bs = to_le(s as u128, 4);
        self.write_bytes(bs.as_slice());
    }

    /// Read a u32 from four little-endian bytes.
    pub fn read_u32(&mut self) -> (r: Result<u32, ChannelError>)
        ensures
            r is Ok <==> old(self)@.unread.len() >= 4,
            r matches Ok(v) ==> v as int == from_le_of(old(self)@.unread.take(4)) && final(self)@.unread == old(self)@.unread.skip(4) && final(self)@.written == old(self)@.written,
            r is Err ==> *final(self) == *old(self),
    {
        let bs = self.read_bytes(4)?;
        proof {
            lemma_from_le_bound(bs@);
            lemma_pow256_vals();
        }
        Ok(from_le(bs.as_slice()) as u32)
    }

    /// Write a u64 as eight little-endian bytes.
    pub fn write_u64(&mut self, s: u64)
        ensures
            final(self)@.written == old(self)@.written + le_of(s as int, 8),
            final(self)@.unread == old(self)@.unread,
    {
        let bs = to_le(s as u128, 8);
        self.write_bytes(bs.as_slice());
    }

    /// Read a u64 from eight little-endian bytes.
    pub fn read_u64(&mut self) -> (r: Result<u64, ChannelError>)
        ensures
            r is Ok <==> old(self)@.unread.len() >= 8,
            r matches Ok(v) ==> v as int == from_le_of(old(self)@.unread.take(8)) && final(self)@.unread == old(self)@.unread.skip(8) && final(self)@.written == old(self)@.written,
            r is Err ==> *final(self) == *old(self),
    {
        let bs = self.read_bytes(8)?;
        proof {
            lemma_from_le_bound(bs@);
            lemma_pow256_vals();
        }
        Ok(from_le(bs.as_slice()) as u64)
    }

    /// Write a usize as eight little-endian bytes.
    pub fn write_usize(&mut self, s: usize)
        ensures
            final(self)@.written == old(self)@.written + le_of(s as int, 8),
            final(self)@.unread == old(self)@.unread,
    {
        let bs = to_le(s as u128, 8);
        self.write_bytes(bs.as_slice());
    }

    /// Read a usize from eight little-endian bytes; fails on a value the
    /// machine's usize cannot hold.
    pub fn read_usize(&mut self) -> (r: Result<usize, ChannelError>)
        ensures
            r is Ok <==> old(self)@.unread.len() >= 8 && from_le_of(old(self)@.unread.take(8))
                <= usize::MAX,
            r matches Ok(v) ==> v as int == from_le_of(old(self)@.unread.take(8)) && final(self)@.unread == old(self)@.unread.skip(8) && final(self)@.written == old(self)@.written,
            r is Err ==> final(self)@ == old(self)@,
    {
        let bs = match self.peek(8) {
            Some(bs) => bs,
            None => {
                return Err(ChannelError);
            },
        };
        proof {
            lemma_from_le_bound(bs@);
            lemma_pow256_vals();
        }
        let v = from_le(bs.as_slice());
        if v > (usize::MAX as u128) {
            // A value too large for this machine: a transport fault.
            return Err(ChannelError);
        }
        let taken = self.read_bytes(8);
        proof {
            assert(taken is Ok);
        }
        Ok(v as usize)
    }

    /// Look at the next n bytes without consuming them.
    fn peek(&self, n: usize) -> (r: Option<Vec<u8>>)
        ensures
            r is Some <==> self@.unread.len() >= n,
            r matches Some(v) ==> v@ == self@.unread.take(n as int),
    {
        let rlen = self.reader.len();
        let avail = self.unread_len();
        if n > avail {
            return None;
        }
        let mut out: Vec<u8> = Vec::new();
        let mut i: usize = 0;
        while i < n
            invariant
                i <= n,
                n <= avail,
                rlen as int == self.reader@.len(),
                avail as int == self@.unread.len(),
                out@ == self@.unread.take(i as int),
            decreases n - i,
        {
            proof {
                assert(self.rpos as int <= self.reader@.len());
                assert(self.rpos + i < rlen);
                assert(self@.unread[i as int] == self.reader@[self.rpos + i]);
            }
            out.push(self.reader[self.rpos + i]);
            i = i + 1;
            proof {
                assert(self@.unread.take(i - 1).push(self@.unread[i - 1]) =~= self@.unread.take(
                    i as int,
                ));
            }
        }
        Some(out)
    }

    /// Write a 128-bit block as sixteen little-endian bytes.
    pub fn write_block(&mut self, b: u128)
        ensures
            final(self)@.written == old(self)@.written + le_of(b as int, 16),
            final(self)@.unread == old(self)@.unread,
    {
        let bs = to_le(b, 16);
        self.write_bytes(bs.as_slice());
    }

    /// Read a 128-bit block from sixteen little-endian bytes.
    pub fn read_block(&mut self) -> (r: Result<u128, ChannelError>)
        ensures
            r is Ok <==> old(self)@.unread.len() >= 16,
            r matches Ok(v) ==> v as int == from_le_of(old(self)@.unread.take(16)) && final(self)@.unread == old(self)@.unread.skip(16) && final(self)@.written == old(self)@.written,
            r is Err ==> *final(self) == *old(self),
    {
        let bs = self.read_bytes(16)?;
        proof {
            lemma_from_le_bound(bs@);
            lemma_pow256_vals();
        }
        Ok(from_le(bs.as_slice()))
    }

    /// Read n 128-bit blocks.
    pub fn read_blocks(&mut self, n: usize) -> (r: Result<Vec<u128>, ChannelError>)
        ensures
            r is Ok <==> old(self)@.unread.len() >= 16 * n,
            r matches Ok(v) ==> v@.len() == n && (forall|k: int|
                0 <= k < n ==> (#[trigger] v@[k]) as int == from_le_of(
                    old(self)@.unread.subrange(16 * k, 16 * k + 16),
                )) && final(self)@.unread == old(self)@.unread.skip(16 * n) && final(self)@.written
                == old(self)@.written,
            r is Err ==> *final(self) == *old(self),
    {
        let avail = self.unread_len();
        proof {
            vstd::arithmetic::div_mod::lemma_fundamental_div_mod(avail as int, 16);
            vstd::arithmetic::div_mod::lemma_mod_bound(avail as int, 16);
        }
        if n > avail / 16 {
            proof {
                assert((avail as int) < 16 * (n as int)) by (nonlinear_arith)
                    requires
                        avail as int / 16 < n as int,
                        avail as int == 16 * (avail as int / 16) + avail as int % 16,
                        avail as int % 16 < 16,
                ;
            }
            return Err(ChannelError);
        }
        proof {
            assert(16 * (n as int) <= avail as int) by (nonlinear_arith)
                requires
                    n as int <= avail as int / 16,
                    avail as int == 16 * (avail as int / 16) + avail as int % 16,
                    0 <= avail as int % 16,
            ;
        }
        let mut out: Vec<u128> = Vec::new();
        let mut k: usize = 0;
        while k < n
            invariant
                k <= n,
                16 * n <= old(self)@.unread.len(),
                self@.unread == old(self)@.unread.skip(16 * k),
                self@.written == old(self)@.written,
                out@.len() == k,
                forall|j: int|
                    0 <= j < k ==> (#[trigger] out@[j]) as int == from_le_of(
                        old(self)@.unread.subrange(16 * j, 16 * j + 16),
                    ),
            decreases n - k,
        {
            proof {
                assert(16 * (k as int) + 16 <= 16 * (n as int)) by (nonlinear_arith)
                    requires
                        k < n,
                ;
                assert(self@.unread.len() >= 16);
            }
            let b = match self.read_block() {
                Ok(b) => b,
                Err(_) => {
                    proof {
                        assert(false);
                    }
                    0
                },
            };
            proof {
                assert(old(self)@.unread.skip(16 * (k as int)).take(16) =~= old(self)@.unread.subrange(16 * (k as int), 16 * (k as int) + 16));
                assert(old(self)@.unread.skip(16 * (k as int)).skip(16) =~= old(self)@.unread.skip(16 * (k as int) + 16));
            }
            out.push(b);
            k = k + 1;
        }
        Ok(out)
    }
}

} // verus!
