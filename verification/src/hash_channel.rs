//! A channel wrapper that keeps a running transcript of all traffic and can
//! close with a SHA-256 digest of it.
//!
//! Two peers that wrap their channel this way and exchange the digest can
//! check that they saw the same bytes.

use vstd::prelude::*;
use crate::channel::{Channel, ChannelError, ChannelView};
use crate::crypto::{sha256, sha256_of};

verus! {

/// The wrapped channel's state and the transcript hashed so far.
pub ghost struct HashChannelView {
    pub inner: ChannelView,
    pub transcript: Seq<u8>,
}

/// A channel that hashes all bytes read from and written to it.
pub struct HashChannel {
    channel: Channel,
    transcript: Vec<u8>,
}

impl View for HashChannel {
    type V = HashChannelView;

    closed spec fn view(&self) -> HashChannelView {
        HashChannelView { inner: self.channel@, transcript: self.transcript@ }
    }
}

impl HashChannel {
    /// Wrap a channel with an empty transcript.
    pub fn new(channel: Channel) -> (r: HashChannel)
        ensures
            r@.inner == channel@,
            r@.transcript == Seq::<u8>::empty(),
    {
        let r = HashChannel { channel, transcript: Vec::new() };
        r
    }

    /// Write raw bytes, appending them to the transcript.
    pub fn write_bytes(&mut self, data: &[u8])
        ensures
            final(self)@.inner.written == old(self)@.inner.written + data@,
            final(self)@.inner.unread == old(self)@.inner.unread,
            final(self)@.transcript == old(self)@.transcript + data@,
    {
        self.channel.write_bytes(data);
        append_bytes(&mut self.transcript, data);
    }

    /// Read exactly n bytes, appending them to the transcript; a failed read
    /// changes nothing.
    pub fn read_bytes(&mut self, n: usize) -> (r: Result<Vec<u8>, ChannelError>)
        ensures
            r is Ok <==> old(self)@.inner.unread.len() >= n,
            r matches Ok(v) ==> v@ == old(self)@.inner.unread.take(n as int) && final(self)@.inner.unread == old(self)@.inner.unread.skip(n as int) && final(self)@.inner.written
                == old(self)@.inner.written && final(self)@.transcript == old(self)@.transcript
                + v@,
            r is Err ==> final(self)@ == old(self)@,
    {
        let r = self.channel.read_bytes(n);
        match r {
            Ok(v) => {
                append_bytes(&mut self.transcript, v.as_slice());
                Ok(v)
            },
            Err(e) => Err(e),
        }
    }

    /// Feed the wrapped channel incoming bytes; only bytes actually read
    /// enter the transcript.
    pub fn feed(&mut self, data: &[u8])
        ensures
            final(self)@.inner.unread == old(self)@.inner.unread + data@,
            final(self)@.inner.written == old(self)@.inner.written,
            final(self)@.transcript == old(self)@.transcript,
    {
        self.channel.feed(data);
    }

    /// Drain the bytes written so far, for the transport to deliver.
    pub fn take_written(&mut self) -> (r: Vec<u8>)
        ensures
            r@ == old(self)@.inner.written,
            final(self)@.inner.written == Seq::<u8>::empty(),
            final(self)@.inner.unread == old(self)@.inner.unread,
            final(self)@.transcript == old(self)@.transcript,
    {
        self.channel.take_written()
    }

    /// Consume the channel and return the SHA-256 digest of everything that
    /// crossed it.
    pub fn finish(self) -> (r: Vec<u8>)
        ensures
            r@ == sha256_of(self@.transcript),
            r@.len() == 32,
    {
        sha256(self.transcript.as_slice())
    }
}

/// Append a byte slice to a vector.
pub(crate) fn append_bytes(out: &mut Vec<u8>, data: &[u8])
    ensures
        final(out)@ == old(out)@ + data@,
{
    let mut i: usize = 0;
    while i < data.len()
        invariant
            i <= data@.len(),
            out@ == old(out)@ + data@.take(i as int),
        decreases data@.len() - i,
    {
        out.push(data[i]);
        i = i + 1;
        proof {
            assert(old(out)@ + data@.take(i - 1) + seq![data@[i - 1]] =~= old(out)@ + data@.take(
                i as int,
            ));
        }
    }
    proof {
        assert(data@.take(data@.len() as int) =~= data@);
    }
}

} // verus!
