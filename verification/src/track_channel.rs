//! A channel wrapper that counts the bits moved through it.
//!
//! Every byte passed through `read_bytes` or `write_bytes` adds exactly eight
//! bits to the matching counter; `clear` resets both. Nothing else touches
//! them, so after any sequence of operations each counter equals eight times
//! the bytes that crossed in that direction since the last reset.

use vstd::prelude::*;
use crate::channel::{Channel, ChannelError, ChannelView};

verus! {

/// The bits moved so far, and the wrapped channel's state.
pub ghost struct TrackChannelView {
    pub inner: ChannelView,
    pub nbits_read: int,
    pub nbits_written: int,
}

/// A channel that tracks the number of bits read and written.
pub struct TrackChannel {
    channel: Channel,
    nbits_read: usize,
    nbits_written: usize,
}

impl View for TrackChannel {
    type V = TrackChannelView;

    closed spec fn view(&self) -> TrackChannelView {
        TrackChannelView {
            inner: self.channel@,
            nbits_read: self.nbits_read as int,
            nbits_written: self.nbits_written as int,
        }
    }
}

impl TrackChannel {
    /// Wrap a channel with zeroed counters.
    pub fn new(channel: Channel) -> (r: TrackChannel)
        ensures
            r@.inner == channel@,
            r@.nbits_read == 0,
            r@.nbits_written == 0,
    {
        TrackChannel { channel, nbits_read: 0, nbits_written: 0 }
    }

    /// Reset both counters; the byte streams are untouched.
    pub fn clear(&mut self)
        ensures
            final(self)@.inner == old(self)@.inner,
            final(self)@.nbits_read == 0,
            final(self)@.nbits_written == 0,
    {
        self.nbits_read = 0;
        self.nbits_written = 0;
    }

    /// The bits written since the last reset.
    pub fn nbits_written(&self) -> (n: usize)
        ensures
            n as int == self@.nbits_written,
    {
        self.nbits_written
    }

    /// The bits read since the last reset.
    pub fn nbits_read(&self) -> (n: usize)
        ensures
            n as int == self@.nbits_read,
    {
        self.nbits_read
    }

    /// Write raw bytes, counting eight bits per byte.
    pub fn write_bytes(&mut self, data: &[u8])
        requires
            old(self)@.nbits_written + 8 * data@.len() <= usize::MAX,
        ensures
            final(self)@.inner.written == old(self)@.inner.written + data@,
            final(self)@.inner.unread == old(self)@.inner.unread,
            final(self)@.nbits_written == old(self)@.nbits_written + 8 * data@.len(),
            final(self)@.nbits_read == old(self)@.nbits_read,
    {
        self.channel.write_bytes(data);
        self.nbits_written = self.nbits_written + 8 * data.len();
    }

    /// Read exactly n bytes, counting eight bits per byte; a failed read
    /// moves no bytes and counts nothing.
    pub fn read_bytes(&mut self, n: usize) -> (r: Result<Vec<u8>, ChannelError>)
        requires
            old(self)@.nbits_read + 8 * n <= usize::MAX,
        ensures
            r is Ok <==> old(self)@.inner.unread.len() >= n,
            r matches Ok(v) ==> v@ == old(self)@.inner.unread.take(n as int) && final(self)@.inner.unread == old(self)@.inner.unread.skip(n as int) && final(self)@.inner.written
                == old(self)@.inner.written && final(self)@.nbits_read == old(self)@.nbits_read + 8
                * n && final(self)@.nbits_written == old(self)@.nbits_written,
            r is Err ==> final(self)@ == old(self)@,
    {
        let r = self.channel.read_bytes(n);
        if r.is_ok() {
            self.nbits_read = self.nbits_read + 8 * n;
        }
        r
    }

    /// Feed the wrapped channel incoming bytes; the transport's delivery is
    /// not counted until it is read.
    pub fn feed(&mut self, data: &[u8])
        ensures
            final(self)@.inner.unread == old(self)@.inner.unread + data@,
            final(self)@.inner.written == old(self)@.inner.written,
            final(self)@.nbits_read == old(self)@.nbits_read,
            final(self)@.nbits_written == old(self)@.nbits_written,
    {
        self.channel.feed(data);
    }

    /// Drain the bytes written so far, for the transport to deliver.
    pub fn take_written(&mut self) -> (r: Vec<u8>)
        ensures
            r@ == old(self)@.inner.written,
            final(self)@.inner.written == Seq::<u8>::empty(),
            final(self)@.inner.unread == old(self)@.inner.unread,
            final(self)@.nbits_read == old(self)@.nbits_read,
            final(self)@.nbits_written == old(self)@.nbits_written,
    {
        self.channel.take_written()
    }
}

} // verus!
