//! A keyed universal digest of a byte stream, built on Poly1305.
//!
//! The party being checked must not know the key, else it could forge a
//! stream with a matching tag; the checking party therefore receives the
//! key from the third party. The tag is the Poly1305 tag of the fed bytes
//! padded with a single 1 and zeros to a whole number of 16-byte blocks, so
//! equal streams under one key always produce equal tags.

use vstd::prelude::*;
use crate::crypto::{poly1305_tag, poly1305_of};

verus! {

/// The all-zero padding bytes.
pub open spec fn zero_bytes(n: nat) -> Seq<u8> {
    Seq::new(n, |i: int| 0u8)
}

/// A fed stream, padded: a 1 byte then zeros up to a block boundary.
pub open spec fn pad_of(data: Seq<u8>) -> Seq<u8> {
    data + seq![1u8] + zero_bytes(((16 - ((data.len() + 1) % 16)) % 16) as nat)
}

/// The tag a key and a fed stream determine.
pub open spec fn digest_of(key: Seq<u8>, data: Seq<u8>) -> Seq<u8> {
    poly1305_of(key, pad_of(data))
}

/// The digest's mathematical state: its key and the bytes fed so far.
pub ghost struct UniversalDigestView {
    pub key: Seq<u8>,
    pub data: Seq<u8>,
}

/// A keyed universal digest accumulating a byte stream.
pub struct UniversalDigest {
    key: Vec<u8>,
    data: Vec<u8>,
}

impl View for UniversalDigest {
    type V = UniversalDigestView;

    closed spec fn view(&self) -> UniversalDigestView {
        UniversalDigestView { key: self.key@, data: self.data@ }
    }
}

impl UniversalDigest {
    /// Start a digest under a 32-byte key, which should be uniformly random
    /// and unknown to the party whose stream is checked.
    pub fn new(key: &[u8]) -> (r: UniversalDigest)
        requires
            key@.len() == 32,
        ensures
            r@.key == key@,
            r@.data == Seq::<u8>::empty(),
    {
        let mut k: Vec<u8> = Vec::new();
        crate::hash_channel::append_bytes(&mut k, key);
        UniversalDigest { key: k, data: Vec::new() }
    }

    /// Feed bytes into the digest.
    pub fn input(&mut self, data: &[u8])
        ensures
            final(self)@.key == old(self)@.key,
            final(self)@.data == old(self)@.data + data@,
    {
        crate::hash_channel::append_bytes(&mut self.data, data);
    }

    /// Feed one byte into the digest.
    pub fn input_byte(&mut self, b: u8)
        ensures
            final(self)@.key == old(self)@.key,
            final(self)@.data == old(self)@.data + seq![b],
    {
        self.data.push(b);
        proof {
            assert(old(self)@.data.push(b) =~= old(self)@.data + seq![b]);
        }
    }

    /// Forget the fed bytes, keeping the key.
    pub fn reset(&mut self)
        ensures
            final(self)@.key == old(self)@.key,
            final(self)@.data == Seq::<u8>::empty(),
    {
        self.data.clear();
    }

    /// The tag of the bytes fed so far.
    pub fn fixed_result(&self) -> (r: Vec<u8>)
        requires
            self@.key.len() == 32,
        ensures
            r@ == digest_of(self@.key, self@.data),
            r@.len() == 16,
    {
        let mut padded: Vec<u8> = Vec::new();
        crate::hash_channel::append_bytes(&mut padded, self.data.as_slice());
        padded.push(1);
        let rem = (self.data.len() % 16 + 1) % 16;
        let nz = (16 - rem) % 16;
        proof {
            vstd::arithmetic::div_mod::lemma_mod_bound(self@.data.len() as int, 16);
            vstd::arithmetic::div_mod::lemma_add_mod_noop_right(1, self@.data.len() as int, 16);
            vstd::arithmetic::div_mod::lemma_mod_bound(self@.data.len() as int + 1, 16);
            assert(rem as int == (self@.data.len() + 1) % 16);
        }
        let mut z: usize = 0;
        proof {
            assert(self@.data + seq![1u8] + zero_bytes(0) =~= self@.data + seq![1u8]);
            assert(padded@ =~= self@.data + seq![1u8]);
        }
        while z < nz
            invariant
                z <= nz,
                padded@ == self@.data + seq![1u8] + zero_bytes(z as nat),
            decreases nz - z,
        {
            padded.push(0);
            z = z + 1;
            proof {
                assert(self@.data + seq![1u8] + zero_bytes((z - 1) as nat) + seq![0u8]
                    =~= self@.data + seq![1u8] + zero_bytes(z as nat));
            }
        }
        proof {
            assert(self@.data + seq![1u8] + zero_bytes(0) =~= self@.data + seq![1u8]);
            assert(padded@ == pad_of(self@.data));
        }
        poly1305_tag(self.key.as_slice(), padded.as_slice())
    }
}

} // verus!
