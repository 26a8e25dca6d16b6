//! The honest-majority three-party evaluator.
//!
//! The evaluator reads the garbled stream through a channel that verifies
//! the two garblers against each other: bytes arrive from one garbler at a
//! time, alternating every `alternate_every` bytes, and everything read is
//! fed into a keyed digest per garbler. At checkpoints each garbler sends
//! the digest of the bytes it did not transmit, and the evaluator compares
//! it against its own digest of what the other garbler sent; any
//! disagreement is a cheating garbler. Each digest key was generated by the
//! other garbler, so the checked garbler cannot forge a matching tag.

use vstd::prelude::*;
use crate::bytes::{le_of, from_le_of, to_le};
use crate::channel::{Channel, ChannelError};
use crate::crypto::{hash_block_of, hash_block2_of, tweak2, tweak2_of};
use crate::errors::EvaluatorError;
use crate::garble::{
    wire_from_block_of, lemma_wire_of_block_unique, bytes_to_blocks, decode_of, block_of,
    tweak_gate, tweak_output, parse_blocks, decode_rows,
};
use crate::rng::{CounterRng, CounterRngView, rng_block_of, wrap64};
use crate::threepac::PartyId;
use crate::universal_digest::{UniversalDigest, digest_of};
use crate::wire::{Wire, WireView, color_of, add_digits, sub_digits, cmul_digits};

verus! {

/// Errors produced by the three-party evaluator.
#[derive(Debug, Clone, Copy, PartialEq, Eq, Structural)]
pub enum Error {
    /// The transport ran out of bytes.
    IoError(ChannelError),
    /// The garbled data itself was unusable.
    EvaluatorError(EvaluatorError),
    /// The garblers disagree over the circuit: one of them is cheating.
    GarblerMismatch,
    /// A received wire label does not match the garblers' commitment to it:
    /// a party is cheating during input exchange.
    InvalidCommitment,
}

/// The verifying channel's read-relevant state: both digests' fed bytes,
/// both unread streams, and the position in the alternation cycle.
pub ghost struct VcSt {
    pub h1: Seq<u8>,
    pub h2: Seq<u8>,
    pub un1: Seq<u8>,
    pub un2: Seq<u8>,
    pub bh: int,
}

/// One byte through the verifying channel: taken from garbler 1 in the
/// first half of the cycle and from garbler 2 in the second, fed into that
/// garbler's digest; fails when that garbler's bytes have run out.
pub open spec fn vc_step(st: VcSt, ae: int) -> Option<(u8, VcSt)> {
    if st.bh < ae {
        if st.un1.len() == 0 {
            None
        } else {
            Some(
                (
                    st.un1[0],
                    VcSt {
                        h1: st.h1.push(st.un1[0]),
                        h2: st.h2,
                        un1: st.un1.drop_first(),
                        un2: st.un2,
                        bh: st.bh + 1,
                    },
                ),
            )
        }
    } else {
        if st.un2.len() == 0 {
            None
        } else {
            Some(
                (
                    st.un2[0],
                    VcSt {
                        h1: st.h1,
                        h2: st.h2.push(st.un2[0]),
                        un1: st.un1,
                        un2: st.un2.drop_first(),
                        bh: if st.bh + 1 == 2 * ae {
                            0
                        } else {
                            st.bh + 1
                        },
                    },
                ),
            )
        }
    }
}

/// n bytes through the verifying channel, or failure when either garbler's
/// stream runs out in its turn.
pub open spec fn vc_read(st: VcSt, ae: int, n: nat) -> Option<(Seq<u8>, VcSt)>
    decreases n,
{
    if n == 0 {
        Some((Seq::empty(), st))
    } else {
        match vc_step(st, ae) {
            None => None,
            Some(p) => match vc_read(p.1, ae, (n - 1) as nat) {
                None => None,
                Some(r) => Some((seq![p.0] + r.0, r.1)),
            },
        }
    }
}

/// A channel pair that verifies the two garblers against each other.
pub struct VerifyChannel {
    p1: Channel,
    h1: UniversalDigest,
    p2: Channel,
    h2: UniversalDigest,
    alternate_every: usize,
    bytes_hashed: usize,
}

/// The verifying channel's mathematical state.
pub ghost struct VerifyChannelView {
    pub un1: Seq<u8>,
    pub w1: Seq<u8>,
    pub k1: Seq<u8>,
    pub d1: Seq<u8>,
    pub un2: Seq<u8>,
    pub w2: Seq<u8>,
    pub k2: Seq<u8>,
    pub d2: Seq<u8>,
    pub every: int,
    pub bh: int,
}

impl View for VerifyChannel {
    type V = VerifyChannelView;

    closed spec fn view(&self) -> VerifyChannelView {
        VerifyChannelView {
            un1: self.p1@.unread,
            w1: self.p1@.written,
            k1: self.h1@.key,
            d1: self.h1@.data,
            un2: self.p2@.unread,
            w2: self.p2@.written,
            k2: self.h2@.key,
            d2: self.h2@.data,
            every: self.alternate_every as int,
            bh: self.bytes_hashed as int,
        }
    }
}

/// The read state a verifying channel carries.
pub open spec fn vcst_of(v: VerifyChannelView) -> VcSt {
    VcSt { h1: v.d1, h2: v.d2, un1: v.un1, un2: v.un2, bh: v.bh }
}

/// A usable verifying channel: 32-byte keys and a counter inside the cycle.
pub open spec fn vc_wf(v: VerifyChannelView) -> bool {
    &&& v.k1.len() == 32
    &&& v.k2.len() == 32
    &&& 1 <= v.every <= 0x10000000
    &&& 0 <= v.bh < 2 * v.every
}

/// Two byte vectors hold the same bytes.
fn bytes_eq(a: &Vec<u8>, b: &Vec<u8>) -> (r: bool)
    ensures
        r <==> a@ == b@,
{
    if a.len() != b.len() {
        proof {
            assert(a@.len() != b@.len());
        }
        return false;
    }
    let n = a.len();
    let mut i: usize = 0;
    while i < n
        invariant
            i <= n,
            n == a@.len(),
            n == b@.len(),
            forall|j: int| 0 <= j < i ==> a@[j] == b@[j],
        decreases n - i,
    {
        if a[i] != b[i] {
            return false;
        }
        i = i + 1;
    }
    proof {
        assert(a@ =~= b@);
    }
    true
}

impl VerifyChannel {
    /// Open the verifying channel: read from each garbler the 32-byte key
    /// that will check the other one. Each key protects the digest of the
    /// bytes the *other* garbler transmits.
    pub fn new(p1: Channel, p2: Channel, alternate_every: usize) -> (r: Result<
        VerifyChannel,
        ChannelError,
    >)
        requires
            1 <= alternate_every <= 0x10000000,
        ensures
            r is Ok <==> p1@.unread.len() >= 32 && p2@.unread.len() >= 32,
            r matches Ok(v) ==> vc_wf(v@) && v@.k2 == p1@.unread.take(32) && v@.k1
                == p2@.unread.take(32) && v@.un1 == p1@.unread.skip(32) && v@.un2
                == p2@.unread.skip(32) && v@.w1 == p1@.written && v@.w2 == p2@.written && v@.d1
                == Seq::<u8>::empty() && v@.d2 == Seq::<u8>::empty() && v@.every
                == alternate_every as int && v@.bh == 0,
    {
        let mut p1 = p1;
        let mut p2 = p2;
        if p1.unread_len() < 32 || p2.unread_len() < 32 {
            return Err(ChannelError);
        }
        let key2 = match p1.read_bytes(32) {
            Ok(k) => k,
            Err(e) => {
                proof {
                    assert(false);
                }
                return Err(e);
            },
        };
        let key1 = match p2.read_bytes(32) {
            Ok(k) => k,
            Err(e) => {
                proof {
                    assert(false);
                }
                return Err(e);
            },
        };
        Ok(
            VerifyChannel {
                p1,
                h1: UniversalDigest::new(key1.as_slice()),
                p2,
                h2: UniversalDigest::new(key2.as_slice()),
                alternate_every,
                bytes_hashed: 0,
            },
        )
    }

    /// Read n garbled bytes, alternating between the garblers and feeding
    /// each garbler's digest with what it sent.
    pub fn read_alternating(&mut self, n: usize) -> (r: Result<Vec<u8>, ChannelError>)
        requires
            vc_wf(old(self)@),
        ensures
            vc_wf(final(self)@),
            final(self)@.k1 == old(self)@.k1,
            final(self)@.k2 == old(self)@.k2,
            final(self)@.every == old(self)@.every,
            final(self)@.w1 == old(self)@.w1,
            final(self)@.w2 == old(self)@.w2,
            r is Ok <==> vc_read(vcst_of(old(self)@), old(self)@.every, n as nat) is Some,
            r matches Ok(bs) ==> bs@.len() == n && Some((bs@, vcst_of(final(self)@))) == vc_read(
                vcst_of(old(self)@),
                old(self)@.every,
                n as nat,
            ),
            r is Err ==> r == Err::<Vec<u8>, ChannelError>(ChannelError),
    {
        let mut out: Vec<u8> = Vec::new();
        let mut i: usize = 0;
        while i < n
            invariant
                i <= n,
                vc_wf(self@),
                self@.k1 == old(self)@.k1,
                self@.k2 == old(self)@.k2,
                self@.every == old(self)@.every,
                self@.w1 == old(self)@.w1,
                self@.w2 == old(self)@.w2,
                out@.len() == i,
                (vc_read(vcst_of(old(self)@), old(self)@.every, n as nat) is Some <==> vc_read(
                    vcst_of(self@),
                    self@.every,
                    (n - i) as nat,
                ) is Some),
                vc_read(vcst_of(old(self)@), old(self)@.every, n as nat) matches Some(p)
                    ==> (vc_read(vcst_of(self@), self@.every, (n - i) as nat) matches Some(p2)
                    && p.0 == out@ + p2.0 && p.1 == p2.1),
            decreases n - i,
        {
            let ghost pre = vcst_of(self@);
            let b: u8;
            if self.bytes_hashed < self.alternate_every {
                let got = self.p1.read_bytes(1);
                match got {
                    Ok(v) => {
                        b = v[0];
                        self.h1.input_byte(b);
                        self.bytes_hashed = self.bytes_hashed + 1;
                    },
                    Err(_) => {
                        proof {
                            assert(vc_step(pre, self@.every) is None);
                        }
                        return Err(ChannelError);
                    },
                }
                proof {
                    assert(pre.un1[0] == b);
                    assert(self@.d1 =~= pre.h1.push(b));
                    assert(self@.un1 =~= pre.un1.drop_first());
                    assert(vc_step(pre, self@.every) == Some((b, vcst_of(self@))));
                }
            } else {
                let got = self.p2.read_bytes(1);
                match got {
                    Ok(v) => {
                        b = v[0];
                        self.h2.input_byte(b);
                        if self.bytes_hashed + 1 == 2 * self.alternate_every {
                            self.bytes_hashed = 0;
                        } else {
                            self.bytes_hashed = self.bytes_hashed + 1;
                        }
                    },
                    Err(_) => {
                        proof {
                            assert(vc_step(pre, self@.every) is None);
                        }
                        return Err(ChannelError);
                    },
                }
                proof {
                    assert(pre.un2[0] == b);
                    assert(self@.d2 =~= pre.h2.push(b));
                    assert(self@.un2 =~= pre.un2.drop_first());
                    assert(vc_step(pre, self@.every) == Some((b, vcst_of(self@))));
                }
            }
            out.push(b);
            i = i + 1;
            proof {
                let r0 = vc_read(vcst_of(old(self)@), old(self)@.every, n as nat);
                if r0 is Some {
                    let p = r0->Some_0;
                    assert(out@.take(i - 1) =~= out@.drop_last());
                    let p2 = vc_read(pre, self@.every, (n - i + 1) as nat)->Some_0;
                    assert(p.0 == out@.drop_last() + p2.0 && p.1 == p2.1);
                    assert(p2.0 == seq![b] + vc_read(vcst_of(self@), self@.every, (n - i) as nat)->Some_0.0);
                    assert(out@.drop_last() + p2.0 =~= out@ + vc_read(
                        vcst_of(self@),
                        self@.every,
                        (n - i) as nat,
                    )->Some_0.0);
                }
            }
        }
        proof {
            let r0 = vc_read(vcst_of(old(self)@), old(self)@.every, n as nat);
            if r0 is Some {
                assert(r0->Some_0.0 =~= out@);
            }
        }
        Ok(out)
    }

    /// Read one block directly from garbler 1, outside the verification.
    pub fn read_block_p1(&mut self) -> (r: Result<u128, ChannelError>)
        ensures
            r is Ok <==> old(self)@.un1.len() >= 16,
            r matches Ok(v) ==> v as int == from_le_of(old(self)@.un1.take(16)) && final(self)@
                == (VerifyChannelView { un1: old(self)@.un1.skip(16), ..old(self)@ }),
            r is Err ==> final(self)@ == old(self)@,
    {
        self.p1.read_block()
    }

    /// Read one block directly from garbler 2, outside the verification.
    pub fn read_block_p2(&mut self) -> (r: Result<u128, ChannelError>)
        ensures
            r is Ok <==> old(self)@.un2.len() >= 16,
            r matches Ok(v) ==> v as int == from_le_of(old(self)@.un2.take(16)) && final(self)@
                == (VerifyChannelView { un2: old(self)@.un2.skip(16), ..old(self)@ }),
            r is Err ==> final(self)@ == old(self)@,
    {
        self.p2.read_block()
    }

    /// Cross-check the garblers at a checkpoint: each garbler's tag of the
    /// bytes it did not send must equal this side's digest of what the
    /// other garbler sent. Both digests restart afterward.
    pub fn check_hashes(&mut self) -> (r: Result<(), Error>)
        requires
            vc_wf(old(self)@),
        ensures
            vc_wf(final(self)@),
            final(self)@.k1 == old(self)@.k1,
            final(self)@.k2 == old(self)@.k2,
            final(self)@.every == old(self)@.every,
            final(self)@.bh == old(self)@.bh,
            final(self)@.w1 == old(self)@.w1,
            final(self)@.w2 == old(self)@.w2,
            r == Err::<(), Error>(Error::IoError(ChannelError)) <==> old(self)@.un1.len() < 16
                || old(self)@.un2.len() < 16,
            old(self)@.un1.len() < 16 || old(self)@.un2.len() < 16 ==> final(self)@ == old(self)@,
            old(self)@.un1.len() >= 16 && old(self)@.un2.len() >= 16 ==> final(self)@.un1 == old(self)@.un1.skip(16) && final(self)@.un2 == old(self)@.un2.skip(16) && final(self)@.d1
                == Seq::<u8>::empty() && final(self)@.d2 == Seq::<u8>::empty() && (r is Ok <==> (
            old(self)@.un1.take(16) == digest_of(old(self)@.k2, old(self)@.d2) && old(self)@.un2.take(16) == digest_of(old(self)@.k1, old(self)@.d1))) && (r is Err ==> r
                == Err::<(), Error>(Error::GarblerMismatch)),
    {
        if self.p1.unread_len() < 16 || self.p2.unread_len() < 16 {
            return Err(Error::IoError(ChannelError));
        }
        let tag1 = match self.p1.read_bytes(16) {
            Ok(t) => t,
            Err(_) => {
                proof {
                    assert(false);
                }
                return Err(Error::IoError(ChannelError));
            },
        };
        let tag2 = match self.p2.read_bytes(16) {
            Ok(t) => t,
            Err(_) => {
                proof {
                    assert(false);
                }
                return Err(Error::IoError(ChannelError));
            },
        };
        let mine2 = self.h2.fixed_result();
        let mine1 = self.h1.fixed_result();
        self.h1.reset();
        self.h2.reset();
        if !bytes_eq(&tag1, &mine2) || !bytes_eq(&tag2, &mine1) {
            return Err(Error::GarblerMismatch);
        }
        Ok(())
    }

    /// Write bytes to both garblers (revealed labels go to both).
    pub fn write_both(&mut self, data: &[u8])
        ensures
            final(self)@ == (VerifyChannelView {
                w1: old(self)@.w1 + data@,
                w2: old(self)@.w2 + data@,
                ..old(self)@
            }),
    {
        self.p1.write_bytes(data);
        self.p2.write_bytes(data);
    }

    /// How many bytes from garbler 1 remain unread.
    pub fn unread_len_p1(&self) -> (n: usize)
        ensures
            n as int == self@.un1.len(),
    {
        self.p1.unread_len()
    }

    /// How many bytes from garbler 2 remain unread.
    pub fn unread_len_p2(&self) -> (n: usize)
        ensures
            n as int == self@.un2.len(),
    {
        self.p2.unread_len()
    }

    /// Hand the channel bytes arriving from garbler 1.
    pub fn feed_p1(&mut self, data: &[u8])
        ensures
            final(self)@ == (VerifyChannelView { un1: old(self)@.un1 + data@, ..old(self)@ }),
    {
        self.p1.feed(data);
    }

    /// Hand the channel bytes arriving from garbler 2.
    pub fn feed_p2(&mut self, data: &[u8])
        ensures
            final(self)@ == (VerifyChannelView { un2: old(self)@.un2 + data@, ..old(self)@ }),
    {
        self.p2.feed(data);
    }

    /// Drain the bytes written toward garbler 1.
    pub fn take_written_p1(&mut self) -> (r: Vec<u8>)
        ensures
            r@ == old(self)@.w1,
            final(self)@ == (VerifyChannelView { w1: Seq::<u8>::empty(), ..old(self)@ }),
    {
        self.p1.take_written()
    }

    /// Drain the bytes written toward garbler 2.
    pub fn take_written_p2(&mut self) -> (r: Vec<u8>)
        ensures
            r@ == old(self)@.w2,
            final(self)@ == (VerifyChannelView { w2: Seq::<u8>::empty(), ..old(self)@ }),
    {
        self.p2.take_written()
    }

    /// Write two little-endian bytes to garbler 1 (an input share).
    pub fn write_u16_p1(&mut self, s: u16)
        ensures
            final(self)@ == (VerifyChannelView {
                w1: old(self)@.w1 + le_of(s as int, 2),
                ..old(self)@
            }),
    {
        self.p1.write_u16(s);
    }

    /// Write two little-endian bytes to garbler 2 (an input share).
    pub fn write_u16_p2(&mut self, s: u16)
        ensures
            final(self)@ == (VerifyChannelView {
                w2: old(self)@.w2 + le_of(s as int, 2),
                ..old(self)@
            }),
    {
        self.p2.write_u16(s);
    }
}

/// The labels a byte stream claims for a list of wire moduli, one block
/// each.
pub open spec fn labels_of(un: Seq<u8>, qs: Seq<u16>) -> Seq<WireView> {
    Seq::new(
        qs.len(),
        |i: int|
            wire_from_block_of(
                from_le_of(un.subrange(16 * i, 16 * i + 16)) as u128,
                qs[i] as int,
            ),
    )
}

/// Reading the commitment tables of a list of labels through the verifying
/// channel, keeping for each label the row its color indexes.
pub open spec fn commits_read(st: VcSt, every: int, labs: Seq<WireView>) -> Option<
    (Seq<u128>, VcSt),
>
    decreases labs.len(),
{
    if labs.len() == 0 {
        Some((Seq::empty(), st))
    } else {
        match vc_read(st, every, (16 * labs[0].q) as nat) {
            None => None,
            Some(p) => match commits_read(p.1, every, labs.drop_first()) {
                None => None,
                Some(r) => Some(
                    (seq![bytes_to_blocks(p.0)[color_of(labs[0]) as int]] + r.0, r.1),
                ),
            },
        }
    }
}

/// A commitment row matches a label: the row is the hash of that label
/// under its color's tweak.
pub open spec fn commit_matches(row: u128, lab: WireView) -> bool {
    row == hash_block_of(block_of(lab), tweak2_of(color_of(lab) as u64, 2))
}

/// The three-party evaluator's mathematical state.
pub ghost struct EvaluatorView {
    pub vc: VerifyChannelView,
    pub rng: CounterRngView,
    pub gate: u64,
    pub out: u64,
}

/// Honest majority three party evaluator.
pub struct Evaluator {
    vc: VerifyChannel,
    rng: CounterRng,
    gate_index: u64,
    out_index: u64,
}

impl View for Evaluator {
    type V = EvaluatorView;

    closed spec fn view(&self) -> EvaluatorView {
        EvaluatorView { vc: self.vc@, rng: self.rng@, gate: self.gate_index, out: self.out_index }
    }
}

/// A usable evaluator: its verifying channel is sound.
pub open spec fn ev_wf(v: EvaluatorView) -> bool {
    vc_wf(v.vc)
}

impl Evaluator {
    /// Make a new evaluator over the two garbler channels, reading the
    /// digest keys first. `alternate_every` must match all three parties.
    pub fn new(channel_p1: Channel, channel_p2: Channel, rng: CounterRng, alternate_every: usize)
        -> (r: Result<Evaluator, Error>)
        requires
            1 <= alternate_every <= 0x10000000,
        ensures
            r is Ok <==> channel_p1@.unread.len() >= 32 && channel_p2@.unread.len() >= 32,
            r is Err ==> r == Err::<Evaluator, Error>(Error::IoError(ChannelError)),
            r matches Ok(ev) ==> ev_wf(ev@) && ev@.rng == rng@ && ev@.gate == 0 && ev@.out == 0
                && ev@.vc.k2 == channel_p1@.unread.take(32) && ev@.vc.k1 == channel_p2@.unread.take(
                32,
            ) && ev@.vc.un1 == channel_p1@.unread.skip(32) && ev@.vc.un2 == channel_p2@.unread.skip(
                32,
            ) && ev@.vc.w1 == channel_p1@.written && ev@.vc.w2 == channel_p2@.written && ev@.vc.d1
                == Seq::<u8>::empty() && ev@.vc.d2 == Seq::<u8>::empty() && ev@.vc.every
                == alternate_every as int && ev@.vc.bh == 0,
    {
        match VerifyChannel::new(channel_p1, channel_p2, alternate_every) {
            Ok(vc) => Ok(Evaluator { vc, rng, gate_index: 0, out_index: 0 }),
            Err(e) => Err(Error::IoError(e)),
        }
    }

    /// Split each private input x into additive shares: a masked share s1
    /// for garbler 1 and s2 = (s1 + x) mod q for garbler 2, so neither
    /// garbler alone learns x.
    pub fn send_shares(&mut self, inputs: &Vec<u16>, moduli: &Vec<u16>)
        requires
            ev_wf(old(self)@),
            inputs@.len() == moduli@.len(),
            forall|i: int| 0 <= i < inputs@.len() ==> (#[trigger] inputs@[i]) < moduli@[i],
            forall|i: int| 0 <= i < moduli@.len() ==> (#[trigger] moduli@[i]) >= 2,
        ensures
            ev_wf(final(self)@),
            final(self)@.vc == (VerifyChannelView {
                w1: old(self)@.vc.w1 + shares1_bytes(
                    old(self)@.rng.seed,
                    old(self)@.rng.ctr,
                    moduli@,
                ),
                w2: old(self)@.vc.w2 + shares2_bytes(
                    old(self)@.rng.seed,
                    old(self)@.rng.ctr,
                    moduli@,
                    inputs@,
                ),
                ..old(self)@.vc
            }),
            final(self)@.rng.seed == old(self)@.rng.seed,
            final(self)@.gate == old(self)@.gate,
            final(self)@.out == old(self)@.out,
    {
        let ghost seed0 = self@.rng.seed;
        let ghost ctr0 = self@.rng.ctr;
        let ghost w1base = self@.vc.w1;
        let ghost w2base = self@.vc.w2;
        let n = inputs.len();
        let mut i: usize = 0;
        proof {
            assert(moduli@.skip(0) =~= moduli@);
            assert(inputs@.skip(0) =~= inputs@);
        }
        while i < n
            invariant
                i <= n,
                n == inputs@.len(),
                n == moduli@.len(),
                ev_wf(self@),
                forall|t: int| 0 <= t < inputs@.len() ==> (#[trigger] inputs@[t]) < moduli@[t],
                forall|t: int| 0 <= t < moduli@.len() ==> (#[trigger] moduli@[t]) >= 2,
                self@.rng.seed == seed0,
                self@.vc.w1 + shares1_bytes(seed0, self@.rng.ctr, moduli@.skip(i as int)) == w1base
                    + shares1_bytes(seed0, ctr0, moduli@),
                self@.vc.w2 + shares2_bytes(
                    seed0,
                    self@.rng.ctr,
                    moduli@.skip(i as int),
                    inputs@.skip(i as int),
                ) == w2base + shares2_bytes(seed0, ctr0, moduli@, inputs@),
                self@.vc.un1 == old(self)@.vc.un1,
                self@.vc.un2 == old(self)@.vc.un2,
                self@.vc.k1 == old(self)@.vc.k1,
                self@.vc.k2 == old(self)@.vc.k2,
                self@.vc.d1 == old(self)@.vc.d1,
                self@.vc.d2 == old(self)@.vc.d2,
                self@.vc.every == old(self)@.vc.every,
                self@.vc.bh == old(self)@.vc.bh,
                self@.gate == old(self)@.gate,
                self@.out == old(self)@.out,
            decreases n - i,
        {
            proof {
                assert(moduli@.skip(i as int)[0] == moduli@[i as int]);
                assert(inputs@.skip(i as int)[0] == inputs@[i as int]);
                assert(moduli@.skip(i as int).drop_first() =~= moduli@.skip(i as int + 1));
                assert(inputs@.skip(i as int).drop_first() =~= inputs@.skip(i as int + 1));
            }
            let q = moduli[i];
            let s1 = self.rng.gen_u16() % q;
            self.vc.write_u16_p1(s1);
            let s2 = ((s1 as u32 + inputs[i] as u32) % q as u32) as u16;
            self.vc.write_u16_p2(s2);
            i = i + 1;
        }
        proof {
            assert(moduli@.skip(n as int) =~= Seq::<u16>::empty());
            assert(inputs@.skip(n as int) =~= Seq::<u16>::empty());
            assert(self@.vc.w1 =~= w1base + shares1_bytes(seed0, ctr0, moduli@));
            assert(self@.vc.w2 =~= w2base + shares2_bytes(seed0, ctr0, moduli@, inputs@));
        }
    }

    /// Receive garbler input wires: the claimed labels come directly from
    /// the owning garbler, the commitments to every label come through the
    /// verifying channel from both garblers, a digest checkpoint catches a
    /// garbler deviating from the other, and a label whose commitment does
    /// not match aborts with `InvalidCommitment` before anything is
    /// revealed.
    pub fn receive_many(&mut self, from: PartyId, moduli: &Vec<u16>) -> (r: Result<Vec<Wire>, Error>)
        requires
            ev_wf(old(self)@),
            from != PartyId::Evaluator,
            forall|i: int| 0 <= i < moduli@.len() ==> (#[trigger] moduli@[i]) >= 2,
        ensures
            ev_wf(final(self)@) || final(self)@ == old(self)@,
            final(self)@.rng == old(self)@.rng,
            final(self)@.gate == old(self)@.gate,
            final(self)@.out == old(self)@.out,
            final(self)@.vc.k1 == old(self)@.vc.k1,
            final(self)@.vc.k2 == old(self)@.vc.k2,
            final(self)@.vc.every == old(self)@.vc.every,
            final(self)@.vc.w1 == old(self)@.vc.w1,
            final(self)@.vc.w2 == old(self)@.vc.w2,
            r matches Ok(ws) ==> receive_ok(
                old(self)@.vc,
                from,
                moduli@,
                ws@.map(|i: int, w: Wire| w@),
                final(self)@.vc,
            ),
            r matches Ok(ws) ==> ws@.len() == moduli@.len() && forall|i: int|
                0 <= i < ws@.len() ==> (#[trigger] ws@[i]).wf() && ws@[i]@.q == moduli@[i] as int,
            r is Ok <==> receive_readable(old(self)@.vc, from, moduli@) && hashes_agree(
                old(self)@.vc,
                from,
                moduli@,
            ) && (forall|i: int|
                0 <= i < moduli@.len() ==> commit_matches(
                    #[trigger] receive_rows(old(self)@.vc, from, moduli@)[i],
                    receive_labels(old(self)@.vc, from, moduli@)[i],
                )),
            r == Err::<Vec<Wire>, Error>(Error::IoError(ChannelError)) <==> !receive_readable(
                old(self)@.vc,
                from,
                moduli@,
            ),
            receive_readable(old(self)@.vc, from, moduli@) ==> (r == Err::<Vec<Wire>, Error>(
                Error::GarblerMismatch,
            ) <==> !hashes_agree(old(self)@.vc, from, moduli@)),
            receive_readable(old(self)@.vc, from, moduli@) && hashes_agree(
                old(self)@.vc,
                from,
                moduli@,
            ) ==> (r == Err::<Vec<Wire>, Error>(Error::InvalidCommitment) <==> exists|i: int|
                0 <= i < moduli@.len() && !commit_matches(
                    #[trigger] receive_rows(old(self)@.vc, from, moduli@)[i],
                    receive_labels(old(self)@.vc, from, moduli@)[i],
                )),
    {
        let n = moduli.len();
        let from_p1 = matches!(from, PartyId::Garbler1);
        let avail = if from_p1 {
            self.vc.unread_len_p1()
        } else {
            self.vc.unread_len_p2()
        };
        proof {
            vstd::arithmetic::div_mod::lemma_fundamental_div_mod(avail as int, 16);
            vstd::arithmetic::div_mod::lemma_mod_bound(avail as int, 16);
        }
        proof {
            assert(from_p1 <==> from == PartyId::Garbler1);
        }
        if avail / 16 < n {
            proof {
                assert((avail as int) < 16 * (n as int)) by (nonlinear_arith)
                    requires
                        avail as int / 16 < n as int,
                        avail as int == 16 * (avail as int / 16) + avail as int % 16,
                        avail as int % 16 < 16,
                ;
                assert(!receive_readable(old(self)@.vc, from, moduli@));
            }
            return Err(Error::IoError(ChannelError));
        }
        proof {
            assert(16 * (n as int) <= avail as int) by (nonlinear_arith)
                requires
                    n as int <= avail as int / 16,
                    avail as int == 16 * (avail as int / 16) + avail as int % 16,
                    0 <= avail as int % 16,
            ;
        }
        let ghost sender0 = if from_p1 {
            old(self)@.vc.un1
        } else {
            old(self)@.vc.un2
        };
        let ghost labsv = labels_of(sender0, moduli@);
        let mut labs: Vec<Wire> = Vec::new();
        let mut i: usize = 0;
        proof {
            assert(sender0.skip(0) =~= sender0);
        }
        while i < n
            invariant
                i <= n,
                n == moduli@.len(),
                ev_wf(self@),
                forall|t: int| 0 <= t < moduli@.len() ==> (#[trigger] moduli@[t]) >= 2,
                sender0 == if from_p1 {
                    old(self)@.vc.un1
                } else {
                    old(self)@.vc.un2
                },
                labsv == labels_of(sender0, moduli@),
                sender0.len() >= 16 * n,
                self@.vc == if from_p1 {
                    (VerifyChannelView { un1: sender0.skip(16 * i as int), ..old(self)@.vc })
                } else {
                    (VerifyChannelView { un2: sender0.skip(16 * i as int), ..old(self)@.vc })
                },
                self@.rng == old(self)@.rng,
                self@.gate == old(self)@.gate,
                self@.out == old(self)@.out,
                labs@.len() == i,
                forall|t: int|
                    0 <= t < i ==> (#[trigger] labs@[t])@ == labsv[t] && labs@[t].wf()
                        && labs@[t]@.q == moduli@[t] as int,
            decreases n - i,
        {
            proof {
                assert(sender0.skip(16 * i as int).take(16) =~= sender0.subrange(
                    16 * i as int,
                    16 * i as int + 16,
                ));
                assert(sender0.skip(16 * i as int).skip(16) =~= sender0.skip(16 * (i as int + 1)));
            }
            let b: u128;
            if from_p1 {
                b = match self.vc.read_block_p1() {
                    Ok(b) => b,
                    Err(_) => {
                        proof {
                            assert(false);
                        }
                        0
                    },
                };
            } else {
                b = match self.vc.read_block_p2() {
                    Ok(b) => b,
                    Err(_) => {
                        proof {
                            assert(false);
                        }
                        0
                    },
                };
            }
            let w = Wire::from_block(b, moduli[i]);
            proof {
                lemma_wire_of_block_unique(w@, b);
            }
            labs.push(w);
            i = i + 1;
        }
        let ghost st_l = vcst_of(self@.vc);
        let mut rows: Vec<u128> = Vec::new();
        let mut k: usize = 0;
        proof {
            assert(labsv.skip(0) =~= labsv);
        }
        while k < n
            invariant
                k <= n,
                n == moduli@.len(),
                n == labs@.len(),
                ev_wf(self@),
                forall|t: int| 0 <= t < moduli@.len() ==> (#[trigger] moduli@[t]) >= 2,
                forall|t: int|
                    0 <= t < n ==> (#[trigger] labs@[t])@ == labsv[t] && labs@[t].wf()
                        && labs@[t]@.q == moduli@[t] as int,
                labsv.len() == n,
                self@.vc.k1 == old(self)@.vc.k1,
                self@.vc.k2 == old(self)@.vc.k2,
                self@.vc.every == old(self)@.vc.every,
                self@.vc.w1 == old(self)@.vc.w1,
                self@.vc.w2 == old(self)@.vc.w2,
                self@.rng == old(self)@.rng,
                self@.gate == old(self)@.gate,
                self@.out == old(self)@.out,
                rows@.len() == k,
                st_l == after_labels(old(self)@.vc, from, moduli@),
                labsv == receive_labels(old(self)@.vc, from, moduli@),
                (if from == PartyId::Garbler1 {
                    old(self)@.vc.un1.len()
                } else {
                    old(self)@.vc.un2.len()
                }) >= 16 * moduli@.len(),
                (commits_read(st_l, self@.vc.every, labsv) is Some <==> commits_read(
                    vcst_of(self@.vc),
                    self@.vc.every,
                    labsv.skip(k as int),
                ) is Some),
                commits_read(st_l, self@.vc.every, labsv) matches Some(p) ==> (commits_read(
                    vcst_of(self@.vc),
                    self@.vc.every,
                    labsv.skip(k as int),
                ) matches Some(p2) && p.0 == rows@ + p2.0 && p.1 == p2.1),
            decreases n - k,
        {
            proof {
                assert(labsv.skip(k as int)[0] == labsv[k as int]);
                assert(labsv.skip(k as int).drop_first() =~= labsv.skip(k as int + 1));
                assert(labs@[k as int]@ == labsv[k as int]);
                assert(labsv[k as int].q == moduli@[k as int] as int);
            }
            let q = moduli[k];
            let ghost pre = vcst_of(self@.vc);
            let bs = match self.vc.read_alternating(16 * (q as usize)) {
                Ok(bs) => bs,
                Err(_) => {
                    proof {
                        assert(vc_read(pre, self@.vc.every, (16 * labsv[k as int].q) as nat)
                            is None);
                        assert(commits_read(pre, self@.vc.every, labsv.skip(k as int)) is None);
                        assert(commits_read(st_l, self@.vc.every, labsv) is None);
                        assert(!receive_readable(old(self)@.vc, from, moduli@));
                    }
                    return Err(Error::IoError(ChannelError));
                },
            };
            let blocks = parse_blocks(&bs);
            proof {
                crate::garble::lemma_blocks_to_bytes_len(bytes_to_blocks(bs@));
                assert(bytes_to_blocks(bs@).len() == 16 * (q as int) / 16);
                assert(16 * (q as int) / 16 == q as int) by (nonlinear_arith);
            }
            let c = labs[k].color();
            let row = blocks[c as usize];
            rows.push(row);
            k = k + 1;
            proof {
                let r0 = commits_read(st_l, self@.vc.every, labsv);
                if r0 is Some {
                    let p = r0->Some_0;
                    let p2 = commits_read(pre, self@.vc.every, labsv.skip(k - 1))->Some_0;
                    assert(p2.0 == seq![bytes_to_blocks(bs@)[color_of(labsv[k - 1]) as int]]
                        + commits_read(vcst_of(self@.vc), self@.vc.every, labsv.skip(k as int))->Some_0.0);
                    assert(rows@.drop_last() + p2.0 =~= rows@ + commits_read(
                        vcst_of(self@.vc),
                        self@.vc.every,
                        labsv.skip(k as int),
                    )->Some_0.0);
                    assert(p.0 == rows@.drop_last() + p2.0) by {
                        assert(rows@.drop_last() =~= rows@.take(k - 1));
                    }
                }
            }
        }
        proof {
            assert(labsv.skip(n as int) =~= Seq::<WireView>::empty());
            let r0 = commits_read(st_l, self@.vc.every, labsv);
            assert(r0 is Some);
            assert(r0->Some_0.0 =~= rows@);
        }
        let ghost st2 = commits_read(st_l, self@.vc.every, labsv)->Some_0.1;
        proof {
            assert(st2 == vcst_of(self@.vc));
            assert(st_l == after_labels(old(self)@.vc, from, moduli@));
            assert(labsv == receive_labels(old(self)@.vc, from, moduli@));
        }
        match self.vc.check_hashes() {
            Ok(()) => (),
            Err(e) => {
                proof {
                    if e == Error::IoError(ChannelError) {
                        assert(st2.un1.len() < 16 || st2.un2.len() < 16);
                        assert(!receive_readable(old(self)@.vc, from, moduli@));
                    } else {
                        assert(e == Error::GarblerMismatch);
                        assert(receive_readable(old(self)@.vc, from, moduli@));
                        assert(!hashes_agree(old(self)@.vc, from, moduli@));
                    }
                }
                return Err(e);
            },
        }
        proof {
            assert(receive_readable(old(self)@.vc, from, moduli@));
            assert(hashes_agree(old(self)@.vc, from, moduli@));
        }
        let ghost vc_after = self@.vc;
        let mut j: usize = 0;
        while j < n
            invariant
                j <= n,
                n == moduli@.len(),
                n == labs@.len(),
                n == rows@.len(),
                self@.vc == vc_after,
                vc_after.un1 == st2.un1.skip(16),
                vc_after.un2 == st2.un2.skip(16),
                vc_after.d1 == Seq::<u8>::empty(),
                vc_after.d2 == Seq::<u8>::empty(),
                vc_after.bh == st2.bh,
                st2 == commits_read(st_l, vc_after.every, labsv)->Some_0.1,
                st_l == after_labels(old(self)@.vc, from, moduli@),
                receive_readable(old(self)@.vc, from, moduli@),
                hashes_agree(old(self)@.vc, from, moduli@),
                ev_wf(self@),
                forall|t: int|
                    0 <= t < n ==> (#[trigger] labs@[t])@ == labsv[t] && labs@[t].wf()
                        && labs@[t]@.q == moduli@[t] as int,
                labsv.len() == n,
                rows@ == receive_rows(old(self)@.vc, from, moduli@),
                labsv == receive_labels(old(self)@.vc, from, moduli@),
                self@.vc.k1 == old(self)@.vc.k1,
                self@.vc.k2 == old(self)@.vc.k2,
                self@.vc.every == old(self)@.vc.every,
                self@.vc.w1 == old(self)@.vc.w1,
                self@.vc.w2 == old(self)@.vc.w2,
                self@.rng == old(self)@.rng,
                self@.gate == old(self)@.gate,
                self@.out == old(self)@.out,
                forall|t: int| 0 <= t < j ==> commit_matches(rows@[t], labsv[t]),
            decreases n - j,
        {
            let expected = labs[j].hash(tweak2(labs[j].color() as u64, 2));
            if rows[j] != expected {
                proof {
                    assert(!commit_matches(
                        receive_rows(old(self)@.vc, from, moduli@)[j as int],
                        receive_labels(old(self)@.vc, from, moduli@)[j as int],
                    ));
                }
                return Err(Error::InvalidCommitment);
            }
            j = j + 1;
        }
        proof {
            assert(labs@.map(|t: int, w: Wire| w@) =~= labsv);
        }
        Ok(labs)
    }
}

/// Garbler 1's share of each input: the low bits of a fresh block, reduced
/// into the input's modulus.
pub open spec fn share1_at(seed: u128, ctr: u64, q: u16) -> int {
    (rng_block_of(seed, ctr) as int % 0x10000) % (q as int)
}

/// The bytes of garbler 1's shares.
pub open spec fn shares1_bytes(seed: u128, ctr: u64, qs: Seq<u16>) -> Seq<u8>
    decreases qs.len(),
{
    if qs.len() == 0 {
        Seq::empty()
    } else {
        le_of(share1_at(seed, ctr, qs[0]), 2) + shares1_bytes(
            seed,
            wrap64(ctr + 1) as u64,
            qs.drop_first(),
        )
    }
}

/// The bytes of garbler 2's shares: each is the first share plus the input,
/// modulo the wire's modulus.
pub open spec fn shares2_bytes(seed: u128, ctr: u64, qs: Seq<u16>, xs: Seq<u16>) -> Seq<u8>
    decreases qs.len(),
{
    if qs.len() == 0 {
        Seq::empty()
    } else {
        le_of((share1_at(seed, ctr, qs[0]) + xs[0]) % (qs[0] as int), 2) + shares2_bytes(
            seed,
            wrap64(ctr + 1) as u64,
            qs.drop_first(),
            xs.drop_first(),
        )
    }
}

/// The labels a receive would parse from the current channel state.
pub open spec fn receive_labels(vc: VerifyChannelView, from: PartyId, qs: Seq<u16>) -> Seq<
    WireView,
> {
    labels_of(
        if from == PartyId::Garbler1 {
            vc.un1
        } else {
            vc.un2
        },
        qs,
    )
}

/// The channel state after the direct label reads of a receive.
pub open spec fn after_labels(vc: VerifyChannelView, from: PartyId, qs: Seq<u16>) -> VcSt {
    if from == PartyId::Garbler1 {
        VcSt { h1: vc.d1, h2: vc.d2, un1: vc.un1.skip(16 * qs.len() as int), un2: vc.un2, bh: vc.bh }
    } else {
        VcSt { h1: vc.d1, h2: vc.d2, un1: vc.un1, un2: vc.un2.skip(16 * qs.len() as int), bh: vc.bh }
    }
}

/// The commitment rows a receive would pick for each label.
pub open spec fn receive_rows(vc: VerifyChannelView, from: PartyId, qs: Seq<u16>) -> Seq<u128> {
    commits_read(after_labels(vc, from, qs), vc.every, receive_labels(vc, from, qs))->Some_0.0
}

/// The digest checkpoint after a receive agrees between the garblers.
pub open spec fn hashes_agree(vc: VerifyChannelView, from: PartyId, qs: Seq<u16>) -> bool {
    let st2 = commits_read(after_labels(vc, from, qs), vc.every, receive_labels(vc, from, qs))
        ->Some_0.1;
    st2.un1.take(16) == digest_of(vc.k2, st2.h2) && st2.un2.take(16) == digest_of(vc.k1, st2.h1)
}

/// Every byte a receive needs is present: the claimed label blocks from
/// the owning garbler, the commitment tables through the alternation, and
/// the two 16-byte checkpoint tags.
pub open spec fn receive_readable(vc: VerifyChannelView, from: PartyId, qs: Seq<u16>) -> bool {
    let cr = commits_read(after_labels(vc, from, qs), vc.every, receive_labels(vc, from, qs));
    &&& (if from == PartyId::Garbler1 {
        vc.un1.len()
    } else {
        vc.un2.len()
    }) >= 16 * qs.len()
    &&& cr is Some
    &&& cr->Some_0.1.un1.len() >= 16
    &&& cr->Some_0.1.un2.len() >= 16
}

/// An output gate's bytes are present: the decoding table through the
/// alternation and the two 16-byte checkpoint tags after it.
pub open spec fn output_readable(vc: VerifyChannelView, x: WireView) -> bool {
    let p = vc_read(vcst_of(vc), vc.every, (16 * x.q) as nat);
    &&& p is Some
    &&& p->Some_0.1.un1.len() >= 16
    &&& p->Some_0.1.un2.len() >= 16
}

/// The checkpoint after an output gate agrees: each garbler's tag equals
/// this side's digest of what the other garbler sent.
pub open spec fn output_hashes_agree(vc: VerifyChannelView, x: WireView) -> bool {
    let st = vc_read(vcst_of(vc), vc.every, (16 * x.q) as nat)->Some_0.1;
    st.un1.take(16) == digest_of(vc.k2, st.h2) && st.un2.take(16) == digest_of(vc.k1, st.h1)
}

/// What a successful receive did: the labels come from the claimed blocks,
/// the commitment rows all match them, the checkpoint agreed, and the
/// channel advanced past the labels, the tables and the two tags.
pub open spec fn receive_ok(
    vc0: VerifyChannelView,
    from: PartyId,
    qs: Seq<u16>,
    ws: Seq<WireView>,
    vc1: VerifyChannelView,
) -> bool {
    let labs = receive_labels(vc0, from, qs);
    let cr = commits_read(after_labels(vc0, from, qs), vc0.every, labs);
    &&& (if from == PartyId::Garbler1 {
        vc0.un1.len()
    } else {
        vc0.un2.len()
    }) >= 16 * qs.len()
    &&& ws == labs
    &&& cr is Some
    &&& (forall|i: int| 0 <= i < qs.len() ==> commit_matches(#[trigger] cr->Some_0.0[i], labs[i]))
    &&& hashes_agree(vc0, from, qs)
    &&& vc1.un1 == cr->Some_0.1.un1.skip(16)
    &&& vc1.un2 == cr->Some_0.1.un2.skip(16)
    &&& vc1.d1 == Seq::<u8>::empty()
    &&& vc1.d2 == Seq::<u8>::empty()
    &&& vc1.bh == cr->Some_0.1.bh
}


/// The decode phase of a reveal: read each wire's decoding table through
/// the verifying channel and decode the wire's label against it. The first
/// thing to go wrong decides: a table that cannot be read is a transport
/// fault, a label matching no row means the garbled data was unusable.
pub open spec fn decode_outcome(st: VcSt, every: int, xs: Seq<WireView>, out: u64) -> Result<
    (Seq<u16>, VcSt),
    Error,
>
    decreases xs.len(),
{
    if xs.len() == 0 {
        Ok((Seq::empty(), st))
    } else {
        match vc_read(st, every, (16 * xs[0].q) as nat) {
            None => Err(Error::IoError(ChannelError)),
            Some(p) => match decode_of(
                bytes_to_blocks(p.0),
                hash_block_of(block_of(xs[0]), tweak_output(out)),
            ) {
                None => Err(Error::EvaluatorError(EvaluatorError::DecodeFailed)),
                Some(v) => match decode_outcome(p.1, every, xs.drop_first(), wrap64(out + 1) as u64) {
                    Err(e) => Err(e),
                    Ok(rest) => Ok((seq![v] + rest.0, rest.1)),
                },
            },
        }
    }
}

/// A reveal is owed success: every table is readable, every label decodes,
/// both checkpoint tags are present and each garbler's tag matches this
/// side's digest of the other garbler's bytes.
pub open spec fn reveal_ok(vc: VerifyChannelView, xs: Seq<WireView>, out: u64) -> bool {
    let d = decode_outcome(vcst_of(vc), vc.every, xs, out);
    &&& d is Ok
    &&& d->Ok_0.1.un1.len() >= 16
    &&& d->Ok_0.1.un2.len() >= 16
    &&& d->Ok_0.1.un1.take(16) == digest_of(vc.k2, d->Ok_0.1.h2)
    &&& d->Ok_0.1.un2.take(16) == digest_of(vc.k1, d->Ok_0.1.h1)
}

/// The revealed labels' bytes, as written back to both garblers.
pub open spec fn labels_bytes(xs: Seq<WireView>) -> Seq<u8>
    decreases xs.len(),
{
    if xs.len() == 0 {
        Seq::empty()
    } else {
        le_of(block_of(xs[0]) as int, 16) + labels_bytes(xs.drop_first())
    }
}

impl Evaluator {
    /// Reconstruct the wires of this evaluator's own inputs from the two
    /// garblers' share wires: the second minus the first.
    pub fn combine_shares(&mut self, w1: &Vec<Wire>, w2: &Vec<Wire>) -> (r: Vec<Wire>)
        requires
            w1@.len() == w2@.len(),
            forall|i: int| 0 <= i < w1@.len() ==> (#[trigger] w1@[i]).wf(),
            forall|i: int| 0 <= i < w2@.len() ==> (#[trigger] w2@[i]).wf(),
            forall|i: int| 0 <= i < w1@.len() ==> (#[trigger] w1@[i])@.q == w2@[i]@.q,
        ensures
            r@.len() == w1@.len(),
            forall|i: int|
                0 <= i < r@.len() ==> (#[trigger] r@[i]).wf() && r@[i]@.q == w1@[i]@.q && r@[i]@.ds
                    == sub_digits(w2@[i]@.ds, w1@[i]@.ds, w1@[i]@.q),
            final(self)@ == old(self)@,
    {
        let n = w1.len();
        let mut out: Vec<Wire> = Vec::new();
        let mut i: usize = 0;
        while i < n
            invariant
                i <= n,
                n == w1@.len(),
                n == w2@.len(),
                forall|t: int| 0 <= t < n ==> (#[trigger] w1@[t]).wf(),
                forall|t: int| 0 <= t < n ==> (#[trigger] w2@[t]).wf(),
                forall|t: int| 0 <= t < n ==> (#[trigger] w1@[t])@.q == w2@[t]@.q,
                out@.len() == i,
                forall|t: int|
                    0 <= t < i ==> (#[trigger] out@[t]).wf() && out@[t]@.q == w1@[t]@.q
                        && out@[t]@.ds == sub_digits(w2@[t]@.ds, w1@[t]@.ds, w1@[t]@.q),
            decreases n - i,
        {
            out.push(w2[i].minus(&w1[i]));
            i = i + 1;
        }
        out
    }

    /// The free constant gate: the evaluator's constant label is all zero.
    pub fn constant(&mut self, q: u16) -> (r: Wire)
        requires
            q >= 2,
        ensures
            r.wf(),
            r@.q == q as int,
            r@ == wire_from_block_of(0, q as int),
            final(self)@ == old(self)@,
    {
        let w = Wire::zero(q);
        proof {
            crate::wire::lemma_zero_val(w@.ds, q as int);
            vstd::arithmetic::power::lemma_pow_positive(q as int, w@.ds.len());
            vstd::arithmetic::div_mod::lemma_small_mod(
                0,
                vstd::arithmetic::power::pow(q as int, w@.ds.len()) as nat,
            );
            lemma_wire_of_block_unique(w@, 0);
        }
        w
    }

    /// The free add gate.
    pub fn add(&mut self, x: &Wire, y: &Wire) -> (r: Wire)
        requires
            x.wf(),
            y.wf(),
            x@.q == y@.q,
        ensures
            r.wf(),
            r@.q == x@.q,
            r@.ds == add_digits(x@.ds, y@.ds, x@.q),
            final(self)@ == old(self)@,
    {
        x.plus(y)
    }

    /// The free subtract gate.
    pub fn sub(&mut self, x: &Wire, y: &Wire) -> (r: Wire)
        requires
            x.wf(),
            y.wf(),
            x@.q == y@.q,
        ensures
            r.wf(),
            r@.q == x@.q,
            r@.ds == sub_digits(x@.ds, y@.ds, x@.q),
            final(self)@ == old(self)@,
    {
        x.minus(y)
    }

    /// The free scalar-multiply gate.
    pub fn cmul(&mut self, x: &Wire, c: u16) -> (r: Wire)
        requires
            x.wf(),
        ensures
            r.wf(),
            r@.q == x@.q,
            r@.ds == cmul_digits(x@.ds, c as int, x@.q),
            final(self)@ == old(self)@,
    {
        x.cmul(c)
    }

    /// The multiply gate: read the q*q rows through the verifying channel,
    /// pick the row the labels' colors index, and decrypt it.
    pub fn mul(&mut self, x: &Wire, y: &Wire) -> (r: Result<Wire, Error>)
        requires
            ev_wf(old(self)@),
            x.wf(),
            y.wf(),
            x@.q == y@.q,
            16 * (x@.q * x@.q) <= usize::MAX,
        ensures
            ev_wf(final(self)@) || final(self)@ == old(self)@,
            r is Ok <==> vc_read(
                vcst_of(old(self)@.vc),
                old(self)@.vc.every,
                (16 * (x@.q * x@.q)) as nat,
            ) is Some,
            r is Err ==> r == Err::<Wire, Error>(Error::IoError(ChannelError)),
            r matches Ok(w) ==> w.wf() && w@.q == x@.q && w@ == wire_from_block_of(
                bytes_to_blocks(
                    vc_read(
                        vcst_of(old(self)@.vc),
                        old(self)@.vc.every,
                        (16 * (x@.q * x@.q)) as nat,
                    )->Some_0.0,
                )[color_of(x@) * x@.q + color_of(y@)] ^ hash_block2_of(
                    block_of(x@),
                    block_of(y@),
                    tweak_gate(old(self)@.gate),
                ),
                x@.q,
            ) && vcst_of(final(self)@.vc) == vc_read(
                vcst_of(old(self)@.vc),
                old(self)@.vc.every,
                (16 * (x@.q * x@.q)) as nat,
            )->Some_0.1 && final(self)@.vc.k1 == old(self)@.vc.k1 && final(self)@.vc.k2 == old(self)@.vc.k2 && final(self)@.vc.every == old(self)@.vc.every && final(self)@.vc.w1 == old(self)@.vc.w1 && final(self)@.vc.w2 == old(self)@.vc.w2 && final(self)@.rng == old(self)@.rng && final(self)@.gate as int == wrap64(old(self)@.gate + 1) && final(self)@.out
                == old(self)@.out,
    {
        let q = x.modulus();
        proof {
            assert((q as int) * (q as int) <= 0xffff * 0xffff) by (nonlinear_arith)
                requires
                    q <= 0xffff,
            ;
        }
        let n: usize = (q as usize) * (q as usize);
        let bs = match self.vc.read_alternating(16 * n) {
            Ok(bs) => bs,
            Err(_) => {
                return Err(Error::IoError(ChannelError));
            },
        };
        let blocks = parse_blocks(&bs);
        proof {
            crate::garble::lemma_blocks_to_bytes_len(bytes_to_blocks(bs@));
            assert(bytes_to_blocks(bs@).len() == (16 * (n as int)) / 16);
            assert((16 * (n as int)) / 16 == n as int) by (nonlinear_arith);
        }
        let cx = x.color();
        let cy = y.color();
        proof {
            assert((cx as int) * (q as int) + (cy as int) < (q as int) * (q as int))
                by (nonlinear_arith)
                requires
                    (cx as int) < (q as int),
                    (cy as int) < (q as int),
                    q >= 2,
            ;
        }
        let idx: usize = (cx as usize) * (q as usize) + (cy as usize);
        let ct = blocks[idx];
        let b = ct ^ crate::crypto::hash_block2(
            x.as_block(),
            y.as_block(),
            tweak2(self.gate_index, 0),
        );
        let w = Wire::from_block(b, q);
        proof {
            lemma_wire_of_block_unique(w@, b);
        }
        self.gate_index = if self.gate_index == u64::MAX {
            0
        } else {
            self.gate_index + 1
        };
        Ok(w)
    }

    /// The projection gate: read the q rows through the verifying channel,
    /// pick the row the label's color indexes, and decrypt it.
    pub fn proj(&mut self, x: &Wire, q_out: u16) -> (r: Result<Wire, Error>)
        requires
            ev_wf(old(self)@),
            x.wf(),
            q_out >= 2,
        ensures
            ev_wf(final(self)@) || final(self)@ == old(self)@,
            r is Ok <==> vc_read(
                vcst_of(old(self)@.vc),
                old(self)@.vc.every,
                (16 * x@.q) as nat,
            ) is Some,
            r is Err ==> r == Err::<Wire, Error>(Error::IoError(ChannelError)),
            r matches Ok(w) ==> w.wf() && w@.q == q_out as int && w@ == wire_from_block_of(
                bytes_to_blocks(
                    vc_read(vcst_of(old(self)@.vc), old(self)@.vc.every, (16 * x@.q) as nat)
                        ->Some_0.0,
                )[color_of(x@) as int] ^ hash_block_of(block_of(x@), tweak_gate(old(self)@.gate)),
                q_out as int,
            ) && vcst_of(final(self)@.vc) == vc_read(
                vcst_of(old(self)@.vc),
                old(self)@.vc.every,
                (16 * x@.q) as nat,
            )->Some_0.1 && final(self)@.vc.k1 == old(self)@.vc.k1 && final(self)@.vc.k2 == old(self)@.vc.k2 && final(self)@.vc.every == old(self)@.vc.every && final(self)@.vc.w1 == old(self)@.vc.w1 && final(self)@.vc.w2 == old(self)@.vc.w2 && final(self)@.rng == old(self)@.rng && final(self)@.gate as int == wrap64(old(self)@.gate + 1) && final(self)@.out
                == old(self)@.out,
    {
        let q = x.modulus();
        let bs = match self.vc.read_alternating(16 * (q as usize)) {
            Ok(bs) => bs,
            Err(_) => {
                return Err(Error::IoError(ChannelError));
            },
        };
        let blocks = parse_blocks(&bs);
        proof {
            crate::garble::lemma_blocks_to_bytes_len(bytes_to_blocks(bs@));
            assert(bytes_to_blocks(bs@).len() == (16 * (q as int)) / 16);
            assert((16 * (q as int)) / 16 == q as int) by (nonlinear_arith);
        }
        let cx = x.color();
        let ct = blocks[cx as usize];
        let b = ct ^ crate::crypto::hash_block(x.as_block(), tweak2(self.gate_index, 0));
        let w = Wire::from_block(b, q_out);
        proof {
            lemma_wire_of_block_unique(w@, b);
        }
        self.gate_index = if self.gate_index == u64::MAX {
            0
        } else {
            self.gate_index + 1
        };
        Ok(w)
    }

    /// The output gate: read the decoding table through the verifying
    /// channel, decode this label against it, and cross-check the garblers
    /// at the checkpoint that follows.
    pub fn output(&mut self, x: &Wire) -> (r: Result<Option<u16>, Error>)
        requires
            ev_wf(old(self)@),
            x.wf(),
        ensures
            ev_wf(final(self)@) || final(self)@ == old(self)@,
            r is Ok <==> output_readable(old(self)@.vc, x@) && output_hashes_agree(
                old(self)@.vc,
                x@,
            ),
            r == Err::<Option<u16>, Error>(Error::IoError(ChannelError)) <==> !output_readable(
                old(self)@.vc,
                x@,
            ),
            output_readable(old(self)@.vc, x@) && !output_hashes_agree(old(self)@.vc, x@) ==> r
                == Err::<Option<u16>, Error>(Error::GarblerMismatch),
            r matches Ok(o) ==> o == decode_of(
                bytes_to_blocks(
                    vc_read(vcst_of(old(self)@.vc), old(self)@.vc.every, (16 * x@.q) as nat)
                        ->Some_0.0,
                ),
                hash_block_of(block_of(x@), tweak_output(old(self)@.out)),
            ) && final(self)@.out as int == wrap64(old(self)@.out + 1) && final(self)@.gate == old(self)@.gate && final(self)@.rng == old(self)@.rng && final(self)@.vc.un1 == vc_read(
                vcst_of(old(self)@.vc),
                old(self)@.vc.every,
                (16 * x@.q) as nat,
            )->Some_0.1.un1.skip(16) && final(self)@.vc.un2 == vc_read(
                vcst_of(old(self)@.vc),
                old(self)@.vc.every,
                (16 * x@.q) as nat,
            )->Some_0.1.un2.skip(16) && final(self)@.vc.d1 == Seq::<u8>::empty() && final(self)@.vc.d2 == Seq::<u8>::empty() && final(self)@.vc.k1 == old(self)@.vc.k1 && final(self)@.vc.k2 == old(self)@.vc.k2 && final(self)@.vc.every == old(self)@.vc.every && final(self)@.vc.w1 == old(self)@.vc.w1 && final(self)@.vc.w2 == old(self)@.vc.w2,
    {
        let q = x.modulus();
        let ghost st0 = vcst_of(self@.vc);
        let bs = match self.vc.read_alternating(16 * (q as usize)) {
            Ok(bs) => bs,
            Err(_) => {
                proof {
                    assert(!output_readable(old(self)@.vc, x@));
                }
                return Err(Error::IoError(ChannelError));
            },
        };
        let blocks = parse_blocks(&bs);
        proof {
            crate::garble::lemma_blocks_to_bytes_len(bytes_to_blocks(bs@));
            assert(bytes_to_blocks(bs@).len() == (16 * (q as int)) / 16);
            assert((16 * (q as int)) / 16 == q as int) by (nonlinear_arith);
        }
        let h = x.hash(tweak2(self.out_index, 1));
        let o = decode_rows(&blocks, h);
        self.out_index = if self.out_index == u64::MAX {
            0
        } else {
            self.out_index + 1
        };
        let ghost st1 = vc_read(st0, old(self)@.vc.every, (16 * x@.q) as nat)->Some_0.1;
        proof {
            assert(st1 == vcst_of(self@.vc));
        }
        match self.vc.check_hashes() {
            Ok(()) => {
                proof {
                    assert(output_readable(old(self)@.vc, x@));
                    assert(output_hashes_agree(old(self)@.vc, x@));
                }
                Ok(o)
            },
            Err(e) => {
                proof {
                    if e == Error::IoError(ChannelError) {
                        assert(st1.un1.len() < 16 || st1.un2.len() < 16);
                        assert(!output_readable(old(self)@.vc, x@));
                    } else {
                        assert(e == Error::GarblerMismatch);
                        assert(output_readable(old(self)@.vc, x@));
                        assert(!output_hashes_agree(old(self)@.vc, x@));
                    }
                }
                Err(e)
            },
        }
    }

    /// Reveal wires to all parties: decode each output table, cross-check
    /// the garblers, and only then send every revealed label back to both
    /// garblers so they can decode too. On any failure nothing is sent:
    /// the integrity check precedes the disclosure. A label that decodes to
    /// no table row means the garbled data was unusable.
    pub fn reveal_many(&mut self, xs: &Vec<Wire>) -> (r: Result<Vec<u16>, Error>)
        requires
            ev_wf(old(self)@),
            forall|i: int| 0 <= i < xs@.len() ==> (#[trigger] xs@[i]).wf(),
        ensures
            ev_wf(final(self)@) || final(self)@ == old(self)@,
            r is Ok <==> reveal_ok(old(self)@.vc, xs@.map(|i: int, w: Wire| w@), old(self)@.out),
            r is Err ==> final(self)@.vc.w1 == old(self)@.vc.w1 && final(self)@.vc.w2 == old(
                self,
            )@.vc.w2,
            decode_outcome(
                vcst_of(old(self)@.vc),
                old(self)@.vc.every,
                xs@.map(|i: int, w: Wire| w@),
                old(self)@.out,
            ) matches Err(e) ==> r == Err::<Vec<u16>, Error>(e),
            decode_outcome(
                vcst_of(old(self)@.vc),
                old(self)@.vc.every,
                xs@.map(|i: int, w: Wire| w@),
                old(self)@.out,
            ) is Ok && !reveal_ok(old(self)@.vc, xs@.map(|i: int, w: Wire| w@), old(self)@.out)
                ==> (r == Err::<Vec<u16>, Error>(Error::IoError(ChannelError)) || r == Err::<
                Vec<u16>,
                Error,
            >(Error::GarblerMismatch)),
            r matches Ok(vs) ==> vs@ == decode_outcome(
                vcst_of(old(self)@.vc),
                old(self)@.vc.every,
                xs@.map(|i: int, w: Wire| w@),
                old(self)@.out,
            )->Ok_0.0 && vs@.len() == xs@.len() && final(self)@.vc.w1 == old(self)@.vc.w1
                + labels_bytes(xs@.map(|i: int, w: Wire| w@)) && final(self)@.vc.w2 == old(
                self,
            )@.vc.w2 + labels_bytes(xs@.map(|i: int, w: Wire| w@)),
    {
        let ghost xv = xs@.map(|t: int, w: Wire| w@);
        let ghost st0 = vcst_of(self@.vc);
        let ghost out0 = self@.out;
        let n = xs.len();
        let mut vs: Vec<u16> = Vec::new();
        let mut i: usize = 0;
        proof {
            assert(xv.skip(0) =~= xv);
        }
        while i < n
            invariant
                i <= n,
                n == xs@.len(),
                ev_wf(self@),
                xv == xs@.map(|t: int, w: Wire| w@),
                forall|t: int| 0 <= t < xs@.len() ==> (#[trigger] xs@[t]).wf(),
                st0 == vcst_of(old(self)@.vc),
                out0 == old(self)@.out,
                self@.vc.k1 == old(self)@.vc.k1,
                self@.vc.k2 == old(self)@.vc.k2,
                self@.vc.every == old(self)@.vc.every,
                self@.vc.w1 == old(self)@.vc.w1,
                self@.vc.w2 == old(self)@.vc.w2,
                self@.rng == old(self)@.rng,
                self@.gate == old(self)@.gate,
                vs@.len() == i,
                (decode_outcome(st0, self@.vc.every, xv, out0) is Ok <==> decode_outcome(
                    vcst_of(self@.vc),
                    self@.vc.every,
                    xv.skip(i as int),
                    self@.out,
                ) is Ok),
                decode_outcome(st0, self@.vc.every, xv, out0) matches Ok(p) ==> (decode_outcome(
                    vcst_of(self@.vc),
                    self@.vc.every,
                    xv.skip(i as int),
                    self@.out,
                ) matches Ok(p2) && p.0 == vs@ + p2.0 && p.1 == p2.1),
                decode_outcome(st0, self@.vc.every, xv, out0) matches Err(e) ==> decode_outcome(
                    vcst_of(self@.vc),
                    self@.vc.every,
                    xv.skip(i as int),
                    self@.out,
                ) == Err::<(Seq<u16>, VcSt), Error>(e),
            decreases n - i,
        {
            proof {
                assert(xv.skip(i as int)[0] == xv[i as int]);
                assert(xv.skip(i as int).drop_first() =~= xv.skip(i as int + 1));
                assert(xv[i as int] == xs@[i as int]@);
            }
            let q = xs[i].modulus();
            let ghost pre = vcst_of(self@.vc);
            let ghost preout = self@.out;
            let bs = match self.vc.read_alternating(16 * (q as usize)) {
                Ok(bs) => bs,
                Err(_) => {
                    proof {
                        assert(decode_outcome(pre, self@.vc.every, xv.skip(i as int), preout)
                            == Err::<(Seq<u16>, VcSt), Error>(Error::IoError(ChannelError)));
                    }
                    return Err(Error::IoError(ChannelError));
                },
            };
            let blocks = parse_blocks(&bs);
            proof {
                crate::garble::lemma_blocks_to_bytes_len(bytes_to_blocks(bs@));
                assert(bytes_to_blocks(bs@).len() == (16 * (q as int)) / 16);
                assert((16 * (q as int)) / 16 == q as int) by (nonlinear_arith);
            }
            let h = xs[i].hash(tweak2(self.out_index, 1));
            let o = decode_rows(&blocks, h);
            self.out_index = if self.out_index == u64::MAX {
                0
            } else {
                self.out_index + 1
            };
            let v = match o {
                Some(v) => v,
                None => {
                    proof {
                        assert(decode_outcome(pre, self@.vc.every, xv.skip(i as int), preout)
                            == Err::<(Seq<u16>, VcSt), Error>(
                            Error::EvaluatorError(EvaluatorError::DecodeFailed),
                        ));
                    }
                    return Err(Error::EvaluatorError(EvaluatorError::DecodeFailed));
                },
            };
            vs.push(v);
            i = i + 1;
            proof {
                let r0 = decode_outcome(st0, self@.vc.every, xv, out0);
                let suf = decode_outcome(vcst_of(self@.vc), self@.vc.every, xv.skip(i as int), self@.out);
                assert(decode_outcome(pre, self@.vc.every, xv.skip(i - 1), preout) == (match suf {
                    Err(e) => Err::<(Seq<u16>, VcSt), Error>(e),
                    Ok(rest) => Ok((seq![v] + rest.0, rest.1)),
                }));
                if r0 is Ok {
                    let p = r0->Ok_0;
                    let p2 = decode_outcome(pre, self@.vc.every, xv.skip(i - 1), preout)->Ok_0;
                    assert(p.0 == vs@.drop_last() + p2.0 && p.1 == p2.1) by {
                        assert(vs@.drop_last() =~= vs@.take(i - 1));
                    }
                    assert(p2.0 == seq![v] + suf->Ok_0.0);
                    assert(vs@.drop_last() + p2.0 =~= vs@ + suf->Ok_0.0);
                }
            }
        }
        proof {
            assert(xv.skip(n as int) =~= Seq::<WireView>::empty());
        }
        let ghost d0 = decode_outcome(st0, self@.vc.every, xv, out0);
        let ghost st1 = d0->Ok_0.1;
        proof {
            assert(d0 is Ok);
            assert(d0->Ok_0.0 =~= vs@);
            assert(st1 == vcst_of(self@.vc));
        }
        match self.vc.check_hashes() {
            Ok(()) => (),
            Err(e) => {
                proof {
                    if e == Error::IoError(ChannelError) {
                        assert(st1.un1.len() < 16 || st1.un2.len() < 16);
                        assert(!reveal_ok(old(self)@.vc, xv, out0));
                    } else {
                        assert(e == Error::GarblerMismatch);
                        assert(!reveal_ok(old(self)@.vc, xv, out0));
                    }
                }
                return Err(e);
            },
        }
        proof {
            assert(reveal_ok(old(self)@.vc, xv, out0));
        }
        let ghost wbase1 = self@.vc.w1;
        let ghost wbase2 = self@.vc.w2;
        let mut k: usize = 0;
        proof {
            assert(xv.skip(0) =~= xv);
        }
        while k < n
            invariant
                k <= n,
                n == xs@.len(),
                ev_wf(self@),
                xv == xs@.map(|t: int, w: Wire| w@),
                forall|t: int| 0 <= t < xs@.len() ==> (#[trigger] xs@[t]).wf(),
                self@.vc.w1 + labels_bytes(xv.skip(k as int)) == wbase1 + labels_bytes(xv),
                self@.vc.w2 + labels_bytes(xv.skip(k as int)) == wbase2 + labels_bytes(xv),
                self@.vc.k1 == old(self)@.vc.k1,
                self@.vc.k2 == old(self)@.vc.k2,
                self@.vc.every == old(self)@.vc.every,
                self@.rng == old(self)@.rng,
                self@.gate == old(self)@.gate,
                vc_wf(self@.vc),
            decreases n - k,
        {
            proof {
                assert(xv.skip(k as int)[0] == xv[k as int]);
                assert(xv.skip(k as int).drop_first() =~= xv.skip(k as int + 1));
                assert(xv[k as int] == xs@[k as int]@);
            }
            let bytes = to_le(xs[k].as_block(), 16);
            self.vc.write_both(bytes.as_slice());
            k = k + 1;
        }
        proof {
            assert(xv.skip(n as int) =~= Seq::<WireView>::empty());
            assert(self@.vc.w1 =~= wbase1 + labels_bytes(xv));
            assert(self@.vc.w2 =~= wbase2 + labels_bytes(xv));
        }
        Ok(vs)
    }
}


impl Evaluator {
    /// Hand the evaluator bytes arriving from garbler 1.
    pub fn feed_p1(&mut self, data: &[u8])
        ensures
            final(self)@.vc == (VerifyChannelView { un1: old(self)@.vc.un1 + data@, ..old(self)@.vc }),
            final(self)@.rng == old(self)@.rng,
            final(self)@.gate == old(self)@.gate,
            final(self)@.out == old(self)@.out,
    {
        self.vc.feed_p1(data);
    }

    /// Hand the evaluator bytes arriving from garbler 2.
    pub fn feed_p2(&mut self, data: &[u8])
        ensures
            final(self)@.vc == (VerifyChannelView { un2: old(self)@.vc.un2 + data@, ..old(self)@.vc }),
            final(self)@.rng == old(self)@.rng,
            final(self)@.gate == old(self)@.gate,
            final(self)@.out == old(self)@.out,
    {
        self.vc.feed_p2(data);
    }

    /// Drain the bytes written toward garbler 1.
    pub fn take_written_p1(&mut self) -> (r: Vec<u8>)
        ensures
            r@ == old(self)@.vc.w1,
            final(self)@.vc == (VerifyChannelView { w1: Seq::<u8>::empty(), ..old(self)@.vc }),
            final(self)@.rng == old(self)@.rng,
            final(self)@.gate == old(self)@.gate,
            final(self)@.out == old(self)@.out,
    {
        self.vc.take_written_p1()
    }

    /// Drain the bytes written toward garbler 2.
    pub fn take_written_p2(&mut self) -> (r: Vec<u8>)
        ensures
            r@ == old(self)@.vc.w2,
            final(self)@.vc == (VerifyChannelView { w2: Seq::<u8>::empty(), ..old(self)@.vc }),
            final(self)@.rng == old(self)@.rng,
            final(self)@.gate == old(self)@.gate,
            final(self)@.out == old(self)@.out,
    {
        self.vc.take_written_p2()
    }
}


} // verus!
