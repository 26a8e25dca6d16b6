//! The honest-majority three-party garbler.
//!
//! Two garblers derive identical garbled streams from a shared seed. Toward
//! the evaluator each runs an alternating channel: while its counter is in
//! the hashing half of a 2*alternate_every cycle it feeds protocol bytes
//! into a keyed digest instead of sending them, and in the sending half it
//! transmits them; the digests are sent at checkpoints so the evaluator can
//! cross-check the garblers against each other. Garbler 1 starts in the
//! sending half, garbler 2 in the hashing half.

use vstd::prelude::*;
use crate::bytes::{le_of, from_le_of, to_le};
use crate::channel::{Channel, ChannelError, ChannelView};
use crate::crypto::tweak2_of;
use crate::garble::{
    delta_of, fresh_wire_of, enc_wire, block_of, mul_rows, proj_rows, output_rows, commit_rows,
    blocks_to_bytes, mul_table, proj_table, output_table, commit_table, wire_from_block_of,
    lemma_wire_of_block_unique,
};
use crate::rng::{CounterRng, CounterRngView, rng_block_of, wrap64};
use crate::threepac::PartyId;
use crate::universal_digest::{UniversalDigest, digest_of};
use crate::wire::{
    Wire, WireView, color_of, add_digits, sub_digits, cmul_digits, negate_digits,
};

verus! {

/// Errors produced by the three-party garbler.
#[derive(Debug, Clone, Copy, PartialEq, Eq, Structural)]
pub enum Error {
    /// The transport ran out of bytes.
    IoError(ChannelError),
    /// The evaluator sent an output label the garbling never produced: it
    /// may be cheating.
    InvalidResult,
}

/// The alternation-relevant state: bytes diverted into the digest, bytes
/// actually sent, and the position in the 2*alternate_every cycle.
pub ghost struct AltSt {
    pub hashed: Seq<u8>,
    pub written: Seq<u8>,
    pub bh: int,
}

/// One byte through the alternating channel: hashed in the first half of
/// the cycle, sent in the second, with the counter wrapping at the end.
pub open spec fn alt_step(st: AltSt, ae: int, b: u8) -> AltSt {
    if st.bh < ae {
        AltSt { hashed: st.hashed.push(b), written: st.written, bh: st.bh + 1 }
    } else if st.bh + 1 == 2 * ae {
        AltSt { hashed: st.hashed, written: st.written.push(b), bh: 0 }
    } else {
        AltSt { hashed: st.hashed, written: st.written.push(b), bh: st.bh + 1 }
    }
}

/// A whole byte string through the alternating channel.
pub open spec fn alt_run(st: AltSt, ae: int, data: Seq<u8>) -> AltSt
    decreases data.len(),
{
    if data.len() == 0 {
        st
    } else {
        alt_run(alt_step(st, ae, data[0]), ae, data.drop_first())
    }
}

/// Sending the digest: the tag goes out unhashed and the digest restarts.
pub open spec fn send_hash_st(key: Seq<u8>, st: AltSt) -> AltSt {
    AltSt { hashed: Seq::empty(), written: st.written + digest_of(key, st.hashed), bh: st.bh }
}

/// A direct write bypassing the alternation (input labels, tags).
pub open spec fn direct_st(st: AltSt, data: Seq<u8>) -> AltSt {
    AltSt { hashed: st.hashed, written: st.written + data, bh: st.bh }
}

/// The channel to the evaluator, with its digest and cycle counter.
pub struct AlternatingHashChannel {
    channel: Channel,
    hash: UniversalDigest,
    alternate_every: usize,
    bytes_hashed: usize,
}

/// The alternating channel's mathematical state.
pub ghost struct AltChannelView {
    pub inner: ChannelView,
    pub key: Seq<u8>,
    pub hashed: Seq<u8>,
    pub every: int,
    pub bh: int,
}

impl View for AlternatingHashChannel {
    type V = AltChannelView;

    closed spec fn view(&self) -> AltChannelView {
        AltChannelView {
            inner: self.channel@,
            key: self.hash@.key,
            hashed: self.hash@.data,
            every: self.alternate_every as int,
            bh: self.bytes_hashed as int,
        }
    }
}

/// The alternation state a channel view carries.
pub open spec fn st_of(v: AltChannelView) -> AltSt {
    AltSt { hashed: v.hashed, written: v.inner.written, bh: v.bh }
}

/// A usable alternating channel: a 32-byte key and a counter inside one
/// cycle of a reasonable length.
pub open spec fn alt_wf(v: AltChannelView) -> bool {
    &&& v.key.len() == 32
    &&& 1 <= v.every <= 0x10000000
    &&& 0 <= v.bh < 2 * v.every
}

/// The 32 key bytes drawn from a generator at a counter position.
pub open spec fn hash_key_of(seed: u128, ctr: u64) -> Seq<u8> {
    le_of(rng_block_of(seed, ctr) as int, 16) + le_of(
        rng_block_of(seed, wrap64(ctr + 1) as u64) as int,
        16,
    )
}

impl AlternatingHashChannel {
    /// Open the channel toward the evaluator: draw the key that will check
    /// the other garbler, send it to the evaluator, and set the cycle so
    /// that garbler 1 sends first while garbler 2 hashes first.
    pub fn new(channel: Channel, rng: &mut CounterRng, alternate_every: usize, party: PartyId)
        -> (r: AlternatingHashChannel)
        requires
            1 <= alternate_every <= 0x10000000,
            party != PartyId::Evaluator,
        ensures
            alt_wf(r@),
            r@.key == hash_key_of(old(rng)@.seed, old(rng)@.ctr),
            r@.hashed == Seq::<u8>::empty(),
            r@.inner.written == channel@.written + hash_key_of(old(rng)@.seed, old(rng)@.ctr),
            r@.inner.unread == channel@.unread,
            r@.every == alternate_every as int,
            r@.bh == if party == PartyId::Garbler1 {
                alternate_every as int
            } else {
                0
            },
            final(rng)@.seed == old(rng)@.seed,
            final(rng)@.ctr as int == wrap64(wrap64(old(rng)@.ctr + 1) + 1),
    {
        let b1 = rng.gen_block();
        let b2 = rng.gen_block();
        let mut key = to_le(b1, 16);
        let mut key2 = to_le(b2, 16);
        key.append(&mut key2);
        let mut channel = channel;
        channel.write_bytes(key.as_slice());
        let hash = UniversalDigest::new(key.as_slice());
        let bytes_hashed: usize = if matches!(party, PartyId::Garbler1) {
            alternate_every
        } else {
            0
        };
        AlternatingHashChannel { channel, hash, alternate_every, bytes_hashed }
    }

    /// Write protocol bytes through the alternation: the hashing half of
    /// the cycle diverts them into the digest, the sending half transmits.
    pub fn write_alternating(&mut self, data: &[u8])
        requires
            alt_wf(old(self)@),
        ensures
            alt_wf(final(self)@),
            st_of(final(self)@) == alt_run(st_of(old(self)@), old(self)@.every, data@),
            final(self)@.key == old(self)@.key,
            final(self)@.every == old(self)@.every,
            final(self)@.inner.unread == old(self)@.inner.unread,
    {
        let mut i: usize = 0;
        proof {
            assert(data@.skip(0) =~= data@);
        }
        while i < data.len()
            invariant
                i <= data@.len(),
                alt_wf(self@),
                self@.key == old(self)@.key,
                self@.every == old(self)@.every,
                self@.inner.unread == old(self)@.inner.unread,
                alt_run(st_of(self@), self@.every, data@.skip(i as int)) == alt_run(
                    st_of(old(self)@),
                    old(self)@.every,
                    data@,
                ),
            decreases data@.len() - i,
        {
            let b = data[i];
            let ghost pre = st_of(self@);
            proof {
                assert(data@.skip(i as int)[0] == data@[i as int]);
                assert(data@.skip(i as int).drop_first() =~= data@.skip(i as int + 1));
            }
            if self.bytes_hashed < self.alternate_every {
                self.hash.input_byte(b);
                self.bytes_hashed = self.bytes_hashed + 1;
                proof {
                    assert(self@.hashed =~= pre.hashed.push(b));
                    assert(st_of(self@) == alt_step(pre, self@.every, b));
                }
            } else {
                self.channel.write_u8(b);
                if self.bytes_hashed + 1 == 2 * self.alternate_every {
                    self.bytes_hashed = 0;
                } else {
                    self.bytes_hashed = self.bytes_hashed + 1;
                }
                proof {
                    assert(self@.inner.written =~= pre.written.push(b));
                    assert(st_of(self@) == alt_step(pre, self@.every, b));
                }
            }
            i = i + 1;
        }
        proof {
            assert(data@.skip(data@.len() as int) =~= Seq::<u8>::empty());
        }
    }

    /// Write bytes directly, outside the alternation: input labels and
    /// digest tags are sent by both garblers alike.
    pub fn write_direct(&mut self, data: &[u8])
        ensures
            st_of(final(self)@) == direct_st(st_of(old(self)@), data@),
            final(self)@.key == old(self)@.key,
            final(self)@.every == old(self)@.every,
            final(self)@.bh == old(self)@.bh,
            final(self)@.hashed == old(self)@.hashed,
            final(self)@.inner.unread == old(self)@.inner.unread,
    {
        self.channel.write_bytes(data);
    }

    /// Send the digest of the bytes hashed since the last checkpoint and
    /// restart it.
    pub fn send_hash(&mut self)
        requires
            alt_wf(old(self)@),
        ensures
            alt_wf(final(self)@),
            st_of(final(self)@) == send_hash_st(old(self)@.key, st_of(old(self)@)),
            final(self)@.key == old(self)@.key,
            final(self)@.every == old(self)@.every,
            final(self)@.bh == old(self)@.bh,
            final(self)@.inner.unread == old(self)@.inner.unread,
    {
        let tag = self.hash.fixed_result();
        self.channel.write_bytes(tag.as_slice());
        self.hash.reset();
    }

    /// Read two bytes sent by the evaluator (an input share).
    pub fn read_u16(&mut self) -> (r: Result<u16, ChannelError>)
        ensures
            r is Ok <==> old(self)@.inner.unread.len() >= 2,
            r matches Ok(v) ==> v as int == from_le_of(old(self)@.inner.unread.take(2)) && final(self)@.inner.unread == old(self)@.inner.unread.skip(2),
            final(self)@.inner.written == old(self)@.inner.written,
            final(self)@.key == old(self)@.key,
            final(self)@.hashed == old(self)@.hashed,
            final(self)@.every == old(self)@.every,
            final(self)@.bh == old(self)@.bh,
            r is Err ==> final(self)@ == old(self)@,
    {
        self.channel.read_u16()
    }

    /// Read a block sent by the evaluator (a revealed label).
    pub fn read_block(&mut self) -> (r: Result<u128, ChannelError>)
        ensures
            r is Ok <==> old(self)@.inner.unread.len() >= 16,
            r matches Ok(v) ==> v as int == from_le_of(old(self)@.inner.unread.take(16)) && final(self)@.inner.unread == old(self)@.inner.unread.skip(16),
            final(self)@.inner.written == old(self)@.inner.written,
            final(self)@.key == old(self)@.key,
            final(self)@.hashed == old(self)@.hashed,
            final(self)@.every == old(self)@.every,
            final(self)@.bh == old(self)@.bh,
            r is Err ==> final(self)@ == old(self)@,
    {
        self.channel.read_block()
    }

    /// How many bytes from the evaluator remain unread.
    pub fn channel_unread_len(&self) -> (n: usize)
        ensures
            n as int == self@.inner.unread.len(),
    {
        self.channel.unread_len()
    }

    /// Drain the bytes written so far, for the transport to deliver.
    pub fn take_written(&mut self) -> (r: Vec<u8>)
        ensures
            r@ == old(self)@.inner.written,
            final(self)@.inner.written == Seq::<u8>::empty(),
            final(self)@.inner.unread == old(self)@.inner.unread,
            final(self)@.key == old(self)@.key,
            final(self)@.hashed == old(self)@.hashed,
            final(self)@.every == old(self)@.every,
            final(self)@.bh == old(self)@.bh,
    {
        self.channel.take_written()
    }

    /// Hand the channel bytes arriving from the evaluator.
    pub fn feed(&mut self, data: &[u8])
        ensures
            final(self)@.inner.unread == old(self)@.inner.unread + data@,
            final(self)@.inner.written == old(self)@.inner.written,
            final(self)@.key == old(self)@.key,
            final(self)@.hashed == old(self)@.hashed,
            final(self)@.every == old(self)@.every,
            final(self)@.bh == old(self)@.bh,
    {
        self.channel.feed(data);
    }
}

/// The draw counter after n draws.
pub open spec fn ctr_after(ctr: u64, n: nat) -> u64
    decreases n,
{
    if n == 0 {
        ctr
    } else {
        ctr_after(wrap64(ctr + 1) as u64, (n - 1) as nat)
    }
}

/// The zero-labels a garbler draws for a list of moduli, one per wire.
pub open spec fn enc_zeros(seed: u128, ctr: u64, qs: Seq<u16>) -> Seq<WireView>
    decreases qs.len(),
{
    if qs.len() == 0 {
        Seq::empty()
    } else {
        seq![fresh_wire_of(seed, ctr, qs[0])] + enc_zeros(
            seed,
            wrap64(ctr + 1) as u64,
            qs.drop_first(),
        )
    }
}

/// The encoded input labels a garbler sends directly to the evaluator, one
/// block per input.
pub open spec fn theirs_bytes(seed: u128, ctr: u64, qs: Seq<u16>, xs: Seq<u16>) -> Seq<u8>
    decreases qs.len(),
{
    if qs.len() == 0 {
        Seq::empty()
    } else {
        le_of(
            block_of(
                enc_wire(fresh_wire_of(seed, ctr, qs[0]), delta_of(seed, qs[0]), xs[0] as int),
            ) as int,
            16,
        ) + theirs_bytes(seed, wrap64(ctr + 1) as u64, qs.drop_first(), xs.drop_first())
    }
}

/// The alternation state after sending the commitment tables of a list of
/// wires.
pub open spec fn commits_run(seed: u128, st: AltSt, every: int, ws: Seq<WireView>) -> AltSt
    decreases ws.len(),
{
    if ws.len() == 0 {
        st
    } else {
        commits_run(
            seed,
            alt_run(
                st,
                every,
                blocks_to_bytes(commit_rows(ws[0], delta_of(seed, (ws[0].q) as u16))),
            ),
            every,
            ws.drop_first(),
        )
    }
}

/// The alternation state after sending the decoding tables of a list of
/// wires, one output index each.
pub open spec fn outputs_run(seed: u128, st: AltSt, every: int, ws: Seq<WireView>, out: u64)
    -> AltSt
    decreases ws.len(),
{
    if ws.len() == 0 {
        st
    } else {
        outputs_run(
            seed,
            alt_run(
                st,
                every,
                blocks_to_bytes(output_rows(ws[0], delta_of(seed, (ws[0].q) as u16), out)),
            ),
            every,
            ws.drop_first(),
            wrap64(out + 1) as u64,
        )
    }
}

/// The three-party garbler's mathematical state.
pub ghost struct GarblerView {
    pub alt: AltChannelView,
    pub rng: CounterRngView,
    pub gate: u64,
    pub out: u64,
    pub party: PartyId,
}

/// A usable garbler: a sound alternating channel and a garbler role.
pub open spec fn gb_wf(v: GarblerView) -> bool {
    &&& alt_wf(v.alt)
    &&& v.party != PartyId::Evaluator
}

/// Honest-majority three-party garbler.
pub struct Garbler {
    alt: AlternatingHashChannel,
    rng: CounterRng,
    gate_index: u64,
    out_index: u64,
    party: PartyId,
}

impl View for Garbler {
    type V = GarblerView;

    closed spec fn view(&self) -> GarblerView {
        GarblerView {
            alt: self.alt@,
            rng: self.rng@,
            gate: self.gate_index,
            out: self.out_index,
            party: self.party,
        }
    }
}

impl Garbler {
    /// Make a new garbler. The two garblers agree on a session seed over
    /// their own channel -- garbler 1 draws and sends it, garbler 2 reads
    /// it -- and each opens an alternating channel toward the evaluator.
    /// `alternate_every` must match between all three parties.
    pub fn new(
        party: PartyId,
        channel_garblers: &mut Channel,
        channel_evaluator: Channel,
        rng: CounterRng,
        alternate_every: usize,
    ) -> (r: Result<Garbler, Error>)
        requires
            party != PartyId::Evaluator,
            1 <= alternate_every <= 0x10000000,
        ensures
            party == PartyId::Garbler1 ==> r is Ok && final(channel_garblers)@.written == old(
                channel_garblers,
            )@.written + le_of(
                rng_block_of(rng@.seed, ctr_after(rng@.ctr, 2)) as int,
                16,
            ) && final(channel_garblers)@.unread == old(channel_garblers)@.unread,
            party == PartyId::Garbler2 ==> final(channel_garblers)@.written == old(
                channel_garblers,
            )@.written && (r is Ok <==> old(channel_garblers)@.unread.len() >= 16) && (r is Ok
                ==> final(channel_garblers)@.unread == old(channel_garblers)@.unread.skip(16)) && (
            r is Err ==> final(channel_garblers)@ == old(channel_garblers)@ && r == Err::<
                Garbler,
                Error,
            >(Error::IoError(ChannelError))),
            r matches Ok(g) ==> gb_wf(g@) && g@.party == party && g@.gate == 0 && g@.out == 0
                && g@.rng.ctr == 0 && g@.alt.key == hash_key_of(rng@.seed, rng@.ctr)
                && g@.alt.hashed == Seq::<u8>::empty() && g@.alt.inner.written
                == channel_evaluator@.written + hash_key_of(rng@.seed, rng@.ctr)
                && g@.alt.inner.unread == channel_evaluator@.unread && g@.alt.every
                == alternate_every as int && g@.alt.bh == (if party == PartyId::Garbler1 {
                alternate_every as int
            } else {
                0
            }) && (party == PartyId::Garbler1 ==> g@.rng.seed == rng_block_of(
                rng@.seed,
                ctr_after(rng@.ctr, 2),
            )) && (party == PartyId::Garbler2 ==> g@.rng.seed as int == from_le_of(
                old(channel_garblers)@.unread.take(16),
            )),
    {
        let mut rng = rng;
        let ghost c0 = rng@.ctr;
        let alt = AlternatingHashChannel::new(channel_evaluator, &mut rng, alternate_every, party);
        proof {
            assert(ctr_after(c0, 2) == ctr_after(wrap64(c0 + 1) as u64, 1));
            assert(ctr_after(wrap64(c0 + 1) as u64, 1) == ctr_after(
                wrap64(wrap64(c0 + 1) + 1) as u64,
                0,
            ));
        }
        let seed: u128;
        if matches!(party, PartyId::Garbler1) {
            seed = rng.gen_block();
            channel_garblers.write_block(seed);
        } else {
            seed = match channel_garblers.read_block() {
                Ok(b) => b,
                Err(e) => {
                    return Err(Error::IoError(e));
                },
            };
        }
        Ok(Garbler { alt, rng: CounterRng::from_seed(seed), gate_index: 0, out_index: 0, party })
    }

    /// The shared-seed secret offset for a modulus; never sent.
    pub fn delta(&self, q: u16) -> (r: Wire)
        requires
            q >= 2,
        ensures
            r.wf(),
            r@ == delta_of(self@.rng.seed, q),
            color_of(r@) == 1,
    {
        let b = crate::crypto::hash_block(self.rng.seed(), crate::crypto::tweak2(q as u64, 4));
        let base = Wire::from_block(b, q);
        proof {
            lemma_wire_of_block_unique(base@, b);
        }
        base.with_color_one()
    }

    /// Draw a fresh zero-label from the shared seed; both garblers draw the
    /// same one.
    pub fn create_wire(&mut self, q: u16) -> (r: Wire)
        requires
            q >= 2,
        ensures
            r.wf(),
            r@ == fresh_wire_of(old(self)@.rng.seed, old(self)@.rng.ctr, q),
            r@.q == q as int,
            final(self)@.rng.seed == old(self)@.rng.seed,
            final(self)@.rng.ctr as int == wrap64(old(self)@.rng.ctr + 1),
            final(self)@.alt == old(self)@.alt,
            final(self)@.gate == old(self)@.gate,
            final(self)@.out == old(self)@.out,
            final(self)@.party == old(self)@.party,
    {
        let b = self.rng.gen_block();
        let r = Wire::from_block(b, q);
        proof {
            lemma_wire_of_block_unique(r@, b);
        }
        r
    }

    /// Commit to every label of a wire, in color order, through the
    /// alternating channel, so the evaluator can check the other garbler's
    /// claimed labels without learning which color is the true value.
    pub fn send_commitments(&mut self, zero: &Wire)
        requires
            gb_wf(old(self)@),
            zero.wf(),
        ensures
            gb_wf(final(self)@),
            st_of(final(self)@.alt) == alt_run(
                st_of(old(self)@.alt),
                old(self)@.alt.every,
                blocks_to_bytes(
                    commit_rows(zero@, delta_of(old(self)@.rng.seed, (zero@.q) as u16)),
                ),
            ),
            final(self)@.alt.key == old(self)@.alt.key,
            final(self)@.alt.every == old(self)@.alt.every,
            final(self)@.alt.inner.unread == old(self)@.alt.inner.unread,
            final(self)@.rng == old(self)@.rng,
            final(self)@.gate == old(self)@.gate,
            final(self)@.out == old(self)@.out,
            final(self)@.party == old(self)@.party,
    {
        let d = self.delta(zero.modulus());
        let rows = commit_table(zero, &d);
        self.alt.write_alternating(rows.as_slice());
    }

    /// Send the digest checkpoint.
    pub fn send_hash(&mut self)
        requires
            gb_wf(old(self)@),
        ensures
            gb_wf(final(self)@),
            st_of(final(self)@.alt) == send_hash_st(old(self)@.alt.key, st_of(old(self)@.alt)),
            final(self)@.alt.key == old(self)@.alt.key,
            final(self)@.alt.every == old(self)@.alt.every,
            final(self)@.alt.inner.unread == old(self)@.alt.inner.unread,
            final(self)@.rng == old(self)@.rng,
            final(self)@.gate == old(self)@.gate,
            final(self)@.out == old(self)@.out,
            final(self)@.party == old(self)@.party,
    {
        self.alt.send_hash();
    }

    /// Encode this garbler's own inputs: for each one, keep the zero-label,
    /// send the evaluator its encoded label directly, then commit to every
    /// label of each wire and close with a digest checkpoint.
    pub fn encode_many(&mut self, vals: &Vec<u16>, moduli: &Vec<u16>) -> (r: Vec<Wire>)
        requires
            gb_wf(old(self)@),
            vals@.len() == moduli@.len(),
            forall|i: int| 0 <= i < vals@.len() ==> (#[trigger] vals@[i]) < moduli@[i],
            forall|i: int| 0 <= i < moduli@.len() ==> (#[trigger] moduli@[i]) >= 2,
        ensures
            gb_wf(final(self)@),
            r@.len() == vals@.len(),
            r@.map(|i: int, w: Wire| w@) == enc_zeros(
                old(self)@.rng.seed,
                old(self)@.rng.ctr,
                moduli@,
            ),
            forall|i: int| 0 <= i < r@.len() ==> (#[trigger] r@[i]).wf() && r@[i]@.q == moduli@[i] as int,
            final(self)@.rng.seed == old(self)@.rng.seed,
            final(self)@.rng.ctr == ctr_after(old(self)@.rng.ctr, vals@.len() as nat),
            st_of(final(self)@.alt) == send_hash_st(
                old(self)@.alt.key,
                commits_run(
                    old(self)@.rng.seed,
                    direct_st(
                        st_of(old(self)@.alt),
                        theirs_bytes(old(self)@.rng.seed, old(self)@.rng.ctr, moduli@, vals@),
                    ),
                    old(self)@.alt.every,
                    enc_zeros(old(self)@.rng.seed, old(self)@.rng.ctr, moduli@),
                ),
            ),
            final(self)@.alt.key == old(self)@.alt.key,
            final(self)@.alt.every == old(self)@.alt.every,
            final(self)@.alt.inner.unread == old(self)@.alt.inner.unread,
            final(self)@.gate == old(self)@.gate,
            final(self)@.out == old(self)@.out,
            final(self)@.party == old(self)@.party,
    {
        let ghost seed0 = self@.rng.seed;
        let ghost ctr0 = self@.rng.ctr;
        let ghost st0 = st_of(self@.alt);
        let n = vals.len();
        let mut zeros: Vec<Wire> = Vec::new();
        let mut i: usize = 0;
        proof {
            assert(moduli@.skip(0) =~= moduli@);
            assert(vals@.skip(0) =~= vals@);
        }
        while i < n
            invariant
                i <= n,
                n == vals@.len(),
                n == moduli@.len(),
                gb_wf(self@),
                forall|t: int| 0 <= t < vals@.len() ==> (#[trigger] vals@[t]) < moduli@[t],
                forall|t: int| 0 <= t < moduli@.len() ==> (#[trigger] moduli@[t]) >= 2,
                self@.rng.seed == seed0,
                ctr_after(self@.rng.ctr, (n - i) as nat) == ctr_after(ctr0, n as nat),
                zeros@.len() == i,
                zeros@.map(|t: int, w: Wire| w@) + enc_zeros(seed0, self@.rng.ctr, moduli@.skip(i as int))
                    == enc_zeros(seed0, ctr0, moduli@),
                forall|t: int|
                    0 <= t < i ==> (#[trigger] zeros@[t]).wf() && zeros@[t]@.q == moduli@[t] as int,
                st_of(self@.alt).hashed == st0.hashed,
                st_of(self@.alt).bh == st0.bh,
                st_of(self@.alt).written + theirs_bytes(
                    seed0,
                    self@.rng.ctr,
                    moduli@.skip(i as int),
                    vals@.skip(i as int),
                ) == st0.written + theirs_bytes(seed0, ctr0, moduli@, vals@),
                self@.alt.key == old(self)@.alt.key,
                self@.alt.every == old(self)@.alt.every,
                self@.alt.inner.unread == old(self)@.alt.inner.unread,
                self@.gate == old(self)@.gate,
                self@.out == old(self)@.out,
                self@.party == old(self)@.party,
            decreases n - i,
        {
            proof {
                assert(moduli@.skip(i as int)[0] == moduli@[i as int]);
                assert(vals@.skip(i as int)[0] == vals@[i as int]);
                assert(moduli@.skip(i as int).drop_first() =~= moduli@.skip(i as int + 1));
                assert(vals@.skip(i as int).drop_first() =~= vals@.skip(i as int + 1));
            }
            let q = moduli[i];
            let z = self.create_wire(q);
            let d = self.delta(q);
            let theirs = z.plus(&d.cmul(vals[i]));
            let bytes = to_le(theirs.as_block(), 16);
            self.alt.write_direct(bytes.as_slice());
            zeros.push(z);
            i = i + 1;
            proof {
                assert(zeros@.map(|t: int, w: Wire| w@) + enc_zeros(
                    seed0,
                    self@.rng.ctr,
                    moduli@.skip(i as int),
                ) =~= enc_zeros(seed0, ctr0, moduli@));
            }
        }
        proof {
            assert(moduli@.skip(n as int) =~= Seq::<u16>::empty());
            assert(vals@.skip(n as int) =~= Seq::<u16>::empty());
            assert(st_of(self@.alt).written =~= st0.written + theirs_bytes(seed0, ctr0, moduli@, vals@));
            assert(st_of(self@.alt) == direct_st(st0, theirs_bytes(seed0, ctr0, moduli@, vals@)));
            assert(zeros@.map(|t: int, w: Wire| w@) =~= enc_zeros(seed0, ctr0, moduli@));
        }
        let ghost zs = zeros@.map(|t: int, w: Wire| w@);
        let ghost st1 = st_of(self@.alt);
        let mut j: usize = 0;
        proof {
            assert(zs.skip(0) =~= zs);
        }
        while j < n
            invariant
                j <= n,
                n == zeros@.len(),
                n == moduli@.len(),
                gb_wf(self@),
                zs == zeros@.map(|t: int, w: Wire| w@),
                forall|t: int|
                    0 <= t < n ==> (#[trigger] zeros@[t]).wf() && zeros@[t]@.q == moduli@[t] as int,
                self@.rng.seed == seed0,
                self@.rng.ctr == ctr_after(ctr0, n as nat),
                commits_run(seed0, st_of(self@.alt), self@.alt.every, zs.skip(j as int))
                    == commits_run(seed0, st1, self@.alt.every, zs),
                self@.alt.key == old(self)@.alt.key,
                self@.alt.every == old(self)@.alt.every,
                self@.alt.inner.unread == old(self)@.alt.inner.unread,
                self@.gate == old(self)@.gate,
                self@.out == old(self)@.out,
                self@.party == old(self)@.party,
            decreases n - j,
        {
            proof {
                assert(zs.skip(j as int)[0] == zs[j as int]);
                assert(zs.skip(j as int).drop_first() =~= zs.skip(j as int + 1));
                assert(zs[j as int] == zeros@[j as int]@);
            }
            self.send_commitments(&zeros[j]);
            j = j + 1;
        }
        proof {
            assert(zs.skip(n as int) =~= Seq::<WireView>::empty());
        }
        self.send_hash();
        zeros
    }
}


impl Garbler {
    /// Derive the zero-labels of the other garbler's inputs from the shared
    /// seed and commit to their labels; no bytes arrive, since both
    /// garblers draw identically.
    fn receive_garbler_core(&mut self, qs: &Vec<u16>) -> (r: Vec<Wire>)
        requires
            gb_wf(old(self)@),
            forall|i: int| 0 <= i < qs@.len() ==> (#[trigger] qs@[i]) >= 2,
        ensures
            gb_wf(final(self)@),
            r@.len() == qs@.len(),
            r@.map(|i: int, w: Wire| w@) == enc_zeros(old(self)@.rng.seed, old(self)@.rng.ctr, qs@),
            forall|i: int| 0 <= i < r@.len() ==> (#[trigger] r@[i]).wf() && r@[i]@.q == qs@[i] as int,
            final(self)@.rng.seed == old(self)@.rng.seed,
            final(self)@.rng.ctr == ctr_after(old(self)@.rng.ctr, qs@.len() as nat),
            st_of(final(self)@.alt) == send_hash_st(
                old(self)@.alt.key,
                commits_run(
                    old(self)@.rng.seed,
                    st_of(old(self)@.alt),
                    old(self)@.alt.every,
                    enc_zeros(old(self)@.rng.seed, old(self)@.rng.ctr, qs@),
                ),
            ),
            final(self)@.alt.key == old(self)@.alt.key,
            final(self)@.alt.every == old(self)@.alt.every,
            final(self)@.alt.inner.unread == old(self)@.alt.inner.unread,
            final(self)@.gate == old(self)@.gate,
            final(self)@.out == old(self)@.out,
            final(self)@.party == old(self)@.party,
    {
        let ghost seed0 = self@.rng.seed;
        let ghost ctr0 = self@.rng.ctr;
        let ghost st0 = st_of(self@.alt);
        let n = qs.len();
        let mut zeros: Vec<Wire> = Vec::new();
        let mut i: usize = 0;
        proof {
            assert(qs@.skip(0) =~= qs@);
        }
        while i < n
            invariant
                i <= n,
                n == qs@.len(),
                gb_wf(self@),
                forall|t: int| 0 <= t < qs@.len() ==> (#[trigger] qs@[t]) >= 2,
                self@.rng.seed == seed0,
                ctr_after(self@.rng.ctr, (n - i) as nat) == ctr_after(ctr0, n as nat),
                zeros@.len() == i,
                zeros@.map(|t: int, w: Wire| w@) + enc_zeros(seed0, self@.rng.ctr, qs@.skip(i as int))
                    == enc_zeros(seed0, ctr0, qs@),
                forall|t: int|
                    0 <= t < i ==> (#[trigger] zeros@[t]).wf() && zeros@[t]@.q == qs@[t] as int,
                commits_run(seed0, st_of(self@.alt), self@.alt.every, enc_zeros(seed0, self@.rng.ctr, qs@.skip(i as int)))
                    == commits_run(seed0, st0, self@.alt.every, enc_zeros(seed0, ctr0, qs@)),
                self@.alt.key == old(self)@.alt.key,
                self@.alt.every == old(self)@.alt.every,
                self@.alt.inner.unread == old(self)@.alt.inner.unread,
                self@.gate == old(self)@.gate,
                self@.out == old(self)@.out,
                self@.party == old(self)@.party,
            decreases n - i,
        {
            proof {
                assert(qs@.skip(i as int)[0] == qs@[i as int]);
                assert(qs@.skip(i as int).drop_first() =~= qs@.skip(i as int + 1));
            }
            let ghost pre_ctr = self@.rng.ctr;
            let q = qs[i];
            let z = self.create_wire(q);
            self.send_commitments(&z);
            zeros.push(z);
            i = i + 1;
            proof {
                let xs = enc_zeros(seed0, pre_ctr, qs@.skip(i - 1));
                assert(xs[0] == fresh_wire_of(seed0, pre_ctr, qs@[i - 1]));
                assert(xs.drop_first() =~= enc_zeros(
                    seed0,
                    wrap64(pre_ctr + 1) as u64,
                    qs@.skip(i as int),
                ));
                assert(zeros@.map(|t: int, w: Wire| w@) + enc_zeros(
                    seed0,
                    self@.rng.ctr,
                    qs@.skip(i as int),
                ) =~= enc_zeros(seed0, ctr0, qs@));
            }
        }
        proof {
            assert(qs@.skip(n as int) =~= Seq::<u16>::empty());
            assert(zeros@.map(|t: int, w: Wire| w@) =~= enc_zeros(seed0, ctr0, qs@));
        }
        self.send_hash();
        zeros
    }

    /// Receive input wires from another party. From the other garbler this
    /// derives the shared zero-labels and commits to them. From the
    /// evaluator it reads one additive share per wire, encodes the shares
    /// as this garbler's own inputs, derives the other garbler's share
    /// wires, and subtracts the two so the reconstructed wire carries the
    /// evaluator's input.
    pub fn receive_many(&mut self, from: PartyId, qs: &Vec<u16>) -> (r: Result<Vec<Wire>, Error>)
        requires
            gb_wf(old(self)@),
            from != old(self)@.party,
            forall|i: int| 0 <= i < qs@.len() ==> (#[trigger] qs@[i]) >= 2,
        ensures
            from != PartyId::Evaluator ==> r is Ok,
            from == PartyId::Evaluator ==> (r is Ok <==> old(self)@.alt.inner.unread.len() >= 2
                * qs@.len()),
            r is Err ==> final(self)@ == old(self)@ && r == Err::<Vec<Wire>, Error>(
                Error::IoError(ChannelError),
            ),
            r matches Ok(ws) ==> gb_wf(final(self)@) && ws@.len() == qs@.len() && (forall|i: int|
                0 <= i < ws@.len() ==> (#[trigger] ws@[i]).wf() && ws@[i]@.q == qs@[i] as int)
                && final(self)@.rng.seed == old(self)@.rng.seed && final(self)@.alt.key == old(self)@.alt.key && final(self)@.alt.every == old(self)@.alt.every && final(self)@.gate
                == old(self)@.gate && final(self)@.out == old(self)@.out && final(self)@.party
                == old(self)@.party,
            from != PartyId::Evaluator ==> (r matches Ok(ws) ==> ws@.map(|i: int, w: Wire| w@)
                == enc_zeros(old(self)@.rng.seed, old(self)@.rng.ctr, qs@) && st_of(
                final(self)@.alt,
            ) == send_hash_st(
                old(self)@.alt.key,
                commits_run(
                    old(self)@.rng.seed,
                    st_of(old(self)@.alt),
                    old(self)@.alt.every,
                    enc_zeros(old(self)@.rng.seed, old(self)@.rng.ctr, qs@),
                ),
            ) && final(self)@.alt.inner.unread == old(self)@.alt.inner.unread && final(self)@.rng.ctr == ctr_after(old(self)@.rng.ctr, qs@.len() as nat)),
            from == PartyId::Evaluator ==> (r matches Ok(ws) ==> ws@.map(|i: int, w: Wire| w@)
                == share_diffs(
                old(self)@.rng.seed,
                old(self)@.rng.ctr,
                qs@,
            ) && final(self)@.alt.inner.unread == old(self)@.alt.inner.unread.skip(2 * qs@.len() as int)
                && final(self)@.rng.ctr == ctr_after(
                ctr_after(old(self)@.rng.ctr, qs@.len() as nat),
                qs@.len() as nat,
            )),
    {
        let n = qs.len();
        if matches!(from, PartyId::Evaluator) {
            let avail = self.alt.channel_unread_len();
            proof {
                vstd::arithmetic::div_mod::lemma_fundamental_div_mod(avail as int, 2);
                vstd::arithmetic::div_mod::lemma_mod_bound(avail as int, 2);
            }
            if avail / 2 < n {
                return Err(Error::IoError(ChannelError));
            }
            let ghost seed0 = self@.rng.seed;
            let ghost ctr0 = self@.rng.ctr;
            let mut shares: Vec<u16> = Vec::new();
            let mut i: usize = 0;
            while i < n
                invariant
                    i <= n,
                    n == qs@.len(),
                    gb_wf(self@),
                    forall|t: int| 0 <= t < qs@.len() ==> (#[trigger] qs@[t]) >= 2,
                    self@.rng == old(self)@.rng,
                    self@.gate == old(self)@.gate,
                    self@.out == old(self)@.out,
                    self@.party == old(self)@.party,
                    self@.alt.key == old(self)@.alt.key,
                    self@.alt.every == old(self)@.alt.every,
                    self@.alt.hashed == old(self)@.alt.hashed,
                    self@.alt.bh == old(self)@.alt.bh,
                    self@.alt.inner.written == old(self)@.alt.inner.written,
                    old(self)@.alt.inner.unread.len() >= 2 * n,
                    self@.alt.inner.unread == old(self)@.alt.inner.unread.skip(2 * i as int),
                    shares@.len() == i,
                    forall|t: int|
                        0 <= t < i ==> (#[trigger] shares@[t]) as int == share_at(
                            old(self)@.alt.inner.unread,
                            qs@,
                            t,
                        ),
                decreases n - i,
            {
                proof {
                    assert(old(self)@.alt.inner.unread.skip(2 * i as int).take(2)
                        =~= old(self)@.alt.inner.unread.subrange(2 * i as int, 2 * i as int + 2));
                    assert(old(self)@.alt.inner.unread.skip(2 * i as int).skip(2)
                        =~= old(self)@.alt.inner.unread.skip(2 * (i as int + 1)));
                }
                let raw = match self.alt.read_u16() {
                    Ok(v) => v,
                    Err(_) => {
                        proof {
                            assert(false);
                        }
                        0
                    },
                };
                let s = raw % qs[i];
                shares.push(s);
                i = i + 1;
            }
            let ws1: Vec<Wire>;
            let ws2: Vec<Wire>;
            if matches!(self.party, PartyId::Garbler1) {
                ws1 = self.encode_many(&shares, qs);
                ws2 = self.receive_garbler_core(qs);
            } else {
                ws1 = self.receive_garbler_core(qs);
                ws2 = self.encode_many(&shares, qs);
            }
            let mut out: Vec<Wire> = Vec::new();
            let mut k: usize = 0;
            while k < n
                invariant
                    k <= n,
                    n == qs@.len(),
                    n == ws1@.len(),
                    n == ws2@.len(),
                    forall|t: int|
                        0 <= t < n ==> (#[trigger] ws1@[t]).wf() && ws1@[t]@.q == qs@[t] as int,
                    forall|t: int|
                        0 <= t < n ==> (#[trigger] ws2@[t]).wf() && ws2@[t]@.q == qs@[t] as int,
                    out@.len() == k,
                    forall|t: int|
                        0 <= t < k ==> (#[trigger] out@[t]).wf() && out@[t]@.q == qs@[t] as int
                            && out@[t]@.ds == crate::wire::sub_digits(
                            ws2@[t]@.ds,
                            ws1@[t]@.ds,
                            qs@[t] as int,
                        ),
                decreases n - k,
            {
                out.push(ws2[k].minus(&ws1[k]));
                k = k + 1;
            }
            proof {
                lemma_share_diffs(
                    seed0,
                    ctr0,
                    qs@,
                    ws1@.map(|t: int, w: Wire| w@),
                    ws2@.map(|t: int, w: Wire| w@),
                    out@.map(|t: int, w: Wire| w@),
                    self@.party == PartyId::Garbler1,
                );
            }
            Ok(out)
        } else {
            Ok(self.receive_garbler_core(qs))
        }
    }
}

/// The zero-label of a reconstructed evaluator input: the second share wire
/// minus the first, whichever garbler encoded which.
pub open spec fn share_diffs(seed: u128, ctr: u64, qs: Seq<u16>) -> Seq<WireView> {
    Seq::new(
        qs.len(),
        |i: int|
            WireView {
                q: qs[i] as int,
                ds: crate::wire::sub_digits(
                    enc_zeros(seed, ctr_after(ctr, qs.len()), qs)[i].ds,
                    enc_zeros(seed, ctr, qs)[i].ds,
                    qs[i] as int,
                ),
            },
    )
}

/// The i-th share parsed from the evaluator's bytes, reduced modulo its
/// wire's modulus.
pub open spec fn share_at(unread: Seq<u8>, qs: Seq<u16>, i: int) -> int {
    (from_le_of(unread.subrange(2 * i, 2 * i + 2)) % 0x10000) % (qs[i] as int)
}

/// The element-wise subtraction of the two share-wire lists is exactly
/// `share_diffs`, whichever garbler went first: encoding always happens at
/// the first counter window for garbler 1's shares and at the second for
/// garbler 2's.
proof fn lemma_share_diffs(
    seed: u128,
    ctr: u64,
    qs: Seq<u16>,
    z1: Seq<WireView>,
    z2: Seq<WireView>,
    out: Seq<WireView>,
    first: bool,
)
    requires
        z1 == enc_zeros(seed, ctr, qs),
        z2 == enc_zeros(seed, ctr_after(ctr, qs.len()), qs),
        out.len() == qs.len(),
        z1.len() == qs.len(),
        z2.len() == qs.len(),
        forall|i: int|
            0 <= i < out.len() ==> (#[trigger] out[i]).q == qs[i] as int && out[i].ds
                == crate::wire::sub_digits(z2[i].ds, z1[i].ds, qs[i] as int),
    ensures
        out =~= share_diffs(seed, ctr, qs),
{
}


impl Garbler {
    /// The free constant gate.
    pub fn constant(&mut self, x: u16, q: u16) -> (r: Wire)
        requires
            q >= 2,
            x < q,
        ensures
            r.wf(),
            r@.q == q as int,
            r@.ds == cmul_digits(
                negate_digits(delta_of(old(self)@.rng.seed, q).ds, q as int),
                x as int,
                q as int,
            ),
            final(self)@ == old(self)@,
    {
        let d = self.delta(q);
        d.negate().cmul(x)
    }

    /// The free add gate.
    pub fn add(&mut self, x: &Wire, y: &Wire) -> (r: Wire)
        requires
            x.wf(),
            y.wf(),
            x@.q == y@.q,
        ensures
            r.wf(),
            r@.q == x@.q,
            r@.ds == add_digits(x@.ds, y@.ds, x@.q),
            final(self)@ == old(self)@,
    {
        x.plus(y)
    }

    /// The free subtract gate.
    pub fn sub(&mut self, x: &Wire, y: &Wire) -> (r: Wire)
        requires
            x.wf(),
            y.wf(),
            x@.q == y@.q,
        ensures
            r.wf(),
            r@.q == x@.q,
            r@.ds == sub_digits(x@.ds, y@.ds, x@.q),
            final(self)@ == old(self)@,
    {
        x.minus(y)
    }

    /// The free scalar-multiply gate.
    pub fn cmul(&mut self, x: &Wire, c: u16) -> (r: Wire)
        requires
            x.wf(),
        ensures
            r.wf(),
            r@.q == x@.q,
            r@.ds == cmul_digits(x@.ds, c as int, x@.q),
            final(self)@ == old(self)@,
    {
        x.cmul(c)
    }

    /// The multiply gate: the table goes to the evaluator through the
    /// alternation.
    pub fn mul(&mut self, x: &Wire, y: &Wire) -> (r: Wire)
        requires
            gb_wf(old(self)@),
            x.wf(),
            y.wf(),
            x@.q == y@.q,
        ensures
            gb_wf(final(self)@),
            r.wf(),
            r@ == fresh_wire_of(old(self)@.rng.seed, old(self)@.rng.ctr, (x@.q) as u16),
            r@.q == x@.q,
            st_of(final(self)@.alt) == alt_run(
                st_of(old(self)@.alt),
                old(self)@.alt.every,
                blocks_to_bytes(
                    mul_rows(
                        x@,
                        y@,
                        delta_of(old(self)@.rng.seed, (x@.q) as u16),
                        r@,
                        old(self)@.gate,
                    ),
                ),
            ),
            final(self)@.alt.key == old(self)@.alt.key,
            final(self)@.alt.every == old(self)@.alt.every,
            final(self)@.alt.inner.unread == old(self)@.alt.inner.unread,
            final(self)@.rng.seed == old(self)@.rng.seed,
            final(self)@.rng.ctr as int == wrap64(old(self)@.rng.ctr + 1),
            final(self)@.gate as int == wrap64(old(self)@.gate + 1),
            final(self)@.out == old(self)@.out,
            final(self)@.party == old(self)@.party,
    {
        let q = x.modulus();
        let out0 = self.create_wire(q);
        let d = self.delta(q);
        let rows = mul_table(x, y, &d, &out0, self.gate_index);
        self.alt.write_alternating(rows.as_slice());
        self.gate_index = if self.gate_index == u64::MAX {
            0
        } else {
            self.gate_index + 1
        };
        out0
    }

    /// The projection gate: the table goes through the alternation.
    pub fn proj(&mut self, x: &Wire, q_out: u16, tt: &Vec<u16>) -> (r: Wire)
        requires
            gb_wf(old(self)@),
            x.wf(),
            q_out >= 2,
            tt@.len() == x@.q,
            forall|i: int| 0 <= i < tt@.len() ==> (#[trigger] tt@[i]) < q_out,
        ensures
            gb_wf(final(self)@),
            r.wf(),
            r@ == fresh_wire_of(old(self)@.rng.seed, old(self)@.rng.ctr, q_out),
            r@.q == q_out as int,
            st_of(final(self)@.alt) == alt_run(
                st_of(old(self)@.alt),
                old(self)@.alt.every,
                blocks_to_bytes(
                    proj_rows(
                        x@,
                        delta_of(old(self)@.rng.seed, (x@.q) as u16),
                        delta_of(old(self)@.rng.seed, q_out),
                        r@,
                        tt@,
                        old(self)@.gate,
                    ),
                ),
            ),
            final(self)@.alt.key == old(self)@.alt.key,
            final(self)@.alt.every == old(self)@.alt.every,
            final(self)@.alt.inner.unread == old(self)@.alt.inner.unread,
            final(self)@.rng.seed == old(self)@.rng.seed,
            final(self)@.rng.ctr as int == wrap64(old(self)@.rng.ctr + 1),
            final(self)@.gate as int == wrap64(old(self)@.gate + 1),
            final(self)@.out == old(self)@.out,
            final(self)@.party == old(self)@.party,
    {
        let q = x.modulus();
        let out0 = self.create_wire(q_out);
        let din = self.delta(q);
        let dout = self.delta(q_out);
        let rows = proj_table(x, &din, &dout, &out0, tt, self.gate_index);
        self.alt.write_alternating(rows.as_slice());
        self.gate_index = if self.gate_index == u64::MAX {
            0
        } else {
            self.gate_index + 1
        };
        out0
    }

    /// The output gate: the decoding table goes through the alternation,
    /// followed by a digest checkpoint. The garbler learns nothing.
    pub fn output(&mut self, x: &Wire)
        requires
            gb_wf(old(self)@),
            x.wf(),
        ensures
            gb_wf(final(self)@),
            st_of(final(self)@.alt) == send_hash_st(
                old(self)@.alt.key,
                alt_run(
                    st_of(old(self)@.alt),
                    old(self)@.alt.every,
                    blocks_to_bytes(
                        output_rows(
                            x@,
                            delta_of(old(self)@.rng.seed, (x@.q) as u16),
                            old(self)@.out,
                        ),
                    ),
                ),
            ),
            final(self)@.alt.key == old(self)@.alt.key,
            final(self)@.alt.every == old(self)@.alt.every,
            final(self)@.alt.inner.unread == old(self)@.alt.inner.unread,
            final(self)@.rng == old(self)@.rng,
            final(self)@.gate == old(self)@.gate,
            final(self)@.out as int == wrap64(old(self)@.out + 1),
            final(self)@.party == old(self)@.party,
    {
        let d = self.delta(x.modulus());
        let rows = output_table(x, &d, self.out_index);
        self.alt.write_alternating(rows.as_slice());
        self.out_index = if self.out_index == u64::MAX {
            0
        } else {
            self.out_index + 1
        };
        self.send_hash();
    }

    /// Start revealing values to all parties: send every decoding table,
    /// then a digest checkpoint. The evaluator answers with the output
    /// labels, which `reveal_finish` checks.
    pub fn reveal_send(&mut self, xs: &Vec<Wire>)
        requires
            gb_wf(old(self)@),
            forall|i: int| 0 <= i < xs@.len() ==> (#[trigger] xs@[i]).wf(),
        ensures
            gb_wf(final(self)@),
            st_of(final(self)@.alt) == send_hash_st(
                old(self)@.alt.key,
                outputs_run(
                    old(self)@.rng.seed,
                    st_of(old(self)@.alt),
                    old(self)@.alt.every,
                    xs@.map(|i: int, w: Wire| w@),
                    old(self)@.out,
                ),
            ),
            final(self)@.alt.key == old(self)@.alt.key,
            final(self)@.alt.every == old(self)@.alt.every,
            final(self)@.alt.inner.unread == old(self)@.alt.inner.unread,
            final(self)@.rng == old(self)@.rng,
            final(self)@.gate == old(self)@.gate,
            final(self)@.party == old(self)@.party,
    {
        let ghost seed0 = self@.rng.seed;
        let ghost st0 = st_of(self@.alt);
        let ghost ws = xs@.map(|i: int, w: Wire| w@);
        let n = xs.len();
        let mut i: usize = 0;
        proof {
            assert(ws.skip(0) =~= ws);
        }
        while i < n
            invariant
                i <= n,
                n == xs@.len(),
                gb_wf(self@),
                ws == xs@.map(|t: int, w: Wire| w@),
                forall|t: int| 0 <= t < xs@.len() ==> (#[trigger] xs@[t]).wf(),
                self@.rng.seed == seed0,
                self@.rng == old(self)@.rng,
                outputs_run(seed0, st_of(self@.alt), self@.alt.every, ws.skip(i as int), self@.out)
                    == outputs_run(seed0, st0, self@.alt.every, ws, old(self)@.out),
                self@.alt.key == old(self)@.alt.key,
                self@.alt.every == old(self)@.alt.every,
                self@.alt.inner.unread == old(self)@.alt.inner.unread,
                self@.gate == old(self)@.gate,
                self@.party == old(self)@.party,
            decreases n - i,
        {
            proof {
                assert(ws.skip(i as int)[0] == ws[i as int]);
                assert(ws.skip(i as int).drop_first() =~= ws.skip(i as int + 1));
                assert(ws[i as int] == xs@[i as int]@);
            }
            let d = self.delta(xs[i].modulus());
            let rows = output_table(&xs[i], &d, self.out_index);
            self.alt.write_alternating(rows.as_slice());
            self.out_index = if self.out_index == u64::MAX {
                0
            } else {
                self.out_index + 1
            };
            i = i + 1;
        }
        proof {
            assert(ws.skip(n as int) =~= Seq::<WireView>::empty());
        }
        self.send_hash();
    }

    /// Finish a reveal: read the evaluator's claimed output labels and
    /// recover each value from the label's color. A label the garbling
    /// never produced for its wire fails the progression check and the
    /// reveal aborts with `InvalidResult`; a fabricated cleartext is never
    /// returned.
    pub fn reveal_finish(&mut self, xs: &Vec<Wire>) -> (r: Result<Vec<u16>, Error>)
        requires
            gb_wf(old(self)@),
            forall|i: int| 0 <= i < xs@.len() ==> (#[trigger] xs@[i]).wf(),
        ensures
            r is Err && r == Err::<Vec<u16>, Error>(Error::IoError(ChannelError)) <==> old(self)@.alt.inner.unread.len() < 16 * xs@.len(),
            old(self)@.alt.inner.unread.len() < 16 * xs@.len() ==> final(self)@ == old(self)@,
            old(self)@.alt.inner.unread.len() >= 16 * xs@.len() ==> final(self)@.alt.inner.unread
                == old(self)@.alt.inner.unread.skip(16 * xs@.len() as int) && st_of(
                final(self)@.alt,
            ) == st_of(old(self)@.alt) && final(self)@.rng == old(self)@.rng && final(self)@.gate
                == old(self)@.gate && final(self)@.out == old(self)@.out && final(self)@.party
                == old(self)@.party && final(self)@.alt.key == old(self)@.alt.key && final(self)@.alt.every == old(self)@.alt.every,
            old(self)@.alt.inner.unread.len() >= 16 * xs@.len() ==> ((r is Ok <==> forall|i: int|
                0 <= i < xs@.len() ==> reveal_label_at(old(self)@.alt.inner.unread, xs@[i]@, i)
                    == enc_wire(
                    xs@[i]@,
                    delta_of(old(self)@.rng.seed, (xs@[i]@.q) as u16),
                    reveal_value_at(old(self)@.alt.inner.unread, xs@[i]@, i),
                )) && (r is Err ==> r == Err::<Vec<u16>, Error>(Error::InvalidResult))),
            r matches Ok(vs) ==> vs@.len() == xs@.len() && forall|i: int|
                0 <= i < xs@.len() ==> (#[trigger] vs@[i]) as int == reveal_value_at(
                    old(self)@.alt.inner.unread,
                    xs@[i]@,
                    i,
                ),
    {
        let n = xs.len();
        let avail = self.alt.channel_unread_len();
        proof {
            vstd::arithmetic::div_mod::lemma_fundamental_div_mod(avail as int, 16);
            vstd::arithmetic::div_mod::lemma_mod_bound(avail as int, 16);
        }
        if avail / 16 < n {
            proof {
                assert((avail as int) < 16 * (n as int)) by (nonlinear_arith)
                    requires
                        avail as int / 16 < n as int,
                        avail as int == 16 * (avail as int / 16) + avail as int % 16,
                        avail as int % 16 < 16,
                ;
            }
            return Err(Error::IoError(ChannelError));
        }
        proof {
            assert(16 * (n as int) <= avail as int) by (nonlinear_arith)
                requires
                    n as int <= avail as int / 16,
                    avail as int == 16 * (avail as int / 16) + avail as int % 16,
                    0 <= avail as int % 16,
            ;
        }
        let ghost unread0 = self@.alt.inner.unread;
        let mut labs: Vec<Wire> = Vec::new();
        let mut i: usize = 0;
        while i < n
            invariant
                i <= n,
                n == xs@.len(),
                gb_wf(self@),
                forall|t: int| 0 <= t < xs@.len() ==> (#[trigger] xs@[t]).wf(),
                unread0 == old(self)@.alt.inner.unread,
                unread0.len() >= 16 * n,
                self@.alt.inner.unread == unread0.skip(16 * i as int),
                st_of(self@.alt) == st_of(old(self)@.alt),
                self@.alt.key == old(self)@.alt.key,
                self@.alt.every == old(self)@.alt.every,
                self@.rng == old(self)@.rng,
                self@.gate == old(self)@.gate,
                self@.out == old(self)@.out,
                self@.party == old(self)@.party,
                labs@.len() == i,
                forall|t: int|
                    0 <= t < i ==> (#[trigger] labs@[t])@ == reveal_label_at(unread0, xs@[t]@, t)
                        && labs@[t].wf() && labs@[t]@.q == xs@[t]@.q,
            decreases n - i,
        {
            proof {
                assert(unread0.skip(16 * i as int).take(16) =~= unread0.subrange(
                    16 * i as int,
                    16 * i as int + 16,
                ));
                assert(unread0.skip(16 * i as int).skip(16) =~= unread0.skip(16 * (i as int + 1)));
            }
            let b = match self.alt.read_block() {
                Ok(b) => b,
                Err(_) => {
                    proof {
                        assert(false);
                    }
                    0
                },
            };
            let w = Wire::from_block(b, xs[i].modulus());
            proof {
                lemma_wire_of_block_unique(w@, b);
            }
            labs.push(w);
            i = i + 1;
        }
        let mut vs: Vec<u16> = Vec::new();
        let mut k: usize = 0;
        while k < n
            invariant
                k <= n,
                n == xs@.len(),
                n == labs@.len(),
                gb_wf(self@),
                forall|t: int| 0 <= t < xs@.len() ==> (#[trigger] xs@[t]).wf(),
                unread0 == old(self)@.alt.inner.unread,
                unread0.len() >= 16 * n,
                self@.alt.inner.unread == unread0.skip(16 * n as int),
                st_of(self@.alt) == st_of(old(self)@.alt),
                self@.alt.key == old(self)@.alt.key,
                self@.alt.every == old(self)@.alt.every,
                self@.gate == old(self)@.gate,
                self@.out == old(self)@.out,
                self@.party == old(self)@.party,
                forall|t: int|
                    0 <= t < n ==> (#[trigger] labs@[t])@ == reveal_label_at(unread0, xs@[t]@, t)
                        && labs@[t].wf() && labs@[t]@.q == xs@[t]@.q,
                self@.rng == old(self)@.rng,
                vs@.len() == k,
                forall|t: int|
                    0 <= t < k ==> (#[trigger] vs@[t]) as int == reveal_value_at(
                        unread0,
                        xs@[t]@,
                        t,
                    ) && labs@[t]@ == enc_wire(
                        xs@[t]@,
                        delta_of(self@.rng.seed, (xs@[t]@.q) as u16),
                        reveal_value_at(unread0, xs@[t]@, t),
                    ),
            decreases n - k,
        {
            let q = xs[k].modulus();
            let v = ((labs[k].color() as u32 + q as u32 - xs[k].color() as u32) % q as u32) as u16;
            let d = self.delta(q);
            let expect = xs[k].plus(&d.cmul(v));
            proof {
                assert(v as int == reveal_value_at(unread0, xs@[k as int]@, k as int));
                assert(expect@ == enc_wire(
                    xs@[k as int]@,
                    delta_of(self@.rng.seed, (xs@[k as int]@.q) as u16),
                    reveal_value_at(unread0, xs@[k as int]@, k as int),
                ));
            }
            if !expect.wire_eq(&labs[k]) {
                proof {
                    if forall|i: int|
                        0 <= i < xs@.len() ==> reveal_label_at(unread0, xs@[i]@, i) == enc_wire(
                            xs@[i]@,
                            delta_of(old(self)@.rng.seed, (xs@[i]@.q) as u16),
                            reveal_value_at(unread0, xs@[i]@, i),
                        ) {
                        assert(reveal_label_at(unread0, xs@[k as int]@, k as int) == enc_wire(
                            xs@[k as int]@,
                            delta_of(old(self)@.rng.seed, (xs@[k as int]@.q) as u16),
                            reveal_value_at(unread0, xs@[k as int]@, k as int),
                        ));
                        assert(false);
                    }
                }
                return Err(Error::InvalidResult);
            }
            vs.push(v);
            k = k + 1;
        }
        proof {
            assert forall|i: int| 0 <= i < xs@.len() implies reveal_label_at(unread0, xs@[i]@, i)
                == enc_wire(
                xs@[i]@,
                delta_of(old(self)@.rng.seed, (xs@[i]@.q) as u16),
                reveal_value_at(unread0, xs@[i]@, i),
            ) by {
                assert(labs@[i]@ == reveal_label_at(unread0, xs@[i]@, i));
                assert(vs@[i] as int == reveal_value_at(unread0, xs@[i]@, i));
                assert(labs@[i]@ == enc_wire(
                    xs@[i]@,
                    delta_of(self@.rng.seed, (xs@[i]@.q) as u16),
                    reveal_value_at(unread0, xs@[i]@, i),
                ));
            }
        }
        Ok(vs)
    }
}

/// The label the evaluator claims for output i: the i-th block of the
/// incoming bytes, unpacked in the output wire's modulus.
pub open spec fn reveal_label_at(unread: Seq<u8>, x: WireView, i: int) -> WireView {
    wire_from_block_of(
        from_le_of(unread.subrange(16 * i, 16 * i + 16)) as u128,
        x.q,
    )
}

/// The value output i decodes to: how far the claimed label's color is from
/// the garbler's zero-label color.
pub open spec fn reveal_value_at(unread: Seq<u8>, x: WireView, i: int) -> int {
    (color_of(reveal_label_at(unread, x, i)) + x.q - color_of(x)) % x.q
}


impl Garbler {
    /// Drain the bytes written toward the evaluator, for the transport.
    pub fn take_written(&mut self) -> (r: Vec<u8>)
        ensures
            r@ == old(self)@.alt.inner.written,
            final(self)@.alt.inner.written == Seq::<u8>::empty(),
            final(self)@.alt.inner.unread == old(self)@.alt.inner.unread,
            final(self)@.alt.key == old(self)@.alt.key,
            final(self)@.alt.hashed == old(self)@.alt.hashed,
            final(self)@.alt.every == old(self)@.alt.every,
            final(self)@.alt.bh == old(self)@.alt.bh,
            final(self)@.rng == old(self)@.rng,
            final(self)@.gate == old(self)@.gate,
            final(self)@.out == old(self)@.out,
            final(self)@.party == old(self)@.party,
    {
        self.alt.take_written()
    }

    /// Hand the garbler bytes arriving from the evaluator.
    pub fn feed(&mut self, data: &[u8])
        ensures
            final(self)@.alt.inner.unread == old(self)@.alt.inner.unread + data@,
            final(self)@.alt.inner.written == old(self)@.alt.inner.written,
            final(self)@.alt.key == old(self)@.alt.key,
            final(self)@.alt.hashed == old(self)@.alt.hashed,
            final(self)@.alt.every == old(self)@.alt.every,
            final(self)@.alt.bh == old(self)@.alt.bh,
            final(self)@.rng == old(self)@.rng,
            final(self)@.gate == old(self)@.gate,
            final(self)@.out == old(self)@.out,
            final(self)@.party == old(self)@.party,
    {
        self.alt.feed(data);
    }
}


} // verus!
