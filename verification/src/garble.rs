//! The point-and-permute garbler and evaluator over a byte channel.
//!
//! The garbler holds a per-session seed. Offsets ("deltas") and fresh wire
//! labels are derived from it deterministically, so cooperating garblers
//! seeded alike garble identically, and a session replayed with the same
//! seed produces the same bytes. Linear gates (add, sub, scalar multiply,
//! constant) cost no communication; multiply and projection gates emit a
//! table of hashed rows indexed by label colors; an output gate emits the
//! hashes the evaluator needs to decode its label.

use vstd::prelude::*;
use vstd::arithmetic::power::pow;
use crate::bytes::{le_of, from_le_of};
use crate::channel::{Channel, ChannelView};
use crate::crypto::{hash_block, hash_block2, hash_block_of, hash_block2_of, tweak2, tweak2_of};
use crate::errors::EvaluatorError;
use crate::rng::{CounterRng, CounterRngView, rng_block_of, wrap64};
use crate::wire::{
    Wire, WireView, wire_wf, val_of, color_of, enc_digits, negate_digits, cmul_digits,
    lemma_mod_len_unique, lemma_val_injective,
};

verus! {

/// The tweak of a non-linear gate's table rows.
pub open spec fn tweak_gate(g: u64) -> u128 {
    tweak2_of(g, 0)
}

/// The tweak of an output gate's decoding rows.
pub open spec fn tweak_output(i: u64) -> u128 {
    tweak2_of(i, 1)
}

/// The tweak of a wire-label commitment of color c.
pub open spec fn tweak_commit(c: u64) -> u128 {
    tweak2_of(c, 2)
}

/// The 128-bit block a label packs to.
pub open spec fn block_of(w: WireView) -> u128 {
    val_of(w.ds, w.q) as u128
}

/// The label that encodes value v over a zero-label and an offset.
pub open spec fn enc_wire(z: WireView, d: WireView, v: int) -> WireView {
    WireView { q: z.q, ds: enc_digits(z.ds, d.ds, v, z.q) }
}

/// w is the well-formed label of modulus q that block x unpacks to.
pub open spec fn is_wire_of_block(w: WireView, x: u128, q: int) -> bool {
    &&& wire_wf(w)
    &&& w.q == q
    &&& val_of(w.ds, w.q) == x as int % pow(q, w.ds.len())
}

/// The label of modulus q that block x unpacks to; unique by
/// `lemma_wire_of_block_unique`.
pub open spec fn wire_from_block_of(x: u128, q: int) -> WireView {
    choose|w: WireView| is_wire_of_block(w, x, q)
}

/// Any two labels a block unpacks to are the same label.
pub proof fn lemma_wire_of_block_unique(w: WireView, x: u128)
    requires
        is_wire_of_block(w, x, w.q),
    ensures
        wire_from_block_of(x, w.q) == w,
{
    let w2 = choose|w2: WireView| is_wire_of_block(w2, x, w.q);
    assert(is_wire_of_block(w, x, w.q));
    assert(is_wire_of_block(w2, x, w.q));
    lemma_mod_len_unique(w.q, w.ds.len(), w2.ds.len());
    lemma_val_injective(w.ds, w2.ds, w.q);
    assert(w.ds =~= w2.ds);
}

/// The per-modulus secret offset a seed determines: the label of the block
/// `hash(seed, tweak2(q, 4))` with its color forced to 1.
pub open spec fn delta_of(seed: u128, q: u16) -> WireView {
    let base = wire_from_block_of(hash_block_of(seed, tweak2_of(q as u64, 4)), q as int);
    WireView { q: q as int, ds: base.ds.update(0, 1u16) }
}

/// The fresh zero-label drawn at counter position k.
pub open spec fn fresh_wire_of(seed: u128, k: u64, q: u16) -> WireView {
    wire_from_block_of(rng_block_of(seed, k), q as int)
}

/// Row r of a multiply gate's table: the encrypted output label for the
/// input-value pair whose labels carry colors (r / q, r % q).
pub open spec fn mul_row(x: WireView, y: WireView, d: WireView, out0: WireView, g: u64, r: int) -> u128 {
    let q = x.q;
    let vx = (r / q + q - color_of(x)) % q;
    let vy = (r % q + q - color_of(y)) % q;
    block_of(enc_wire(out0, d, (vx * vy) % q)) ^ hash_block2_of(
        block_of(enc_wire(x, d, vx)),
        block_of(enc_wire(y, d, vy)),
        tweak_gate(g),
    )
}

/// The q*q rows of a multiply gate, in color order.
pub open spec fn mul_rows(x: WireView, y: WireView, d: WireView, out0: WireView, g: u64) -> Seq<u128> {
    Seq::new((x.q * x.q) as nat, |r: int| mul_row(x, y, d, out0, g, r))
}

/// Row c of a projection gate's table: the encrypted output label for the
/// input value whose label carries color c.
pub open spec fn proj_row(
    x: WireView,
    din: WireView,
    dout: WireView,
    out0: WireView,
    tt: Seq<u16>,
    g: u64,
    c: int,
) -> u128 {
    let q = x.q;
    let vx = (c + q - color_of(x)) % q;
    block_of(enc_wire(out0, dout, tt[vx] as int)) ^ hash_block_of(
        block_of(enc_wire(x, din, vx)),
        tweak_gate(g),
    )
}

/// The q rows of a projection gate, in color order.
pub open spec fn proj_rows(
    x: WireView,
    din: WireView,
    dout: WireView,
    out0: WireView,
    tt: Seq<u16>,
    g: u64,
) -> Seq<u128> {
    Seq::new(x.q as nat, |c: int| proj_row(x, din, dout, out0, tt, g, c))
}

/// Row k of an output gate's decoding table: the hash of the label that
/// encodes value k.
pub open spec fn output_row(x: WireView, d: WireView, i: u64, k: int) -> u128 {
    hash_block_of(block_of(enc_wire(x, d, k)), tweak_output(i))
}

/// The q rows of an output gate's decoding table, in value order.
pub open spec fn output_rows(x: WireView, d: WireView, i: u64) -> Seq<u128> {
    Seq::new(x.q as nat, |k: int| output_row(x, d, i, k))
}

/// Commitment row c of a wire: the hash, under the color-c tweak, of the
/// label of color c. The base label of color 0 is `x - color(x) * d`, so row
/// c commits to `base + c * d`, in color order, hiding which row carries the
/// true value.
pub open spec fn commit_base(x: WireView, d: WireView) -> WireView {
    WireView { q: x.q, ds: crate::wire::sub_digits(x.ds, cmul_digits(d.ds, color_of(x) as int, x.q), x.q) }
}

/// Commitment row c of a wire.
pub open spec fn commit_row(x: WireView, d: WireView, c: int) -> u128 {
    hash_block_of(block_of(enc_wire(commit_base(x, d), d, c)), tweak_commit(c as u64))
}

/// The q commitment rows of a wire, in color order.
pub open spec fn commit_rows(x: WireView, d: WireView) -> Seq<u128> {
    Seq::new(x.q as nat, |c: int| commit_row(x, d, c))
}

/// The byte stream a sequence of blocks becomes on the wire.
pub open spec fn blocks_to_bytes(rows: Seq<u128>) -> Seq<u8>
    decreases rows.len(),
{
    if rows.len() == 0 {
        Seq::empty()
    } else {
        le_of(rows[0] as int, 16) + blocks_to_bytes(rows.drop_first())
    }
}

/// The blocks a byte stream carries, sixteen bytes each.
pub open spec fn bytes_to_blocks(s: Seq<u8>) -> Seq<u128> {
    Seq::new(s.len() / 16, |k: int| from_le_of(s.subrange(16 * k, 16 * k + 16)) as u128)
}

/// Appending one block appends its sixteen bytes.
pub proof fn lemma_blocks_to_bytes_push(rows: Seq<u128>, b: u128)
    ensures
        blocks_to_bytes(rows.push(b)) =~= blocks_to_bytes(rows) + le_of(b as int, 16),
    decreases rows.len(),
{
    crate::bytes::lemma_le_len(b as int, 16);
    if rows.len() == 0 {
        assert(rows.push(b) =~= seq![b]);
        assert(seq![b].drop_first() =~= Seq::<u128>::empty());
        assert(blocks_to_bytes(Seq::<u128>::empty()) =~= Seq::<u8>::empty());
        assert(blocks_to_bytes(seq![b]) =~= le_of(b as int, 16));
        assert(blocks_to_bytes(rows) =~= Seq::<u8>::empty());
    } else {
        assert(rows.push(b).drop_first() =~= rows.drop_first().push(b));
        lemma_blocks_to_bytes_push(rows.drop_first(), b);
        assert(rows.push(b)[0] == rows[0]);
        assert(blocks_to_bytes(rows.push(b)) =~= le_of(rows[0] as int, 16) + blocks_to_bytes(
            rows.drop_first().push(b),
        ));
    }
}

/// The byte length of a block stream.
pub proof fn lemma_blocks_to_bytes_len(rows: Seq<u128>)
    ensures
        blocks_to_bytes(rows).len() == 16 * rows.len(),
    decreases rows.len(),
{
    crate::bytes::lemma_le_len(rows[0] as int, 16);
    if rows.len() > 0 {
        lemma_blocks_to_bytes_len(rows.drop_first());
    }
}

/// Append one block's bytes to a buffer.
fn push_block(buf: &mut Vec<u8>, b: u128)
    ensures
        final(buf)@ == old(buf)@ + crate::bytes::le_of(b as int, 16),
{
    let bs = crate::bytes::to_le(b, 16);
    crate::hash_channel::append_bytes(buf, bs.as_slice());
}

/// Build the table of a multiply gate: q*q encrypted rows in color order.
pub fn mul_table(x: &Wire, y: &Wire, d: &Wire, out0: &Wire, g: u64) -> (r: Vec<u8>)
    requires
        x.wf(),
        y.wf(),
        d.wf(),
        out0.wf(),
        x@.q == y@.q,
        d@.q == x@.q,
        out0@.q == x@.q,
    ensures
        r@ == blocks_to_bytes(mul_rows(x@, y@, d@, out0@, g)),
{
    let q = x.modulus();
    let tweak = tweak2(g, 0);
    let cx0 = x.color();
    let cy0 = y.color();
    let ghost rows = mul_rows(x@, y@, d@, out0@, g);
    proof {
        assert((q as int) * (q as int) <= 0xffff * 0xffff) by (nonlinear_arith)
            requires
                q <= 0xffff,
        ;
    }
    let n: usize = (q as usize) * (q as usize);
    let mut buf: Vec<u8> = Vec::new();
    let mut r_i: usize = 0;
    proof {
        assert(rows.take(0) =~= Seq::<u128>::empty());
    }
    while r_i < n
        invariant
            r_i <= n,
            n as int == (x@.q) * (x@.q),
            q as int == x@.q,
            x.wf(),
            y.wf(),
            out0.wf(),
            d.wf(),
            x@.q == y@.q,
            out0@.q == x@.q,
            d@.q == x@.q,
            cx0 == color_of(x@),
            cy0 == color_of(y@),
            tweak == tweak_gate(g),
            rows == mul_rows(x@, y@, d@, out0@, g),
            buf@ == blocks_to_bytes(rows.take(r_i as int)),
        decreases n - r_i,
    {
        let cx = (r_i / (q as usize)) as u32;
        let cy = (r_i % (q as usize)) as u32;
        proof {
            assert(r_i / (q as usize) < q as usize) by (nonlinear_arith)
                requires
                    (r_i as int) < (q as int) * (q as int),
                    q >= 2,
                    r_i >= 0,
            ;
            vstd::arithmetic::div_mod::lemma_mod_bound(r_i as int, q as int);
        }
        let vx = ((cx + q as u32 - cx0 as u32) % q as u32) as u16;
        let vy = ((cy + q as u32 - cy0 as u32) % q as u32) as u16;
        let lx = x.plus(&d.cmul(vx));
        let ly = y.plus(&d.cmul(vy));
        proof {
            assert((vx as int) * (vy as int) < 0x100000000) by (nonlinear_arith)
                requires
                    vx < 0x10000,
                    vy < 0x10000,
            ;
        }
        let vout = ((vx as u32 * vy as u32) % q as u32) as u16;
        let row_label = out0.plus(&d.cmul(vout));
        let row = row_label.as_block() ^ hash_block2(lx.as_block(), ly.as_block(), tweak);
        proof {
            assert(row == mul_row(x@, y@, d@, out0@, g, r_i as int));
            assert(rows.take(r_i as int).push(rows[r_i as int]) =~= rows.take(r_i + 1));
            lemma_blocks_to_bytes_push(rows.take(r_i as int), rows[r_i as int]);
        }
        push_block(&mut buf, row);
        r_i = r_i + 1;
    }
    proof {
        assert(rows.take(n as int) =~= rows);
    }
    buf
}

/// Build the table of a projection gate: q encrypted rows in color order.
pub fn proj_table(x: &Wire, din: &Wire, dout: &Wire, out0: &Wire, tt: &Vec<u16>, g: u64) -> (r:
    Vec<u8>)
    requires
        x.wf(),
        din.wf(),
        dout.wf(),
        out0.wf(),
        din@.q == x@.q,
        dout@.q == out0@.q,
        tt@.len() == x@.q,
        forall|i: int| 0 <= i < tt@.len() ==> (#[trigger] tt@[i]) < out0@.q,
    ensures
        r@ == blocks_to_bytes(proj_rows(x@, din@, dout@, out0@, tt@, g)),
{
    let q = x.modulus();
    let tweak = tweak2(g, 0);
    let cx0 = x.color();
    let ghost rows = proj_rows(x@, din@, dout@, out0@, tt@, g);
    let n: usize = q as usize;
    let mut buf: Vec<u8> = Vec::new();
    let mut c_i: usize = 0;
    proof {
        assert(rows.take(0) =~= Seq::<u128>::empty());
    }
    while c_i < n
        invariant
            c_i <= n,
            n as int == x@.q,
            q as int == x@.q,
            x.wf(),
            out0.wf(),
            din.wf(),
            dout.wf(),
            din@.q == x@.q,
            dout@.q == out0@.q,
            cx0 == color_of(x@),
            tt@.len() == x@.q,
            forall|i: int| 0 <= i < tt@.len() ==> (#[trigger] tt@[i]) < out0@.q,
            tweak == tweak_gate(g),
            rows == proj_rows(x@, din@, dout@, out0@, tt@, g),
            buf@ == blocks_to_bytes(rows.take(c_i as int)),
        decreases n - c_i,
    {
        let vx = ((c_i as u32 + q as u32 - cx0 as u32) % q as u32) as u16;
        let lx = x.plus(&din.cmul(vx));
        let row_label = out0.plus(&dout.cmul(tt[vx as usize]));
        let row = row_label.as_block() ^ hash_block(lx.as_block(), tweak);
        proof {
            assert(row == proj_row(x@, din@, dout@, out0@, tt@, g, c_i as int));
            assert(rows.take(c_i as int).push(rows[c_i as int]) =~= rows.take(c_i + 1));
            lemma_blocks_to_bytes_push(rows.take(c_i as int), rows[c_i as int]);
        }
        push_block(&mut buf, row);
        c_i = c_i + 1;
    }
    proof {
        assert(rows.take(n as int) =~= rows);
    }
    buf
}

/// Build the decoding table of an output gate: q hashed rows in value order.
pub fn output_table(x: &Wire, d: &Wire, i: u64) -> (r: Vec<u8>)
    requires
        x.wf(),
        d.wf(),
        d@.q == x@.q,
    ensures
        r@ == blocks_to_bytes(output_rows(x@, d@, i)),
{
    let q = x.modulus();
    let tweak = tweak2(i, 1);
    let ghost rows = output_rows(x@, d@, i);
    let n: usize = q as usize;
    let mut buf: Vec<u8> = Vec::new();
    let mut k: usize = 0;
    proof {
        assert(rows.take(0) =~= Seq::<u128>::empty());
    }
    while k < n
        invariant
            k <= n,
            n as int == x@.q,
            q as int == x@.q,
            x.wf(),
            d.wf(),
            d@.q == x@.q,
            tweak == tweak_output(i),
            rows == output_rows(x@, d@, i),
            buf@ == blocks_to_bytes(rows.take(k as int)),
        decreases n - k,
    {
        let lk = x.plus(&d.cmul(k as u16));
        let row = lk.hash(tweak);
        proof {
            assert(row == output_row(x@, d@, i, k as int));
            assert(rows.take(k as int).push(rows[k as int]) =~= rows.take(k + 1));
            lemma_blocks_to_bytes_push(rows.take(k as int), rows[k as int]);
        }
        push_block(&mut buf, row);
        k = k + 1;
    }
    proof {
        assert(rows.take(n as int) =~= rows);
    }
    buf
}

/// Build the commitment table of a wire: q hashed rows in color order, so
/// the receiver cannot tell which row carries the claimed value.
pub fn commit_table(x: &Wire, d: &Wire) -> (r: Vec<u8>)
    requires
        x.wf(),
        d.wf(),
        d@.q == x@.q,
    ensures
        r@ == blocks_to_bytes(commit_rows(x@, d@)),
{
    let q = x.modulus();
    let base = x.minus(&d.cmul(x.color()));
    let ghost rows = commit_rows(x@, d@);
    let n: usize = q as usize;
    let mut buf: Vec<u8> = Vec::new();
    let mut c: usize = 0;
    proof {
        assert(rows.take(0) =~= Seq::<u128>::empty());
        assert(base@ == commit_base(x@, d@));
    }
    while c < n
        invariant
            c <= n,
            n as int == x@.q,
            q as int == x@.q,
            x.wf(),
            d.wf(),
            base.wf(),
            d@.q == x@.q,
            base@ == commit_base(x@, d@),
            base@.q == x@.q,
            rows == commit_rows(x@, d@),
            buf@ == blocks_to_bytes(rows.take(c as int)),
        decreases n - c,
    {
        let lc = base.plus(&d.cmul(c as u16));
        let row = lc.hash(tweak2(c as u64, 2));
        proof {
            assert(row == commit_row(x@, d@, c as int));
            assert(rows.take(c as int).push(rows[c as int]) =~= rows.take(c + 1));
            lemma_blocks_to_bytes_push(rows.take(c as int), rows[c as int]);
        }
        push_block(&mut buf, row);
        c = c + 1;
    }
    proof {
        assert(rows.take(n as int) =~= rows);
    }
    buf
}

/// The garbler's mathematical state.
pub ghost struct GarblerView {
    pub chan: ChannelView,
    pub rng: CounterRngView,
    pub gate: u64,
    pub out: u64,
}

/// The garbling side of the engine, writing to a channel.
pub struct Garbler {
    channel: Channel,
    rng: CounterRng,
    gate_index: u64,
    out_index: u64,
}

impl View for Garbler {
    type V = GarblerView;

    closed spec fn view(&self) -> GarblerView {
        GarblerView { chan: self.channel@, rng: self.rng@, gate: self.gate_index, out: self.out_index }
    }
}

impl Garbler {
    /// Make a garbler over a channel, seeded for the whole session.
    pub fn new(channel: Channel, rng: CounterRng) -> (r: Garbler)
        ensures
            r@.chan == channel@,
            r@.rng == rng@,
            r@.gate == 0,
            r@.out == 0,
    {
        Garbler { channel, rng, gate_index: 0, out_index: 0 }
    }

    /// Give back the channel, with everything garbled so far written to it.
    pub fn into_channel(self) -> (c: Channel)
        ensures
            c@ == self@.chan,
    {
        self.channel
    }

    /// The secret offset for a modulus, derived from the seed; never sent.
    pub fn delta(&self, q: u16) -> (r: Wire)
        requires
            q >= 2,
        ensures
            r.wf(),
            r@ == delta_of(self@.rng.seed, q),
            color_of(r@) == 1,
    {
        let b = hash_block(self.rng.seed(), tweak2(q as u64, 4));
        let base = Wire::from_block(b, q);
        proof {
            lemma_wire_of_block_unique(base@, b);
        }
        let r = base.with_color_one();
        r
    }

    /// Draw a fresh zero-label for a new wire.
    pub fn create_wire(&mut self, q: u16) -> (r: Wire)
        requires
            q >= 2,
        ensures
            r.wf(),
            r@ == fresh_wire_of(old(self)@.rng.seed, old(self)@.rng.ctr, q),
            r@.q == q as int,
            final(self)@.rng.seed == old(self)@.rng.seed,
            final(self)@.rng.ctr as int == wrap64(old(self)@.rng.ctr + 1),
            final(self)@.chan == old(self)@.chan,
            final(self)@.gate == old(self)@.gate,
            final(self)@.out == old(self)@.out,
    {
        let b = self.rng.gen_block();
        let r = Wire::from_block(b, q);
        proof {
            lemma_wire_of_block_unique(r@, b);
        }
        r
    }

    /// Encode a private input: the zero-label the garbler keeps, and the
    /// label for value x that the evaluator is to receive. The two differ by
    /// exactly x offsets: `theirs = mine + x * delta(q)`.
    pub fn encode_wire(&mut self, x: u16, q: u16) -> (r: (Wire, Wire))
        requires
            q >= 2,
            x < q,
        ensures
            r.0.wf(),
            r.1.wf(),
            r.0@ == fresh_wire_of(old(self)@.rng.seed, old(self)@.rng.ctr, q),
            r.0@.q == q as int,
            r.1@ == enc_wire(r.0@, delta_of(old(self)@.rng.seed, q), x as int),
            final(self)@.rng.seed == old(self)@.rng.seed,
            final(self)@.rng.ctr as int == wrap64(old(self)@.rng.ctr + 1),
            final(self)@.chan == old(self)@.chan,
            final(self)@.gate == old(self)@.gate,
            final(self)@.out == old(self)@.out,
    {
        let zero = self.create_wire(q);
        let d = self.delta(q);
        let theirs = zero.plus(&d.cmul(x));
        (zero, theirs)
    }

    /// The free constant gate: the label the evaluator's all-zero constant
    /// label decodes against is `-x * delta`, so no bytes are sent.
    pub fn constant(&mut self, x: u16, q: u16) -> (r: Wire)
        requires
            q >= 2,
            x < q,
        ensures
            r.wf(),
            r@.q == q as int,
            r@.ds == cmul_digits(
                negate_digits(delta_of(old(self)@.rng.seed, q).ds, q as int),
                x as int,
                q as int,
            ),
            final(self)@ == old(self)@,
    {
        let d = self.delta(q);
        d.negate().cmul(x)
    }

    /// The free add gate.
    pub fn add(&mut self, x: &Wire, y: &Wire) -> (r: Wire)
        requires
            x.wf(),
            y.wf(),
            x@.q == y@.q,
        ensures
            r.wf(),
            r@.q == x@.q,
            r@.ds == crate::wire::add_digits(x@.ds, y@.ds, x@.q),
            final(self)@ == old(self)@,
    {
        x.plus(y)
    }

    /// The free subtract gate.
    pub fn sub(&mut self, x: &Wire, y: &Wire) -> (r: Wire)
        requires
            x.wf(),
            y.wf(),
            x@.q == y@.q,
        ensures
            r.wf(),
            r@.q == x@.q,
            r@.ds == crate::wire::sub_digits(x@.ds, y@.ds, x@.q),
            final(self)@ == old(self)@,
    {
        x.minus(y)
    }

    /// The free scalar-multiply gate.
    pub fn cmul(&mut self, x: &Wire, c: u16) -> (r: Wire)
        requires
            x.wf(),
        ensures
            r.wf(),
            r@.q == x@.q,
            r@.ds == cmul_digits(x@.ds, c as int, x@.q),
            final(self)@ == old(self)@,
    {
        x.cmul(c)
    }

    /// The multiply gate: draws a fresh output label and writes q*q table
    /// rows, one per pair of input colors.
    pub fn mul(&mut self, x: &Wire, y: &Wire) -> (r: Wire)
        requires
            x.wf(),
            y.wf(),
            x@.q == y@.q,
        ensures
            r.wf(),
            r@ == fresh_wire_of(old(self)@.rng.seed, old(self)@.rng.ctr, (x@.q) as u16),
            r@.q == x@.q,
            final(self)@.chan.written == old(self)@.chan.written + blocks_to_bytes(
                mul_rows(x@, y@, delta_of(old(self)@.rng.seed, (x@.q) as u16), r@, old(self)@.gate),
            ),
            final(self)@.chan.unread == old(self)@.chan.unread,
            final(self)@.rng.seed == old(self)@.rng.seed,
            final(self)@.rng.ctr as int == wrap64(old(self)@.rng.ctr + 1),
            final(self)@.gate as int == wrap64(old(self)@.gate + 1),
            final(self)@.out == old(self)@.out,
    {
        let q = x.modulus();
        let out0 = self.create_wire(q);
        let d = self.delta(q);
        let rows = mul_table(x, y, &d, &out0, self.gate_index);
        self.channel.write_bytes(rows.as_slice());
        self.gate_index = if self.gate_index == u64::MAX {
            0
        } else {
            self.gate_index + 1
        };
        out0
    }

    /// The projection gate: maps each input value v to tt[v] in the output
    /// modulus, writing q table rows, one per input color.
    pub fn proj(&mut self, x: &Wire, q_out: u16, tt: &Vec<u16>) -> (r: Wire)
        requires
            x.wf(),
            q_out >= 2,
            tt@.len() == x@.q,
            forall|i: int| 0 <= i < tt@.len() ==> (#[trigger] tt@[i]) < q_out,
        ensures
            r.wf(),
            r@ == fresh_wire_of(old(self)@.rng.seed, old(self)@.rng.ctr, q_out),
            r@.q == q_out as int,
            final(self)@.chan.written == old(self)@.chan.written + blocks_to_bytes(
                proj_rows(
                    x@,
                    delta_of(old(self)@.rng.seed, (x@.q) as u16),
                    delta_of(old(self)@.rng.seed, q_out),
                    r@,
                    tt@,
                    old(self)@.gate,
                ),
            ),
            final(self)@.chan.unread == old(self)@.chan.unread,
            final(self)@.rng.seed == old(self)@.rng.seed,
            final(self)@.rng.ctr as int == wrap64(old(self)@.rng.ctr + 1),
            final(self)@.gate as int == wrap64(old(self)@.gate + 1),
            final(self)@.out == old(self)@.out,
    {
        let q = x.modulus();
        let out0 = self.create_wire(q_out);
        let din = self.delta(q);
        let dout = self.delta(q_out);
        let rows = proj_table(x, &din, &dout, &out0, tt, self.gate_index);
        self.channel.write_bytes(rows.as_slice());
        self.gate_index = if self.gate_index == u64::MAX {
            0
        } else {
            self.gate_index + 1
        };
        out0
    }

    /// The output gate: writes the decoding table that lets the evaluator
    /// turn its label into a cleartext value. The garbler learns nothing.
    pub fn output(&mut self, x: &Wire)
        requires
            x.wf(),
        ensures
            final(self)@.chan.written == old(self)@.chan.written + blocks_to_bytes(
                output_rows(x@, delta_of(old(self)@.rng.seed, (x@.q) as u16), old(self)@.out),
            ),
            final(self)@.chan.unread == old(self)@.chan.unread,
            final(self)@.rng == old(self)@.rng,
            final(self)@.gate == old(self)@.gate,
            final(self)@.out as int == wrap64(old(self)@.out + 1),
    {
        let q = x.modulus();
        let d = self.delta(q);
        let rows = output_table(x, &d, self.out_index);
        self.channel.write_bytes(rows.as_slice());
        self.out_index = if self.out_index == u64::MAX {
            0
        } else {
            self.out_index + 1
        };
    }
}

/// The first row index whose entry equals h: how the evaluator decodes an
/// output label against a decoding table.
pub open spec fn decode_of(rows: Seq<u128>, h: u128) -> Option<u16>
    decreases rows.len(),
{
    if rows.len() == 0 {
        None
    } else if rows[0] == h {
        Some(0u16)
    } else {
        match decode_of(rows.drop_first(), h) {
            Some(k) => Some((k + 1) as u16),
            None => None,
        }
    }
}

/// decode_of finds the first match: if the first k rows miss and row k hits,
/// the answer is k.
pub proof fn lemma_decode_of_hit(rows: Seq<u128>, h: u128, k: int)
    requires
        0 <= k < rows.len(),
        rows.len() <= 0xffff,
        forall|j: int| 0 <= j < k ==> rows[j] != h,
        rows[k] == h,
    ensures
        decode_of(rows, h) == Some(k as u16),
    decreases rows.len(),
{
    if k == 0 {
    } else {
        assert(forall|j: int|
            0 <= j < k - 1 ==> (#[trigger] rows.drop_first()[j]) == rows[j + 1]);
        assert(rows.drop_first()[k - 1] == rows[k]);
        lemma_decode_of_hit(rows.drop_first(), h, k - 1);
    }
}

/// decode_of misses only when every row does.
pub proof fn lemma_decode_of_miss(rows: Seq<u128>, h: u128)
    requires
        forall|j: int| 0 <= j < rows.len() ==> rows[j] != h,
    ensures
        decode_of(rows, h) is None,
    decreases rows.len(),
{
    if rows.len() > 0 {
        assert(forall|j: int|
            0 <= j < rows.drop_first().len() ==> (#[trigger] rows.drop_first()[j]) == rows[j + 1]);
        lemma_decode_of_miss(rows.drop_first(), h);
    }
}

/// The evaluator's mathematical state.
pub ghost struct EvaluatorView {
    pub chan: ChannelView,
    pub gate: u64,
    pub out: u64,
}

/// The evaluating side of the engine, reading garbled data from a channel.
pub struct Evaluator {
    channel: Channel,
    gate_index: u64,
    out_index: u64,
}

impl View for Evaluator {
    type V = EvaluatorView;

    closed spec fn view(&self) -> EvaluatorView {
        EvaluatorView { chan: self.channel@, gate: self.gate_index, out: self.out_index }
    }
}

impl Evaluator {
    /// Make an evaluator over a channel holding garbled data.
    pub fn new(channel: Channel) -> (r: Evaluator)
        ensures
            r@.chan == channel@,
            r@.gate == 0,
            r@.out == 0,
    {
        Evaluator { channel, gate_index: 0, out_index: 0 }
    }

    /// Give back the channel.
    pub fn into_channel(self) -> (c: Channel)
        ensures
            c@ == self@.chan,
    {
        self.channel
    }

    /// Read one wire label sent as a block.
    pub fn read_wire(&mut self, q: u16) -> (r: Result<Wire, EvaluatorError>)
        requires
            q >= 2,
        ensures
            r is Ok <==> old(self)@.chan.unread.len() >= 16,
            r matches Ok(w) ==> w.wf() && w@.q == q as int && w@ == wire_from_block_of(
                from_le_of(old(self)@.chan.unread.take(16)) as u128,
                q as int,
            ) && final(self)@.chan.unread == old(self)@.chan.unread.skip(16) && final(self)@.chan.written == old(self)@.chan.written && final(self)@.gate == old(self)@.gate
                && final(self)@.out == old(self)@.out,
            r is Err ==> final(self)@ == old(self)@ && r == Err::<Wire, EvaluatorError>(
                EvaluatorError::TruncatedData,
            ),
    {
        match self.channel.read_block() {
            Ok(b) => {
                let w = Wire::from_block(b, q);
                proof {
                    lemma_wire_of_block_unique(w@, b);
                }
                Ok(w)
            },
            Err(_) => Err(EvaluatorError::TruncatedData),
        }
    }

    /// The free constant gate: the evaluator's label for a constant is the
    /// all-zero label.
    pub fn constant(&mut self, q: u16) -> (r: Wire)
        requires
            q >= 2,
        ensures
            r.wf(),
            r@.q == q as int,
            r@.ds == crate::wire::zero_digits(r@.ds.len()),
            r@ == wire_from_block_of(0, q as int),
            final(self)@ == old(self)@,
    {
        let w = Wire::zero(q);
        proof {
            crate::wire::lemma_zero_val(w@.ds, q as int);
            vstd::arithmetic::power::lemma_pow_positive(q as int, w@.ds.len());
            vstd::arithmetic::div_mod::lemma_small_mod(0, pow(q as int, w@.ds.len()) as nat);
            lemma_wire_of_block_unique(w@, 0);
        }
        w
    }

    /// The free add gate.
    pub fn add(&mut self, x: &Wire, y: &Wire) -> (r: Wire)
        requires
            x.wf(),
            y.wf(),
            x@.q == y@.q,
        ensures
            r.wf(),
            r@.q == x@.q,
            r@.ds == crate::wire::add_digits(x@.ds, y@.ds, x@.q),
            final(self)@ == old(self)@,
    {
        x.plus(y)
    }

    /// The free subtract gate.
    pub fn sub(&mut self, x: &Wire, y: &Wire) -> (r: Wire)
        requires
            x.wf(),
            y.wf(),
            x@.q == y@.q,
        ensures
            r.wf(),
            r@.q == x@.q,
            r@.ds == crate::wire::sub_digits(x@.ds, y@.ds, x@.q),
            final(self)@ == old(self)@,
    {
        x.minus(y)
    }

    /// The free scalar-multiply gate.
    pub fn cmul(&mut self, x: &Wire, c: u16) -> (r: Wire)
        requires
            x.wf(),
        ensures
            r.wf(),
            r@.q == x@.q,
            r@.ds == cmul_digits(x@.ds, c as int, x@.q),
            final(self)@ == old(self)@,
    {
        x.cmul(c)
    }

    /// The multiply gate: reads the q*q table rows, picks the row the two
    /// labels' colors index, and decrypts it with the labels' joint hash.
    pub fn mul(&mut self, x: &Wire, y: &Wire) -> (r: Result<Wire, EvaluatorError>)
        requires
            x.wf(),
            y.wf(),
            x@.q == y@.q,
        ensures
            r is Ok <==> old(self)@.chan.unread.len() >= 16 * (x@.q * x@.q),
            r matches Ok(w) ==> w.wf() && w@.q == x@.q && w@ == wire_from_block_of(
                bytes_to_blocks(old(self)@.chan.unread.take(16 * (x@.q * x@.q)))[color_of(x@) * x@.q
                    + color_of(y@)] ^ hash_block2_of(
                    block_of(x@),
                    block_of(y@),
                    tweak_gate(old(self)@.gate),
                ),
                x@.q,
            ) && final(self)@.chan.unread == old(self)@.chan.unread.skip(16 * (x@.q * x@.q))
                && final(self)@.chan.written == old(self)@.chan.written && final(self)@.gate as int
                == wrap64(old(self)@.gate + 1) && final(self)@.out == old(self)@.out,
            r is Err ==> final(self)@ == old(self)@ && r == Err::<Wire, EvaluatorError>(
                EvaluatorError::TruncatedData,
            ),
    {
        let q = x.modulus();
        proof {
            assert((q as int) * (q as int) <= 0xffff * 0xffff) by (nonlinear_arith)
                requires
                    q <= 0xffff,
            ;
        }
        let n: usize = (q as usize) * (q as usize);
        let rows = match self.channel.read_blocks(n) {
            Ok(rows) => rows,
            Err(_) => {
                return Err(EvaluatorError::TruncatedData);
            },
        };
        let cx = x.color();
        let cy = y.color();
        proof {
            assert((cx as int) * (q as int) + (cy as int) < (q as int) * (q as int))
                by (nonlinear_arith)
                requires
                    (cx as int) < (q as int),
                    (cy as int) < (q as int),
                    q >= 2,
            ;
        }
        let idx: usize = (cx as usize) * (q as usize) + (cy as usize);
        let ct = rows[idx];
        let b = ct ^ hash_block2(x.as_block(), y.as_block(), tweak2(self.gate_index, 0));
        let w = Wire::from_block(b, q);
        proof {
            lemma_wire_of_block_unique(w@, b);
            let stream = old(self)@.chan.unread.take(16 * (x@.q * x@.q));
            assert forall|k: int| 0 <= k < n as int implies #[trigger] bytes_to_blocks(stream)[k]
                == rows@[k] by {
                assert(stream.subrange(16 * k, 16 * k + 16) =~= old(self)@.chan.unread.subrange(
                    16 * k,
                    16 * k + 16,
                ));
            }
            assert(bytes_to_blocks(stream) =~= rows@);
        }
        self.gate_index = if self.gate_index == u64::MAX {
            0
        } else {
            self.gate_index + 1
        };
        Ok(w)
    }

    /// The projection gate: reads the q table rows, picks the row the
    /// label's color indexes, and decrypts it with the label's hash.
    pub fn proj(&mut self, x: &Wire, q_out: u16) -> (r: Result<Wire, EvaluatorError>)
        requires
            x.wf(),
            q_out >= 2,
        ensures
            r is Ok <==> old(self)@.chan.unread.len() >= 16 * x@.q,
            r matches Ok(w) ==> w.wf() && w@.q == q_out as int && w@ == wire_from_block_of(
                bytes_to_blocks(old(self)@.chan.unread.take(16 * x@.q))[color_of(x@) as int]
                    ^ hash_block_of(block_of(x@), tweak_gate(old(self)@.gate)),
                q_out as int,
            ) && final(self)@.chan.unread == old(self)@.chan.unread.skip(16 * x@.q) && final(self)@.chan.written == old(self)@.chan.written && final(self)@.gate as int == wrap64(
                old(self)@.gate + 1,
            ) && final(self)@.out == old(self)@.out,
            r is Err ==> final(self)@ == old(self)@ && r == Err::<Wire, EvaluatorError>(
                EvaluatorError::TruncatedData,
            ),
    {
        let q = x.modulus();
        let n: usize = q as usize;
        let rows = match self.channel.read_blocks(n) {
            Ok(rows) => rows,
            Err(_) => {
                return Err(EvaluatorError::TruncatedData);
            },
        };
        let cx = x.color();
        let ct = rows[cx as usize];
        let b = ct ^ hash_block(x.as_block(), tweak2(self.gate_index, 0));
        let w = Wire::from_block(b, q_out);
        proof {
            lemma_wire_of_block_unique(w@, b);
            let stream = old(self)@.chan.unread.take(16 * x@.q);
            assert forall|k: int| 0 <= k < n as int implies #[trigger] bytes_to_blocks(stream)[k]
                == rows@[k] by {
                assert(stream.subrange(16 * k, 16 * k + 16) =~= old(self)@.chan.unread.subrange(
                    16 * k,
                    16 * k + 16,
                ));
            }
            assert(bytes_to_blocks(stream) =~= rows@);
        }
        self.gate_index = if self.gate_index == u64::MAX {
            0
        } else {
            self.gate_index + 1
        };
        Ok(w)
    }

    /// The output gate: reads the decoding table and returns the first value
    /// whose row matches this label's hash, or None when the label matches
    /// no row. The check is best-effort in the semi-honest model, not a
    /// security guarantee.
    pub fn output(&mut self, x: &Wire) -> (r: Result<Option<u16>, EvaluatorError>)
        requires
            x.wf(),
        ensures
            r is Ok <==> old(self)@.chan.unread.len() >= 16 * x@.q,
            r matches Ok(o) ==> o == decode_of(
                bytes_to_blocks(old(self)@.chan.unread.take(16 * x@.q)),
                hash_block_of(block_of(x@), tweak_output(old(self)@.out)),
            ) && final(self)@.chan.unread == old(self)@.chan.unread.skip(16 * x@.q) && final(self)@.chan.written == old(self)@.chan.written && final(self)@.gate == old(self)@.gate
                && final(self)@.out as int == wrap64(old(self)@.out + 1),
            r is Err ==> final(self)@ == old(self)@ && r == Err::<Option<u16>, EvaluatorError>(
                EvaluatorError::TruncatedData,
            ),
    {
        let q = x.modulus();
        let n: usize = q as usize;
        let rows = match self.channel.read_blocks(n) {
            Ok(rows) => rows,
            Err(_) => {
                return Err(EvaluatorError::TruncatedData);
            },
        };
        let h = x.hash(tweak2(self.out_index, 1));
        proof {
            let stream = old(self)@.chan.unread.take(16 * x@.q);
            assert forall|k: int| 0 <= k < n as int implies #[trigger] bytes_to_blocks(stream)[k]
                == rows@[k] by {
                assert(stream.subrange(16 * k, 16 * k + 16) =~= old(self)@.chan.unread.subrange(
                    16 * k,
                    16 * k + 16,
                ));
            }
            assert(bytes_to_blocks(stream) =~= rows@);
        }
        let mut k: usize = 0;
        let mut found: Option<u16> = None;
        while k < n
            invariant
                k <= n,
                n == rows@.len(),
                n <= 0xffff,
                found is None ==> forall|j: int| 0 <= j < k ==> rows@[j] != h,
                found matches Some(v) ==> decode_of(rows@, h) == Some(v),
            decreases n - k,
        {
            if found.is_none() && rows[k] == h {
                proof {
                    lemma_decode_of_hit(rows@, h, k as int);
                }
                found = Some(k as u16);
            }
            k = k + 1;
        }
        proof {
            if found is None {
                lemma_decode_of_miss(rows@, h);
            }
        }
        self.out_index = if self.out_index == u64::MAX {
            0
        } else {
            self.out_index + 1
        };
        Ok(found)
    }
}


/// Parse a whole-block byte string into its blocks.
pub fn parse_blocks(bytes: &Vec<u8>) -> (r: Vec<u128>)
    requires
        bytes@.len() % 16 == 0,
    ensures
        r@ == bytes_to_blocks(bytes@),
{
    let blen = bytes.len();
    let n = blen / 16;
    let mut out: Vec<u128> = Vec::new();
    let mut k: usize = 0;
    proof {
        vstd::arithmetic::div_mod::lemma_fundamental_div_mod(bytes@.len() as int, 16);
    }
    while k < n
        invariant
            k <= n,
            n == bytes@.len() / 16,
            blen == bytes@.len(),
            16 * (n as int) == blen as int,
            out@.len() == k,
            forall|j: int|
                0 <= j < k ==> (#[trigger] out@[j]) as int == from_le_of(
                    bytes@.subrange(16 * j, 16 * j + 16),
                ),
        decreases n - k,
    {
        proof {
            assert(16 * (k as int) + 16 <= 16 * (n as int)) by (nonlinear_arith)
                requires
                    k < n,
            ;
            assert(16 * (k as int) + 16 <= blen as int);
        }
        let piece = vstd::slice::slice_subrange(bytes.as_slice(), 16 * k, 16 * k + 16);
        proof {
            crate::bytes::lemma_from_le_bound(piece@);
            crate::bytes::lemma_pow256_16_val();
        }
        let b = crate::bytes::from_le(piece);
        out.push(b);
        k = k + 1;
    }
    proof {
        assert(out@ =~= bytes_to_blocks(bytes@));
    }
    out
}

/// Decode an output label against a table: the first row its hash matches.
pub fn decode_rows(rows: &Vec<u128>, h: u128) -> (r: Option<u16>)
    requires
        rows@.len() <= 0xffff,
    ensures
        r == decode_of(rows@, h),
{
    let n = rows.len();
    let mut k: usize = 0;
    let mut found: Option<u16> = None;
    while k < n
        invariant
            k <= n,
            n == rows@.len(),
            n <= 0xffff,
            found is None ==> forall|j: int| 0 <= j < k ==> rows@[j] != h,
            found matches Some(v) ==> decode_of(rows@, h) == Some(v),
        decreases n - k,
    {
        if found.is_none() && rows[k] == h {
            proof {
                lemma_decode_of_hit(rows@, h, k as int);
            }
            found = Some(k as u16);
        }
        k = k + 1;
    }
    proof {
        if found is None {
            lemma_decode_of_miss(rows@, h);
        }
    }
    found
}


} // verus!
