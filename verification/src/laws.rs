//! The laws the garbling engine is used under.
//!
//! Each law is stated over the spec-level model the executable contracts
//! speak of, so that what a protocol relies on is written down once, in one
//! place, and proved.

use vstd::prelude::*;
use crate::wire::{
    WireView, wire_wf, add_digits, sub_digits, enc_digits, color_of, lemma_mod_len_unique,
};
use crate::algebra::{
    lemma_enc_add, lemma_enc_sub, lemma_enc_color, lemma_color_cancel,
};
use crate::garble::{
    enc_wire, output_row, output_rows, decode_of, block_of, tweak_output, lemma_decode_of_hit,
    mul_row, mul_rows, proj_row, proj_rows, tweak_gate,
};
use crate::crypto::hash_block_of;
use crate::classic::{gb_init, gb_inputs_run, gb_run, Circuit};

verus! {

/// Encodings of one modulus have equally many digits.
pub proof fn lemma_same_len(a: WireView, b: WireView)
    requires
        wire_wf(a),
        wire_wf(b),
        a.q == b.q,
    ensures
        a.ds.len() == b.ds.len(),
{
    lemma_mod_len_unique(a.q, a.ds.len(), b.ds.len());
}

/// The free add gate acts on encoded values: adding the labels that encode
/// vx and vy over zero-labels z1 and z2 yields exactly the label that
/// encodes (vx + vy) mod q over the summed zero-label. This is why an add
/// gate needs no garbled table.
pub proof fn lemma_add_gate_encodes(z1: WireView, z2: WireView, d: WireView, vx: int, vy: int)
    requires
        wire_wf(z1),
        wire_wf(z2),
        wire_wf(d),
        z1.q == z2.q,
        z1.q == d.q,
        0 <= vx,
        0 <= vy,
    ensures
        (WireView {
            q: z1.q,
            ds: add_digits(enc_wire(z1, d, vx).ds, enc_wire(z2, d, vy).ds, z1.q),
        }) == enc_wire(
            (WireView { q: z1.q, ds: add_digits(z1.ds, z2.ds, z1.q) }),
            d,
            (vx + vy) % z1.q,
        ),
{
    lemma_same_len(z1, z2);
    lemma_same_len(z1, d);
    lemma_enc_add(z1.ds, z2.ds, d.ds, vx, vy, z1.q);
    assert(add_digits(enc_digits(z1.ds, d.ds, vx, z1.q), enc_digits(z2.ds, d.ds, vy, z1.q), z1.q)
        == enc_digits(add_digits(z1.ds, z2.ds, z1.q), d.ds, (vx + vy) % z1.q, z1.q));
}

/// The label that encodes v decodes to v against the output table for its
/// wire, provided no earlier table row collides with row v. A collision of
/// the underlying hash cannot be ruled out in this model, only made
/// negligible by the hash; the hypothesis records that.
pub proof fn lemma_output_decodes(x: WireView, d: WireView, i: u64, v: int)
    requires
        wire_wf(x),
        wire_wf(d),
        x.q == d.q,
        0 <= v < x.q,
        forall|k: int| 0 <= k < v ==> output_row(x, d, i, k) != output_row(x, d, i, v),
    ensures
        decode_of(
            output_rows(x, d, i),
            hash_block_of(block_of(enc_wire(x, d, v)), tweak_output(i)),
        ) == Some(v as u16),
{
    let rows = output_rows(x, d, i);
    let h = hash_block_of(block_of(enc_wire(x, d, v)), tweak_output(i));
    assert(rows[v] == h);
    lemma_decode_of_hit(rows, h, v);
}

/// Three-party input reconstruction: when the evaluator splits its input x
/// into shares s1 and s2 = (s1 + x) mod q, handing each garbler one share,
/// subtracting the two share wires reconstructs the wire for x itself:
/// enc(w2, s2) - enc(w1, s1) == enc(w2 - w1, x).
pub proof fn lemma_share_reconstruction(
    w1: WireView,
    w2: WireView,
    d: WireView,
    s1: int,
    x: int,
)
    requires
        wire_wf(w1),
        wire_wf(w2),
        wire_wf(d),
        w1.q == w2.q,
        w1.q == d.q,
        0 <= s1 < w1.q,
        0 <= x < w1.q,
    ensures
        (WireView {
            q: w1.q,
            ds: sub_digits(
                enc_wire(w2, d, (s1 + x) % w1.q).ds,
                enc_wire(w1, d, s1).ds,
                w1.q,
            ),
        }) == enc_wire((WireView { q: w1.q, ds: sub_digits(w2.ds, w1.ds, w1.q) }), d, x),
{
    let q = w1.q;
    let s2 = (s1 + x) % q;
    lemma_same_len(w1, w2);
    lemma_same_len(w1, d);
    vstd::arithmetic::div_mod::lemma_mod_bound(s1 + x, q);
    lemma_enc_sub(w1.ds, w2.ds, d.ds, s1, s2, q);
    lemma_color_cancel(s1, x, q);
}

/// The reveal check pins the claimed value: when the offset has color 1, a
/// label equal to enc(x, d, v) for some v in [0, q) carries the color that
/// names v, so the garbler's color arithmetic recovers exactly that v, and
/// a label outside the progression can never pass the equality check.
pub proof fn lemma_reveal_value_determined(x: WireView, d: WireView, lab: WireView, v: int)
    requires
        wire_wf(x),
        wire_wf(d),
        x.q == d.q,
        color_of(d) == 1,
        0 <= v < x.q,
        lab == enc_wire(x, d, v),
    ensures
        v == (color_of(lab) + x.q - color_of(x)) % x.q,
{
    lemma_same_len(x, d);
    crate::wire::lemma_wf_len_pos(x);
    lemma_enc_color(x.ds, d.ds, v, x.q);
    lemma_color_cancel(color_of(x) as int, v, x.q);
}


/// The whole of the add-gate story: evaluating an add gate on the labels
/// for vx and vy and decoding the result against its output table yields
/// (vx + vy) mod q, barring a hash collision among the earlier table rows.
pub proof fn lemma_add_gate_decodes(
    z1: WireView,
    z2: WireView,
    d: WireView,
    vx: int,
    vy: int,
    i: u64,
)
    requires
        wire_wf(z1),
        wire_wf(z2),
        wire_wf(d),
        z1.q == z2.q,
        z1.q == d.q,
        0 <= vx < z1.q,
        0 <= vy < z1.q,
        forall|k: int|
            0 <= k < (vx + vy) % z1.q ==> #[trigger] output_row(
                (WireView { q: z1.q, ds: add_digits(z1.ds, z2.ds, z1.q) }),
                d,
                i,
                k,
            ) != output_row(
                (WireView { q: z1.q, ds: add_digits(z1.ds, z2.ds, z1.q) }),
                d,
                i,
                (vx + vy) % z1.q,
            ),
    ensures
        decode_of(
            output_rows((WireView { q: z1.q, ds: add_digits(z1.ds, z2.ds, z1.q) }), d, i),
            hash_block_of(
                block_of(
                    (WireView {
                        q: z1.q,
                        ds: add_digits(enc_wire(z1, d, vx).ds, enc_wire(z2, d, vy).ds, z1.q),
                    }),
                ),
                tweak_output(i),
            ),
        ) == Some((((vx + vy) % z1.q) as u16)),
{
    let zsum = WireView { q: z1.q, ds: add_digits(z1.ds, z2.ds, z1.q) };
    let s = (vx + vy) % z1.q;
    vstd::arithmetic::div_mod::lemma_mod_bound(vx + vy, z1.q);
    lemma_add_gate_encodes(z1, z2, d, vx, vy);
    assert(wire_wf(zsum)) by {
        lemma_same_len(z1, z2);
        assert(crate::wire::wf_digits(add_digits(z1.ds, z2.ds, z1.q), z1.q)) by {
            assert(forall|t: int|
                0 <= t < add_digits(z1.ds, z2.ds, z1.q).len() ==> (#[trigger] add_digits(
                    z1.ds,
                    z2.ds,
                    z1.q,
                )[t]) < z1.q);
        }
    }
    lemma_output_decodes(zsum, d, i, s);
}


/// The row a pair of encoded labels' colors index in a multiply table
/// decrypts, under those labels' joint hash, to the label that encodes the
/// product of the two values on the new output wire.
pub proof fn lemma_mul_row_decrypts(
    x: WireView,
    y: WireView,
    d: WireView,
    out0: WireView,
    g: u64,
    vx: int,
    vy: int,
)
    requires
        wire_wf(x),
        wire_wf(y),
        wire_wf(d),
        x.q == y.q,
        x.q == d.q,
        out0.q == x.q,
        color_of(d) == 1,
        0 <= vx < x.q,
        0 <= vy < x.q,
    ensures
        mul_rows(x, y, d, out0, g)[color_of(enc_wire(x, d, vx)) * x.q + color_of(
            enc_wire(y, d, vy),
        )] ^ crate::crypto::hash_block2_of(
            block_of(enc_wire(x, d, vx)),
            block_of(enc_wire(y, d, vy)),
            tweak_gate(g),
        ) == block_of(enc_wire(out0, d, (vx * vy) % x.q)),
{
    let q = x.q;
    lemma_same_len(x, d);
    lemma_same_len(y, d);
    crate::wire::lemma_wf_len_pos(x);
    crate::wire::lemma_wf_len_pos(y);
    lemma_enc_color(x.ds, d.ds, vx, q);
    lemma_enc_color(y.ds, d.ds, vy, q);
    let cx = color_of(enc_wire(x, d, vx)) as int;
    let cy = color_of(enc_wire(y, d, vy)) as int;
    vstd::arithmetic::div_mod::lemma_mod_bound(color_of(x) + vx, q);
    vstd::arithmetic::div_mod::lemma_mod_bound(color_of(y) + vy, q);
    let r = cx * q + cy;
    assert(0 <= r < q * q) by (nonlinear_arith)
        requires
            r == cx * q + cy,
            0 <= cx < q,
            0 <= cy < q,
            q >= 2,
    ;
    assert(r / q == cx && r % q == cy) by {
        vstd::arithmetic::div_mod::lemma_fundamental_div_mod_converse(r, q, cx, cy);
    }
    lemma_color_cancel(color_of(x) as int, vx, q);
    lemma_color_cancel(color_of(y) as int, vy, q);
    assert(mul_row(x, y, d, out0, g, r) == block_of(enc_wire(out0, d, (vx * vy) % q))
        ^ crate::crypto::hash_block2_of(
        block_of(enc_wire(x, d, vx)),
        block_of(enc_wire(y, d, vy)),
        tweak_gate(g),
    ));
    let a = block_of(enc_wire(out0, d, (vx * vy) % q));
    let h = crate::crypto::hash_block2_of(
        block_of(enc_wire(x, d, vx)),
        block_of(enc_wire(y, d, vy)),
        tweak_gate(g),
    );
    assert((a ^ h) ^ h == a) by (bit_vector);
}

/// The row an encoded label's color indexes in a projection table decrypts,
/// under that label's hash, to the label that encodes tt[vx] in the output
/// modulus.
pub proof fn lemma_proj_row_decrypts(
    x: WireView,
    din: WireView,
    dout: WireView,
    out0: WireView,
    tt: Seq<u16>,
    g: u64,
    vx: int,
)
    requires
        wire_wf(x),
        wire_wf(din),
        wire_wf(dout),
        x.q == din.q,
        out0.q == dout.q,
        color_of(din) == 1,
        tt.len() == x.q,
        0 <= vx < x.q,
    ensures
        proj_rows(x, din, dout, out0, tt, g)[color_of(enc_wire(x, din, vx)) as int]
            ^ crate::crypto::hash_block_of(block_of(enc_wire(x, din, vx)), tweak_gate(g))
            == block_of(enc_wire(out0, dout, tt[vx] as int)),
{
    let q = x.q;
    lemma_same_len(x, din);
    crate::wire::lemma_wf_len_pos(x);
    lemma_enc_color(x.ds, din.ds, vx, q);
    vstd::arithmetic::div_mod::lemma_mod_bound(color_of(x) + vx, q);
    let c = color_of(enc_wire(x, din, vx)) as int;
    lemma_color_cancel(color_of(x) as int, vx, q);
    assert(proj_row(x, din, dout, out0, tt, g, c) == block_of(enc_wire(out0, dout, tt[vx] as int))
        ^ crate::crypto::hash_block_of(block_of(enc_wire(x, din, vx)), tweak_gate(g)));
    let a = block_of(enc_wire(out0, dout, tt[vx] as int));
    let h = crate::crypto::hash_block_of(block_of(enc_wire(x, din, vx)), tweak_gate(g));
    assert((a ^ h) ^ h == a) by (bit_vector);
}

/// Garbling is deterministic: the garbled stream is a function of the
/// circuit and the seed alone, so re-running a session with the same seed
/// reproduces it byte for byte. The executable `garble` is pinned to this
/// function by its postcondition.
pub proof fn lemma_garble_deterministic(c: Circuit, seed: u128, d1: Seq<u8>, d2: Seq<u8>)
    requires
        d1 == gb_run(
            seed,
            gb_inputs_run(
                seed,
                gb_inputs_run(seed, gb_init(), c.garbler_input_mods@),
                c.evaluator_input_mods@,
            ),
            c.gates@,
        ).stream,
        d2 == gb_run(
            seed,
            gb_inputs_run(
                seed,
                gb_inputs_run(seed, gb_init(), c.garbler_input_mods@),
                c.evaluator_input_mods@,
            ),
            c.gates@,
        ).stream,
    ensures
        d1 == d2,
{
}

} // verus!
