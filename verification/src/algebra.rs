//! Laws of the wire-label algebra.
//!
//! Labels for one wire form the arithmetic progression `zero + v * delta`
//! (digit-wise modulo q). These lemmas say how the progression behaves under
//! the label operations: linear gates act on encoded values, colors advance
//! by the encoded value when the offset has color 1, and a label determines
//! the value it encodes.

use vstd::prelude::*;
use vstd::arithmetic::div_mod::{
    lemma_add_mod_noop, lemma_add_mod_noop_right, lemma_mod_bound, lemma_mul_mod_noop_right,
    lemma_small_mod, lemma_mod_self_0, lemma_mod_add_multiples_vanish,
};
use crate::wire::{add_digits, sub_digits, negate_digits, cmul_digits, zero_digits, enc_digits,
    wf_digits};

verus! {

/// Residues added as residues or as integers agree modulo q.
proof fn lemma_mod_add2(z1: int, z2: int, a: int, b: int, q: int)
    requires
        q >= 1,
    ensures
        ((z1 + a % q) % q + (z2 + b % q) % q) % q == (z1 + z2 + a + b) % q,
{
    lemma_add_mod_noop(z1 + a % q, z2 + b % q, q);
    lemma_add_mod_noop_right(z1 + z2 + a % q, b, q);
    lemma_add_mod_noop_right(z1 + z2 + b, a, q);
}

/// A scalar multiple of a residue agrees with the multiple of the integer.
proof fn lemma_mod_mul_fold(x: int, d: int, v: int, q: int)
    requires
        q >= 1,
    ensures
        (x + (d * (v % q)) % q) % q == (x + d * v) % q,
{
    lemma_mul_mod_noop_right(d, v, q);
    lemma_add_mod_noop_right(x, d * (v % q), q);
    lemma_add_mod_noop_right(x, d * v, q);
}

/// Adding labels adds the values they encode: the sum of the encodings of v1
/// and v2 is the encoding of (v1 + v2) mod q on the summed zero-labels.
pub proof fn lemma_enc_add(z1: Seq<u16>, z2: Seq<u16>, d: Seq<u16>, v1: int, v2: int, q: int)
    requires
        2 <= q <= 0xffff,
        z1.len() == z2.len() == d.len(),
        0 <= v1,
        0 <= v2,
    ensures
        add_digits(enc_digits(z1, d, v1, q), enc_digits(z2, d, v2, q), q) =~= enc_digits(
            add_digits(z1, z2, q),
            d,
            (v1 + v2) % q,
            q,
        ),
{
    let lhs = add_digits(enc_digits(z1, d, v1, q), enc_digits(z2, d, v2, q), q);
    let rhs = enc_digits(add_digits(z1, z2, q), d, (v1 + v2) % q, q);
    assert forall|i: int| 0 <= i < z1.len() implies lhs[i] == rhs[i] by {
        let a = z1[i] as int;
        let b = z2[i] as int;
        let dd = d[i] as int;
        lemma_mod_bound(dd * v1, q);
        lemma_mod_bound(dd * v2, q);
        lemma_mod_bound(a + dd * v1 % q, q);
        lemma_mod_bound(b + dd * v2 % q, q);
        lemma_mod_bound(v1 + v2, q);
        lemma_mod_bound(a + b, q);
        lemma_mod_bound(dd * ((v1 + v2) % q), q);
        lemma_mod_add2(a, b, dd * v1, dd * v2, q);
        lemma_add_mod_noop(a + b, dd * ((v1 + v2) % q), q);
        lemma_mod_mul_fold(a + b, dd, v1 + v2, q);
        assert(dd * (v1 + v2) == dd * v1 + dd * v2) by (nonlinear_arith);
        assert(((a + b) % q + (dd * ((v1 + v2) % q)) % q) % q == (a + b + dd * ((v1 + v2) % q))
            % q);
        assert((a + b + (dd * ((v1 + v2) % q)) % q) % q == (a + b + dd * (v1 + v2)) % q) by {
            lemma_mul_mod_noop_right(dd, v1 + v2, q);
            lemma_add_mod_noop_right(a + b, dd * (v1 + v2), q);
        }
        lemma_add_mod_noop_right(a + b, dd * ((v1 + v2) % q), q);
    }
}

/// Subtracting labels subtracts the values they encode.
pub proof fn lemma_enc_sub(z1: Seq<u16>, z2: Seq<u16>, d: Seq<u16>, v1: int, v2: int, q: int)
    requires
        2 <= q <= 0xffff,
        z1.len() == z2.len() == d.len(),
        0 <= v1 < q,
        0 <= v2 < q,
    ensures
        sub_digits(enc_digits(z2, d, v2, q), enc_digits(z1, d, v1, q), q) =~= enc_digits(
            sub_digits(z2, z1, q),
            d,
            (v2 + q - v1) % q,
            q,
        ),
{
    let lhs = sub_digits(enc_digits(z2, d, v2, q), enc_digits(z1, d, v1, q), q);
    let rhs = enc_digits(sub_digits(z2, z1, q), d, (v2 + q - v1) % q, q);
    assert forall|i: int| 0 <= i < z1.len() implies lhs[i] == rhs[i] by {
        let a = z2[i] as int;
        let b = z1[i] as int;
        let dd = d[i] as int;
        let w = (v2 + q - v1) % q;
        assert(dd * v1 >= 0 && dd * v2 >= 0 && dd * w >= 0) by (nonlinear_arith)
            requires
                dd >= 0,
                v1 >= 0,
                v2 >= 0,
                w >= 0,
        ;
        lemma_mod_bound(dd * v1, q);
        lemma_mod_bound(dd * v2, q);
        lemma_mod_bound(v2 + q - v1, q);
        lemma_mod_bound(dd * w, q);
        let x = a + dd * v2 % q;
        let y = b + dd * v1 % q;
        lemma_mod_bound(x, q);
        lemma_mod_bound(y, q);
        lemma_mod_bound(a + q - b, q);
        // Left side, outer residues first, then the inner ones:
        // ((x%q) + q - (y%q)) % q == (x + q - y) % q
        lemma_add_mod_noop_right(q - y % q, x, q);
        lemma_sub_mod_noop_right_local(x + q, y, q);
        // == (a + q - b + dd*v2 - dd*v1) % q
        lemma_add_mod_noop_right(a + q - b - dd * v1 % q, dd * v2, q);
        lemma_sub_mod_noop_right_local(a + q - b + dd * v2, dd * v1, q);
        let m = (a + q - b + dd * v2 - dd * v1) % q;
        assert(lhs[i] == m as u16);
        // Right side: strip the zero-label residue and the scalar residue.
        lemma_add_mod_noop_right((dd * w) % q, a + q - b, q);
        lemma_add_mod_noop_right(a + q - b, dd * w, q);
        lemma_mul_mod_noop_right(dd, v2 + q - v1, q);
        lemma_add_mod_noop_right(a + q - b, dd * (v2 + q - v1), q);
        assert(dd * (v2 + q - v1) == dd * v2 + q * dd - dd * v1) by (nonlinear_arith);
        vstd::arithmetic::div_mod::lemma_mod_multiples_vanish(
            dd,
            a + q - b + dd * v2 - dd * v1,
            q,
        );
        assert(rhs[i] == m as u16);
    }
}

/// (x - y % q) % q == (x - y) % q.
proof fn lemma_sub_mod_noop_right_local(x: int, y: int, q: int)
    requires
        q >= 1,
    ensures
        (x - y % q) % q == (x - y) % q,
{
    vstd::arithmetic::div_mod::lemma_sub_mod_noop_right(x, y, q);
}

/// A scalar multiple of a label multiplies the value it encodes.
pub proof fn lemma_enc_cmul(z: Seq<u16>, d: Seq<u16>, v: int, c: int, q: int)
    requires
        2 <= q <= 0xffff,
        z.len() == d.len(),
        0 <= v,
        0 <= c,
    ensures
        cmul_digits(enc_digits(z, d, v, q), c, q) =~= enc_digits(
            cmul_digits(z, c, q),
            d,
            (v * c) % q,
            q,
        ),
{
    let lhs = cmul_digits(enc_digits(z, d, v, q), c, q);
    let rhs = enc_digits(cmul_digits(z, c, q), d, (v * c) % q, q);
    assert forall|i: int| 0 <= i < z.len() implies lhs[i] == rhs[i] by {
        let a = z[i] as int;
        let dd = d[i] as int;
        lemma_mod_bound(dd * v, q);
        lemma_mod_bound(a + dd * v % q, q);
        lemma_mod_bound(a * c, q);
        lemma_mod_bound(v * c, q);
        lemma_mod_bound(dd * ((v * c) % q), q);
        // Left: ((a + (d v)%q)%q * c)%q == ((a + d v) * c)%q == (a c + d v c)%q
        assert((((a + dd * v % q) % q) * c) % q == ((a + dd * v % q) * c) % q) by {
            vstd::arithmetic::div_mod::lemma_mul_mod_noop_left(a + dd * v % q, c, q);
        }
        assert((a + dd * v % q) * c == a * c + (dd * v % q) * c) by (nonlinear_arith);
        assert((a * c + (dd * v % q) * c) % q == (a * c + (dd * v) * c) % q) by {
            vstd::arithmetic::div_mod::lemma_mul_mod_noop_left(dd * v, c, q);
            lemma_add_mod_noop_right(a * c, (dd * v % q) * c, q);
            lemma_add_mod_noop_right(a * c, (dd * v) * c, q);
        }
        // Right: ((a c)%q + (d ((v c)%q))%q)%q == (a c + d v c)%q
        assert(((a * c) % q + (dd * ((v * c) % q)) % q) % q == (a * c + dd * (v * c)) % q) by {
            lemma_add_mod_noop(a * c, dd * ((v * c) % q), q);
            lemma_mul_mod_noop_right(dd, v * c, q);
            lemma_add_mod_noop_right(a * c, dd * ((v * c) % q), q);
            lemma_add_mod_noop_right(a * c, dd * (v * c), q);
        }
        assert((dd * v) * c == dd * (v * c)) by (nonlinear_arith);
    }
}

/// A label plus its negation is the all-zero label.
pub proof fn lemma_add_negate(a: Seq<u16>, q: int)
    requires
        2 <= q <= 0xffff,
        wf_digits(a, q),
    ensures
        add_digits(negate_digits(a, q), a, q) =~= zero_digits(a.len()),
{
    assert forall|i: int|
        0 <= i < a.len() implies add_digits(negate_digits(a, q), a, q)[i]
        == zero_digits(a.len())[i] by {
        let x = a[i] as int;
        if x == 0 {
            lemma_mod_self_0(q);
            lemma_small_mod(0, q as nat);
        } else {
            lemma_small_mod((q - x) as nat, q as nat);
            lemma_mod_self_0(q);
        }
    }
}

/// Adding the all-zero label changes nothing.
pub proof fn lemma_add_zero(a: Seq<u16>, q: int)
    requires
        2 <= q <= 0xffff,
        wf_digits(a, q),
    ensures
        add_digits(a, zero_digits(a.len()), q) =~= a,
{
    assert forall|i: int| 0 <= i < a.len() implies add_digits(a, zero_digits(a.len()), q)[i]
        == a[i] by {
        lemma_small_mod(a[i] as nat, q as nat);
    }
}

/// Scaling a label by zero gives the all-zero label.
pub proof fn lemma_cmul_zero(d: Seq<u16>, q: int)
    requires
        2 <= q <= 0xffff,
    ensures
        cmul_digits(d, 0, q) =~= zero_digits(d.len()),
{
    assert forall|i: int| 0 <= i < d.len() implies cmul_digits(d, 0, q)[i] == zero_digits(
        d.len(),
    )[i] by {
        lemma_small_mod(0, q as nat);
    }
}

/// Encoding value 0 leaves the zero-label unchanged.
pub proof fn lemma_enc_zero(z: Seq<u16>, d: Seq<u16>, q: int)
    requires
        2 <= q <= 0xffff,
        z.len() == d.len(),
        wf_digits(z, q),
    ensures
        enc_digits(z, d, 0, q) =~= z,
{
    lemma_cmul_zero(d, q);
    assert(add_digits(z, cmul_digits(d, 0, q), q) =~= add_digits(z, zero_digits(z.len()), q));
    lemma_add_zero(z, q);
}

/// With an offset of color 1, the color of an encoding advances by the value:
/// color(z + v * d) == (color(z) + v) mod q.
pub proof fn lemma_enc_color(z: Seq<u16>, d: Seq<u16>, v: int, q: int)
    requires
        2 <= q <= 0xffff,
        z.len() == d.len(),
        z.len() >= 1,
        d[0] == 1,
        0 <= v,
    ensures
        enc_digits(z, d, v, q)[0] == ((z[0] + v) % q) as u16,
{
    lemma_mod_bound(v, q);
    assert(1 * v == v) by (nonlinear_arith);
    lemma_add_mod_noop_right(z[0] as int, v, q);
}

/// Cancellation: recovering v from a color advanced by v.
pub proof fn lemma_color_cancel(c0: int, v: int, q: int)
    requires
        0 <= c0 < q,
        0 <= v < q,
    ensures
        ((c0 + v) % q + q - c0) % q == v,
{
    lemma_mod_bound(c0 + v, q);
    lemma_add_mod_noop((c0 + v), (q - c0), q);
    if c0 == 0 {
        lemma_mod_self_0(q);
    } else {
        lemma_small_mod((q - c0) as nat, q as nat);
    }
    lemma_mod_add_multiples_vanish(v, q);
    lemma_small_mod(v as nat, q as nat);
}

/// Two encodings under one zero-label and color-1 offset have equal colors
/// only for equal values; a received label pins down the value it claims.
pub proof fn lemma_enc_value_unique(z: Seq<u16>, d: Seq<u16>, v1: int, v2: int, q: int)
    requires
        2 <= q <= 0xffff,
        z.len() == d.len(),
        z.len() >= 1,
        wf_digits(z, q),
        d[0] == 1,
        0 <= v1 < q,
        0 <= v2 < q,
        enc_digits(z, d, v1, q) == enc_digits(z, d, v2, q),
    ensures
        v1 == v2,
{
    lemma_enc_color(z, d, v1, q);
    lemma_enc_color(z, d, v2, q);
    lemma_color_cancel(z[0] as int, v1, q);
    lemma_color_cancel(z[0] as int, v2, q);
}

} // verus!
