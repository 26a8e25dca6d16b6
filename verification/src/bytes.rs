//! Little-endian byte encodings of the integers the wire protocol carries.
//!
//! Every multi-byte integer that crosses a channel is laid out as a fixed
//! number of little-endian bytes; `le_of` is the specification of that layout
//! and `from_le_of` its inverse.

use vstd::prelude::*;

verus! {

/// 256^n: how many values fit in n bytes.
pub open spec fn pow256(n: nat) -> int
    decreases n,
{
    if n == 0 {
        1
    } else {
        256 * pow256((n - 1) as nat)
    }
}

/// The n little-endian bytes of v (v taken modulo 256^n).
pub open spec fn le_of(v: int, n: nat) -> Seq<u8>
    decreases n,
{
    if n == 0 {
        Seq::empty()
    } else {
        seq![(v % 256) as u8] + le_of(v / 256, (n - 1) as nat)
    }
}

/// The integer a little-endian byte sequence denotes.
pub open spec fn from_le_of(s: Seq<u8>) -> int
    decreases s.len(),
{
    if s.len() == 0 {
        0
    } else {
        s[0] + 256 * from_le_of(s.drop_first())
    }
}

pub proof fn lemma_le_len(v: int, n: nat)
    ensures
        le_of(v, n).len() == n,
    decreases n,
{
    if n > 0 {
        lemma_le_len(v / 256, (n - 1) as nat);
    }
}

pub proof fn lemma_pow256_pos(n: nat)
    ensures
        pow256(n) >= 1,
    decreases n,
{
    if n > 0 {
        lemma_pow256_pos((n - 1) as nat);
    }
}

pub proof fn lemma_from_le_bound(s: Seq<u8>)
    ensures
        0 <= from_le_of(s) < pow256(s.len()),
    decreases s.len(),
{
    if s.len() > 0 {
        lemma_from_le_bound(s.drop_first());
    }
}

/// Decoding inverts encoding: the bytes of v denote v modulo 256^n.
pub proof fn lemma_from_le_of_le(v: int, n: nat)
    requires
        v >= 0,
    ensures
        from_le_of(le_of(v, n)) == v % pow256(n),
    decreases n,
{
    if n == 0 {
    } else {
        lemma_from_le_of_le(v / 256, (n - 1) as nat);
        lemma_pow256_pos((n - 1) as nat);
        assert(le_of(v, n).drop_first() =~= le_of(v / 256, (n - 1) as nat));
        vstd::arithmetic::div_mod::lemma_breakdown(v, 256, pow256((n - 1) as nat));
    }
}

/// Encoding inverts decoding: a sequence of n bytes is the encoding of the
/// integer it denotes.
pub proof fn lemma_le_of_from_le(s: Seq<u8>)
    ensures
        le_of(from_le_of(s), s.len()) =~= s,
    decreases s.len(),
{
    if s.len() > 0 {
        lemma_le_of_from_le(s.drop_first());
        lemma_from_le_bound(s.drop_first());
        let v = from_le_of(s);
        assert(v == s[0] + 256 * from_le_of(s.drop_first()));
        assert(v % 256 == s[0] && v / 256 == from_le_of(s.drop_first())) by {
            vstd::arithmetic::div_mod::lemma_fundamental_div_mod_converse(
                v,
                256,
                from_le_of(s.drop_first()),
                s[0] as int,
            );
        }
        assert(le_of(v, s.len()).drop_first() =~= le_of(v / 256, (s.len() - 1) as nat));
    }
}

/// The n little-endian bytes of v, lowest byte first.
pub fn to_le(v: u128, n: usize) -> (r: Vec<u8>)
    ensures
        r@ == le_of(v as int, n as nat),
        r@.len() == n,
{
    let mut r: Vec<u8> = Vec::new();
    let mut x: u128 = v;
    let mut i: usize = 0;
    proof {
        lemma_le_len(v as int, n as nat);
    }
    while i < n
        invariant
            i <= n,
            r@.len() == i,
            r@ + le_of(x as int, (n - i) as nat) == le_of(v as int, n as nat),
        decreases n - i,
    {
        proof {
            assert(le_of(x as int, (n - i) as nat) =~= seq![(x as int % 256) as u8] + le_of(
                x as int / 256,
                (n - i - 1) as nat,
            ));
        }
        r.push((x % 256) as u8);
        x = x / 256;
        i = i + 1;
        proof {
            assert(r@ + le_of(x as int, (n - i) as nat) =~= le_of(v as int, n as nat));
        }
    }
    proof {
        assert(r@ =~= le_of(v as int, n as nat));
    }
    r
}

/// The integer denoted by up to 16 little-endian bytes.
pub fn from_le(b: &[u8]) -> (r: u128)
    requires
        b@.len() <= 16,
    ensures
        r as int == from_le_of(b@),
{
    let n = b.len();
    let mut acc: u128 = 0;
    let mut i: usize = n;
    while i > 0
        invariant
            i <= n,
            n == b@.len() <= 16,
            acc as int == from_le_of(b@.skip(i as int)),
        decreases i,
    {
        i = i - 1;
        proof {
            lemma_from_le_bound(b@.skip(i as int + 1));
            lemma_pow256_le_16((b@.len() - i - 1) as nat);
            lemma_pow256_16_val();
            assert(b@.skip(i as int).drop_first() =~= b@.skip(i as int + 1));
        }
        acc = acc * 256 + (b[i] as u128);
    }
    proof {
        assert(b@.skip(0) =~= b@);
    }
    acc
}

pub proof fn lemma_pow256_16_val()
    ensures
        pow256(16) == 256 * pow256(15),
        pow256(16) == 0x100000000000000000000000000000000int,
{
    reveal_with_fuel(pow256, 17);
}

/// The byte-count powers the channel helpers use.
pub proof fn lemma_pow256_vals()
    ensures
        pow256(1) == 0x100,
        pow256(2) == 0x10000,
        pow256(4) == 0x100000000,
        pow256(8) == 0x10000000000000000,
        pow256(16) == 0x100000000000000000000000000000000,
{
    assert(pow256(0) == 1);
    assert(pow256(1) == 256 * pow256(0));
    assert(pow256(2) == 256 * pow256(1));
    assert(pow256(3) == 256 * pow256(2));
    assert(pow256(4) == 256 * pow256(3));
    assert(pow256(5) == 256 * pow256(4));
    assert(pow256(6) == 256 * pow256(5));
    assert(pow256(7) == 256 * pow256(6));
    assert(pow256(8) == 256 * pow256(7));
    assert(pow256(9) == 256 * pow256(8));
    assert(pow256(10) == 256 * pow256(9));
    assert(pow256(11) == 256 * pow256(10));
    assert(pow256(12) == 256 * pow256(11));
    assert(pow256(13) == 256 * pow256(12));
    assert(pow256(14) == 256 * pow256(13));
    assert(pow256(15) == 256 * pow256(14));
    assert(pow256(16) == 256 * pow256(15));
}

proof fn lemma_pow256_le_16(n: nat)
    requires
        n <= 15,
    ensures
        pow256(n) <= pow256(15),
    decreases 15 - n,
{
    if n < 15 {
        lemma_pow256_le_16(n + 1);
        lemma_pow256_pos(n);
    }
}

} // verus!
