//! Two-party semi-honest computation helpers.
//!
//! In the two-party protocol the garbler's inputs travel as encoded labels,
//! while the evaluator's inputs are fetched bit by bit through oblivious
//! transfer: one 1-out-of-2 transfer per input bit. The transfer itself is
//! an outside primitive run by the caller; what stands here is the
//! arithmetic around it: decomposing an input into the choice bits and
//! recombining the received bit labels, weighted by powers of two, into the
//! label of the full-modulus wire.

use vstd::prelude::*;
use vstd::arithmetic::power::pow;
use crate::garble::{wire_from_block_of, lemma_wire_of_block_unique};
use crate::wire::{Wire, WireView, add_digits, cmul_digits};

verus! {

/// A participant: the garbler or the evaluator.
#[derive(Debug, Clone, Copy, PartialEq, Eq, Structural)]
pub enum PartyId {
    Garbler,
    Evaluator,
}

/// The label the combined bit labels denote: each block, unpacked in the
/// full modulus, scaled by its bit's power of two, all summed.
pub open spec fn combine_of(ws: Seq<u128>, q: u16) -> WireView
    decreases ws.len(),
{
    if ws.len() == 0 {
        wire_from_block_of(0, q as int)
    } else {
        WireView {
            q: q as int,
            ds: add_digits(
                combine_of(ws.drop_last(), q).ds,
                cmul_digits(
                    wire_from_block_of(ws.last(), q as int).ds,
                    pow(2, (ws.len() - 1) as nat),
                    q as int,
                ),
                q as int,
            ),
        }
    }
}

/// Combine the bit labels received through oblivious transfer into one
/// full-modulus label: block k counts with weight 2^k.
pub fn combine(wires: &Vec<u128>, q: u16) -> (r: Wire)
    requires
        q >= 2,
        wires@.len() <= 16,
    ensures
        r.wf(),
        r@ == combine_of(wires@, q),
        r@.q == q as int,
    {
        let mut acc = Wire::zero(q);
        proof {
            crate::wire::lemma_zero_val(acc@.ds, q as int);
            vstd::arithmetic::power::lemma_pow_positive(q as int, acc@.ds.len());
            vstd::arithmetic::div_mod::lemma_small_mod(
                0,
                pow(q as int, acc@.ds.len()) as nat,
            );
            lemma_wire_of_block_unique(acc@, 0);
            assert(wires@.take(0) =~= Seq::<u128>::empty());
        }
        let n = wires.len();
        let mut i: usize = 0;
        let mut p: u16 = 1;
        proof {
            vstd::arithmetic::power::lemma_pow0(2);
        }
        while i < n
            invariant
                i <= n,
                n == wires@.len() <= 16,
                q >= 2,
                acc.wf(),
                acc@ == combine_of(wires@.take(i as int), q),
                acc@.q == q as int,
                i == n || p as int == pow(2, i as nat),
            decreases n - i,
        {
            let w = Wire::from_block(wires[i], q);
            proof {
                lemma_wire_of_block_unique(w@, wires@[i as int]);
                assert(wires@.take(i + 1).drop_last() =~= wires@.take(i as int));
                assert(wires@.take(i + 1).last() == wires@[i as int]);
            }
            acc = acc.plus(&w.cmul(p));
            i = i + 1;
            if i < n {
                proof {
                    assert(pow(2, i as nat) == 2 * pow(2, (i - 1) as nat)) by {
                        vstd::arithmetic::power::lemma_pow_adds(2, 1, (i - 1) as nat);
                        vstd::arithmetic::power::lemma_pow1(2);
                    }
                    assert(pow(2, i as nat) <= pow(2, 15)) by {
                        vstd::arithmetic::power::lemma_pow_increases(2, i as nat, 15);
                    }
                    assert(pow(2, 15) == 0x8000) by {
                        vstd::arithmetic::power2::lemma2_to64();
                        vstd::arithmetic::power2::lemma_pow2(15);
                    }
                }
                p = p * 2;
            }
        }
        proof {
            assert(wires@.take(n as int) =~= wires@);
        }
        acc
    }

/// Whether bit k of x is set.
pub open spec fn bit_at(x: int, k: nat) -> bool {
    (x / pow(2, k)) % 2 == 1
}

/// The least number of bits that cover a modulus: inputs modulo q travel as
/// this many oblivious-transfer choices.
pub fn mod_bit_len(q: u16) -> (n: usize)
    requires
        q >= 2,
    ensures
        pow(2, n as nat) >= q,
        pow(2, (n - 1) as nat) < q,
        1 <= n <= 16,
{
    let mut n: usize = 0;
    let mut acc: u32 = 1;
    proof {
        vstd::arithmetic::power::lemma_pow0(2);
    }
    while acc < q as u32
        invariant
            q >= 2,
            acc as int == pow(2, n as nat),
            n <= 16,
            n == 0 || pow(2, (n - 1) as nat) < q,
        decreases 16 - n,
    {
        proof {
            assert(pow(2, (n + 1) as nat) == 2 * pow(2, n as nat)) by {
                vstd::arithmetic::power::lemma_pow_adds(2, 1, n as nat);
                vstd::arithmetic::power::lemma_pow1(2);
            }
            if n >= 16 {
                assert(pow(2, 16) <= pow(2, n as nat)) by {
                    vstd::arithmetic::power::lemma_pow_increases(2, 16, n as nat);
                }
                assert(pow(2, 16) == 0x10000) by {
                    vstd::arithmetic::power2::lemma2_to64();
                    vstd::arithmetic::power2::lemma_pow2(16);
                }
            }
        }
        acc = acc * 2;
        n = n + 1;
    }
    proof {
        if n == 0 {
            assert(pow(2, 0) == 1);
        }
    }
    n
}

/// Decompose a value into its low bits, least significant first: the choice
/// bits of the oblivious transfers that fetch an input.
pub fn bit_decompose(x: u16, len: usize) -> (r: Vec<bool>)
    ensures
        r@.len() == len,
        forall|k: int| 0 <= k < len ==> (#[trigger] r@[k]) == bit_at(x as int, k as nat),
{
    let mut r: Vec<bool> = Vec::new();
    let mut v: u16 = x;
    let mut k: usize = 0;
    proof {
        vstd::arithmetic::power::lemma_pow0(2);
    }
    while k < len
        invariant
            k <= len,
            r@.len() == k,
            v as int == (x as int) / pow(2, k as nat),
            forall|j: int| 0 <= j < k ==> (#[trigger] r@[j]) == bit_at(x as int, j as nat),
        decreases len - k,
    {
        proof {
            assert(pow(2, (k + 1) as nat) == pow(2, k as nat) * 2) by {
                vstd::arithmetic::power::lemma_pow_adds(2, k as nat, 1);
                vstd::arithmetic::power::lemma_pow1(2);
            }
            vstd::arithmetic::power::lemma_pow_positive(2, k as nat);
            vstd::arithmetic::div_mod::lemma_div_denominator(
                x as int,
                pow(2, k as nat),
                2,
            );
        }
        r.push(v % 2 == 1);
        v = v / 2;
        k = k + 1;
    }
    r
}

} // verus!
