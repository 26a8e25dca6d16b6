//! Tests of the two-party input arithmetic: bit decomposition and the
//! recombination of bit labels fetched through oblivious transfer.

use fancy_garbling::channel::Channel;
use fancy_garbling::garble::Garbler;
use fancy_garbling::rng::CounterRng;
use fancy_garbling::twopac::{bit_decompose, combine, mod_bit_len, PartyId};

use fancy_garbling::universal_digest::UniversalDigest;

#[test]
fn bit_lengths() {
    assert_eq!(mod_bit_len(2), 1);
    assert_eq!(mod_bit_len(3), 2);
    assert_eq!(mod_bit_len(4), 2);
    assert_eq!(mod_bit_len(5), 3);
    assert_eq!(mod_bit_len(256), 8);
    assert_eq!(mod_bit_len(65535), 16);
}

#[test]
fn decompose_gives_binary_digits() {
    let bits = bit_decompose(6, 3);
    assert_eq!(bits, vec![false, true, true]);
    let bits = bit_decompose(1, 2);
    assert_eq!(bits, vec![true, false]);
    assert_eq!(bit_decompose(0, 4), vec![false; 4]);
}

#[test]
fn combine_recovers_the_encoded_input() {
    // Simulate the transfers: for input x, the evaluator would receive, for
    // each bit k, the label of bit_k on a fresh wire of the full modulus.
    // Combining them with weights 2^k must give the label of x itself on
    // the combined wire.
    let q: u16 = 5;
    let len = mod_bit_len(q);
    for x in 0..q {
        let mut gb = Garbler::new(Channel::new(Vec::new(), Vec::new()), CounterRng::from_seed(4));
        let d = gb.delta(q);
        let bits = bit_decompose(x, len);
        let mut received: Vec<u128> = Vec::new();
        let mut combined_zero = fancy_garbling::wire::Wire::zero(q);
        let mut weight: u16 = 1;
        for k in 0..len {
            let (zero, _) = gb.encode_wire(0, q);
            let chosen = if bits[k] { zero.plus(&d) } else { zero.duplicate() };
            received.push(chosen.as_block());
            combined_zero = combined_zero.plus(&zero.cmul(weight));
            if k + 1 < len {
                weight = weight * 2;
            }
        }
        let got = combine(&received, q);
        let expect = combined_zero.plus(&d.cmul(x));
        assert!(got.wire_eq(&expect));
    }
    // Both party roles exist for callers that drive the protocol.
    assert_ne!(PartyId::Garbler, PartyId::Evaluator);
}

#[test]
fn universal_digest_is_keyed_and_resettable() {
    let key_a: Vec<u8> = vec![7; 32];
    let key_b: Vec<u8> = vec![8; 32];
    let mut da = UniversalDigest::new(&key_a);
    da.input(&[1, 2, 3]);
    let ta = da.fixed_result();
    // Same key, same stream: same tag.
    let mut da2 = UniversalDigest::new(&key_a);
    da2.input(&[1, 2]);
    da2.input(&[3]);
    assert_eq!(ta, da2.fixed_result());
    // Another key tags the same stream differently, and the tag is not the
    // stream handed back.
    let mut db = UniversalDigest::new(&key_b);
    db.input(&[1, 2, 3]);
    assert_ne!(ta, db.fixed_result());
    assert_ne!(&ta[..3], &[1, 2, 3]);
    // Reset forgets the stream.
    da.reset();
    da.input(&[1, 2, 3]);
    assert_eq!(ta, da.fixed_result());
}
