//! End-to-end tests of the three-party protocol over in-memory channels,
//! with the test shuttling bytes between the parties at each phase.

use fancy_garbling::channel::Channel;
use fancy_garbling::rng::CounterRng;
use fancy_garbling::threepac::evaluator::{Error as EvError, Evaluator};
use fancy_garbling::threepac::garbler::{Error as GbError, Garbler};
use fancy_garbling::threepac::PartyId;

/// Run the three-party addition circuit (a + b + c) mod 3, with a at
/// garbler 1, b at garbler 2 and c at the evaluator; returns the three
/// parties' revealed outputs.
fn run_addition(a: u16, b: u16, c: u16, alternate_every: usize) -> (u16, u16, u16) {
    let q: u16 = 3;
    // Garbler 1 draws the session seed and sends it to garbler 2.
    let mut cg1 = Channel::new(Vec::new(), Vec::new());
    let mut g1 = Garbler::new(
        PartyId::Garbler1,
        &mut cg1,
        Channel::new(Vec::new(), Vec::new()),
        CounterRng::from_seed(1111),
        alternate_every,
    )
    .unwrap();
    let seed_bytes = cg1.take_written();
    let mut cg2 = Channel::new(seed_bytes, Vec::new());
    let mut g2 = Garbler::new(
        PartyId::Garbler2,
        &mut cg2,
        Channel::new(Vec::new(), Vec::new()),
        CounterRng::from_seed(2222),
        alternate_every,
    )
    .unwrap();

    // The garblers' own inputs.
    let wa1 = g1.encode_many(&vec![a], &vec![q]);
    let wb1 = g1.receive_many(PartyId::Garbler2, &vec![q]).unwrap();
    let wa2 = g2.receive_many(PartyId::Garbler1, &vec![q]).unwrap();
    let wb2 = g2.encode_many(&vec![b], &vec![q]);

    // The evaluator joins, consuming the digest keys first.
    let mut ev = Evaluator::new(
        Channel::new(g1.take_written(), Vec::new()),
        Channel::new(g2.take_written(), Vec::new()),
        CounterRng::from_seed(3333),
        alternate_every,
    )
    .unwrap();
    let wa3 = ev.receive_many(PartyId::Garbler1, &vec![q]).unwrap();
    let wb3 = ev.receive_many(PartyId::Garbler2, &vec![q]).unwrap();

    // The evaluator's input travels as additive shares.
    ev.send_shares(&vec![c], &vec![q]);
    let to_g1 = ev.take_written_p1();
    let to_g2 = ev.take_written_p2();
    g1.feed(&to_g1);
    g2.feed(&to_g2);
    let wc1 = g1.receive_many(PartyId::Evaluator, &vec![q]).unwrap();
    let wc2 = g2.receive_many(PartyId::Evaluator, &vec![q]).unwrap();
    ev.feed_p1(&g1.take_written());
    ev.feed_p2(&g2.take_written());
    let s1 = ev.receive_many(PartyId::Garbler1, &vec![q]).unwrap();
    let s2 = ev.receive_many(PartyId::Garbler2, &vec![q]).unwrap();
    let wc3 = ev.combine_shares(&s1, &s2);

    // The circuit itself: two free additions.
    let t1 = g1.add(&wa1[0], &wb1[0]);
    let u1 = g1.add(&t1, &wc1[0]);
    let t2 = g2.add(&wa2[0], &wb2[0]);
    let u2 = g2.add(&t2, &wc2[0]);
    let t3 = ev.add(&wa3[0], &wb3[0]);
    let u3 = ev.add(&t3, &wc3[0]);

    // Reveal to everyone.
    let xs1 = vec![u1];
    let xs2 = vec![u2];
    let xs3 = vec![u3];
    g1.reveal_send(&xs1);
    g2.reveal_send(&xs2);
    ev.feed_p1(&g1.take_written());
    ev.feed_p2(&g2.take_written());
    let out_ev = ev.reveal_many(&xs3).unwrap();
    g1.feed(&ev.take_written_p1());
    g2.feed(&ev.take_written_p2());
    let out_g1 = g1.reveal_finish(&xs1).unwrap();
    let out_g2 = g2.reveal_finish(&xs2).unwrap();
    (out_g1[0], out_g2[0], out_ev[0])
}

#[test]
fn addition_circuit_all_inputs() {
    for a in 0..3u16 {
        for b in 0..3u16 {
            for c in 0..3u16 {
                let (o1, o2, o3) = run_addition(a, b, c, 4096);
                assert_eq!(o3, (a + b + c) % 3);
                assert_eq!(o1, o3);
                assert_eq!(o2, o3);
            }
        }
    }
}

#[test]
fn addition_circuit_ones() {
    // The named scenario: 1 + 1 + 1 = 0 (mod 3) at every party.
    let (o1, o2, o3) = run_addition(1, 1, 1, 4096);
    assert_eq!(o1, 0);
    assert_eq!(o2, 0);
    assert_eq!(o3, 0);
}

#[test]
fn addition_circuit_small_alternation() {
    // A chunk size small enough that the garblers actually trade roles
    // mid-protocol.
    for c in 0..3u16 {
        let (o1, o2, o3) = run_addition(2, 2, c, 8);
        assert_eq!(o3, (4 + c) % 3);
        assert_eq!(o1, o3);
        assert_eq!(o2, o3);
    }
}

/// Set up garbler 1 with its input encoded, returning the bytes it wrote
/// toward the evaluator and the matching garbler 2 bytes.
fn garblers_after_encode(a: u16) -> (Vec<u8>, Vec<u8>) {
    let q: u16 = 3;
    let mut cg1 = Channel::new(Vec::new(), Vec::new());
    let mut g1 = Garbler::new(
        PartyId::Garbler1,
        &mut cg1,
        Channel::new(Vec::new(), Vec::new()),
        CounterRng::from_seed(1111),
        4096,
    )
    .unwrap();
    let seed_bytes = cg1.take_written();
    let mut cg2 = Channel::new(seed_bytes, Vec::new());
    let mut g2 = Garbler::new(
        PartyId::Garbler2,
        &mut cg2,
        Channel::new(Vec::new(), Vec::new()),
        CounterRng::from_seed(2222),
        4096,
    )
    .unwrap();
    let _w1 = g1.encode_many(&vec![a], &vec![q]);
    let _w2 = g2.receive_many(PartyId::Garbler1, &vec![q]).unwrap();
    (g1.take_written(), g2.take_written())
}

#[test]
fn tampered_label_is_caught_as_invalid_commitment() {
    // A garbler sends a wire label inconsistent with the (agreed)
    // commitments: the evaluator must refuse it before anything is
    // revealed.
    let (mut p1_bytes, p2_bytes) = garblers_after_encode(1);
    // Bytes 0..32 carry the digest key; the claimed label block follows.
    p1_bytes[35] ^= 0x40;
    let mut ev = Evaluator::new(
        Channel::new(p1_bytes, Vec::new()),
        Channel::new(p2_bytes, Vec::new()),
        CounterRng::from_seed(3333),
        4096,
    )
    .unwrap();
    let r = ev.receive_many(PartyId::Garbler1, &vec![3]);
    assert!(matches!(r, Err(EvError::InvalidCommitment)));
}

#[test]
fn disagreeing_garblers_are_caught_at_the_checkpoint() {
    // A garbler alters a commitment it transmits; the other garbler's
    // digest covers the true bytes, so the checkpoint fails.
    let (mut p1_bytes, p2_bytes) = garblers_after_encode(1);
    // Past the 32-byte key and the 16-byte label lie the commitment rows.
    p1_bytes[50] ^= 0x01;
    let mut ev = Evaluator::new(
        Channel::new(p1_bytes, Vec::new()),
        Channel::new(p2_bytes, Vec::new()),
        CounterRng::from_seed(3333),
        4096,
    )
    .unwrap();
    let r = ev.receive_many(PartyId::Garbler1, &vec![3]);
    assert!(matches!(r, Err(EvError::GarblerMismatch)));
}

#[test]
fn tampered_reveal_label_is_invalid_result() {
    // A malicious evaluator sends a label the garbling never produced: the
    // garbler must answer InvalidResult, never a fabricated cleartext.
    let q: u16 = 3;
    let mut cg1 = Channel::new(Vec::new(), Vec::new());
    let mut g1 = Garbler::new(
        PartyId::Garbler1,
        &mut cg1,
        Channel::new(Vec::new(), Vec::new()),
        CounterRng::from_seed(7777),
        4096,
    )
    .unwrap();
    let w = g1.encode_many(&vec![2], &vec![q]);
    let xs = vec![g1.add(&w[0], &w[0])];
    g1.reveal_send(&xs);
    let _ = g1.take_written();
    // Hand the garbler a corrupted label block.
    let forged: Vec<u8> = vec![0x5a; 16];
    g1.feed(&forged);
    let r = g1.reveal_finish(&xs);
    assert!(matches!(r, Err(GbError::InvalidResult)));
}

#[test]
fn missing_bytes_are_io_errors() {
    // Garbler 2 cannot start without the seed from garbler 1.
    let mut empty = Channel::new(Vec::new(), Vec::new());
    let r = Garbler::new(
        PartyId::Garbler2,
        &mut empty,
        Channel::new(Vec::new(), Vec::new()),
        CounterRng::from_seed(1),
        4096,
    );
    assert!(matches!(r, Err(GbError::IoError(_))));

    // The evaluator cannot start without the digest keys.
    let r = Evaluator::new(
        Channel::new(Vec::new(), Vec::new()),
        Channel::new(Vec::new(), Vec::new()),
        CounterRng::from_seed(2),
        4096,
    );
    assert!(matches!(r, Err(EvError::IoError(_))));

    // A garbler finishing a reveal before the evaluator answered.
    let mut cg1 = Channel::new(Vec::new(), Vec::new());
    let mut g1 = Garbler::new(
        PartyId::Garbler1,
        &mut cg1,
        Channel::new(Vec::new(), Vec::new()),
        CounterRng::from_seed(3),
        4096,
    )
    .unwrap();
    let w = g1.encode_many(&vec![0], &vec![3]);
    let xs = vec![g1.add(&w[0], &w[0])];
    g1.reveal_send(&xs);
    assert!(matches!(g1.reveal_finish(&xs), Err(GbError::IoError(_))));
}
