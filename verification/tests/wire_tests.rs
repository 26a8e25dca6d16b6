//! Tests of the wire-label algebra and the encoding round trip.

use fancy_garbling::channel::Channel;
use fancy_garbling::garble::Garbler;
use fancy_garbling::rng::CounterRng;
use fancy_garbling::wire::Wire;

fn fresh_garbler(seed: u128) -> Garbler {
    Garbler::new(Channel::new(Vec::new(), Vec::new()), CounterRng::from_seed(seed))
}

#[test]
fn encode_wire_round_trip() {
    // theirs == mine + x * delta(q), for every x in the modulus.
    let q: u16 = 5;
    for x in 0..q {
        let mut gb = fresh_garbler(11);
        let (mine, theirs) = gb.encode_wire(x, q);
        let d = gb.delta(q);
        let expect = mine.plus(&d.cmul(x));
        assert!(theirs.wire_eq(&expect));
    }
}

#[test]
fn add_gate_encodes_sum() {
    // Adding labels for x and y yields the label of (x + y) mod q.
    let q: u16 = 5;
    for x in 0..q {
        for y in 0..q {
            let mut gb = fresh_garbler(23);
            let (zx, _) = gb.encode_wire(0, q);
            let (zy, _) = gb.encode_wire(0, q);
            let d = gb.delta(q);
            let lx = zx.plus(&d.cmul(x));
            let ly = zy.plus(&d.cmul(y));
            let sum_label = lx.plus(&ly);
            let expect = zx.plus(&zy).plus(&d.cmul((x + y) % q));
            assert!(sum_label.wire_eq(&expect));
        }
    }
}

#[test]
fn block_round_trip() {
    for q in [2u16, 3, 5, 256, 65535] {
        let w = Wire::from_block(0x1234_5678_9abc_def0_1122_3344, q);
        let back = Wire::from_block(w.as_block(), q);
        assert!(w.wire_eq(&back));
        assert!(w.wf_check());
        assert!(w.color() < q);
    }
}

#[test]
fn negate_cancels() {
    let q: u16 = 7;
    let w = Wire::from_block(987654321, q);
    let z = w.plus(&w.negate());
    assert!(z.wire_eq(&Wire::zero(q)));
    // And subtraction agrees with adding the negation.
    let v = Wire::from_block(123456789, q);
    assert!(w.minus(&v).wire_eq(&w.plus(&v.negate())));
}

#[test]
fn cmul_is_repeated_addition() {
    let q: u16 = 11;
    let w = Wire::from_block(0xdeadbeef, q);
    let mut acc = Wire::zero(q);
    for _ in 0..4 {
        acc = acc.plus(&w);
    }
    assert!(acc.wire_eq(&w.cmul(4)));
}

#[test]
fn delta_is_shared_and_colored() {
    // Garblers seeded alike derive the same offset, with color 1.
    let g1 = fresh_garbler(99);
    let g2 = fresh_garbler(99);
    let d1 = g1.delta(3);
    let d2 = g2.delta(3);
    assert!(d1.wire_eq(&d2));
    assert_eq!(d1.color(), 1);
    // A different seed gives a different offset.
    let g3 = fresh_garbler(100);
    assert!(!g3.delta(3).wire_eq(&d1));
}

#[test]
fn hash_depends_on_label_and_tweak() {
    // The wire hash must not hand its input back: it differs from the
    // label's own block and changes with the tweak.
    let q: u16 = 3;
    let w = Wire::from_block(42, q);
    let h0 = w.hash(0);
    let h1 = w.hash(1);
    assert_ne!(h0, h1);
    assert_ne!(h0, w.as_block());
}
