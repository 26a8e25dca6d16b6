//! Tests of static garbling: the garbled evaluation must agree with the
//! plaintext reference evaluator, deterministically in the seed.

use fancy_garbling::classic::{garble, Circuit, Gate};
use fancy_garbling::dummy::eval_plain;
use fancy_garbling::errors::EvaluatorError;
use fancy_garbling::wire::Wire;

fn adder_mod3() -> Circuit {
    Circuit {
        garbler_input_mods: vec![3],
        evaluator_input_mods: vec![3],
        gates: vec![Gate::Add(0, 1), Gate::Output(2)],
    }
}

/// A circuit mixing every gate kind over modulus 5: squares via a
/// projection, a product, a scaled difference and a constant.
fn mixed_mod5() -> Circuit {
    Circuit {
        garbler_input_mods: vec![5, 5],
        evaluator_input_mods: vec![5],
        gates: vec![
            Gate::Proj(0, 5, vec![0, 1, 4, 4, 1]),
            Gate::Mul(1, 2),
            Gate::Sub(3, 4),
            Gate::Cmul(5, 3),
            Gate::Const(2, 5),
            Gate::Add(6, 7),
            Gate::Output(8),
            Gate::Output(3),
        ],
    }
}

#[test]
fn addition_matches_reference() {
    let c = adder_mod3();
    for a in 0..3u16 {
        for b in 0..3u16 {
            let (en, gc) = garble(&c, 7).unwrap();
            let gx = en.encode_garbler_inputs(&vec![a]);
            let ex = en.encode_evaluator_inputs(&vec![b]);
            let out = gc.eval(&c, &gx, &ex).unwrap();
            assert_eq!(out, vec![(a + b) % 3]);
            let reference = eval_plain(&c, &vec![a], &vec![b]).unwrap();
            assert_eq!(out, reference);
        }
    }
}

#[test]
fn mixed_gates_match_reference() {
    let c = mixed_mod5();
    for a in 0..5u16 {
        for b in [0u16, 2, 4] {
            for e in [1u16, 3] {
                let (en, gc) = garble(&c, 99).unwrap();
                let gx = en.encode_garbler_inputs(&vec![a, b]);
                let ex = en.encode_evaluator_inputs(&vec![e]);
                let out = gc.eval(&c, &gx, &ex).unwrap();
                let reference = eval_plain(&c, &vec![a, b], &vec![e]).unwrap();
                assert_eq!(out, reference);
            }
        }
    }
}

#[test]
fn garbling_is_deterministic() {
    // Same circuit, same seed: the encoders and tables are interchangeable.
    let c = mixed_mod5();
    let (en1, gc1) = garble(&c, 1234).unwrap();
    let (en2, gc2) = garble(&c, 1234).unwrap();
    assert_eq!(gc1.size(), gc2.size());
    let gx = en1.encode_garbler_inputs(&vec![3, 2]);
    let ex = en1.encode_evaluator_inputs(&vec![4]);
    // Labels encoded by the first run decode against the second run's data.
    let out = gc2.eval(&c, &gx, &ex).unwrap();
    let gx2 = en2.encode_garbler_inputs(&vec![3, 2]);
    let ex2 = en2.encode_evaluator_inputs(&vec![4]);
    let out2 = gc1.eval(&c, &gx2, &ex2).unwrap();
    assert_eq!(out, out2);
    // A different seed garbles differently: the first run's labels must not
    // decode against it.
    let (_en3, gc3) = garble(&c, 5678).unwrap();
    assert!(gc3.eval(&c, &gx, &ex).is_err());
}

#[test]
fn tampered_label_never_decodes_silently() {
    // A label not produced by the garbling fails output decoding instead of
    // returning a fabricated cleartext.
    let c = adder_mod3();
    let (en, gc) = garble(&c, 42).unwrap();
    let gx = en.encode_garbler_inputs(&vec![1]);
    let forged = vec![Wire::from_block(0x4242_4242_4242_4242, 3)];
    let r = gc.eval(&c, &gx, &forged);
    assert_eq!(r, Err(EvaluatorError::DecodeFailed));
}

#[test]
fn ill_formed_circuits_are_rejected() {
    let bad_index = Circuit {
        garbler_input_mods: vec![3],
        evaluator_input_mods: vec![],
        gates: vec![Gate::Add(0, 5), Gate::Output(1)],
    };
    assert!(!bad_index.wf_check());
    assert!(garble(&bad_index, 0).is_err());

    let bad_moduli = Circuit {
        garbler_input_mods: vec![3, 5],
        evaluator_input_mods: vec![],
        gates: vec![Gate::Add(0, 1), Gate::Output(2)],
    };
    assert!(garble(&bad_moduli, 0).is_err());

    let c = adder_mod3();
    let (en, gc) = garble(&c, 1).unwrap();
    // Wrong input counts are rejected before evaluation.
    let gx = en.encode_garbler_inputs(&vec![1]);
    let r = gc.eval(&c, &gx, &vec![]);
    assert_eq!(r, Err(EvaluatorError::WrongInputCount));
}

#[test]
fn truncated_data_is_detected() {
    let c = mixed_mod5();
    let (en, _gc) = garble(&c, 5).unwrap();
    let gx = en.encode_garbler_inputs(&vec![1, 2]);
    let ex = en.encode_evaluator_inputs(&vec![3]);
    // An empty garbled stream runs out at the first non-free gate.
    let short = fancy_garbling::classic::GarbledCircuit::new(Vec::new());
    let r = short.eval(&c, &gx, &ex);
    assert_eq!(r, Err(EvaluatorError::TruncatedData));
}

#[test]
fn eval_rejects_ill_formed_circuit() {
    let c = adder_mod3();
    let (en, gc) = garble(&c, 3).unwrap();
    let gx = en.encode_garbler_inputs(&vec![1]);
    let ex = en.encode_evaluator_inputs(&vec![2]);
    let bad = Circuit {
        garbler_input_mods: vec![3],
        evaluator_input_mods: vec![3],
        gates: vec![Gate::Add(0, 9), Gate::Output(2)],
    };
    assert_eq!(gc.eval(&bad, &gx, &ex), Err(EvaluatorError::InvalidCircuit));
}
