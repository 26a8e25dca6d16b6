//! A plaintext reference evaluator: runs a circuit on cleartext values.
//!
//! It exists as the oracle the garbled evaluation is compared against: both
//! walk the same gate list, one over labels, one over values.

use vstd::prelude::*;
use crate::classic::{Circuit, Gate, circuit_wf, gate_ok, mods_after, input_mods, lemma_mods_ge2};
use crate::errors::EvaluatorError;

verus! {

/// The reference evaluator's trace: the cleartext value and modulus of each
/// wire so far, and the outputs revealed so far.
pub ghost struct PlainTrace {
    pub vals: Seq<u16>,
    pub mods: Seq<u16>,
    pub outs: Seq<u16>,
}

/// The effect of one gate on cleartext values.
pub open spec fn plain_step(t: PlainTrace, g: Gate) -> PlainTrace {
    match g {
        Gate::Add(a, b) => PlainTrace {
            vals: t.vals.push(
                (((t.vals[a as int] + t.vals[b as int]) as int % t.mods[a as int] as int) as u16),
            ),
            mods: t.mods.push(t.mods[a as int]),
            outs: t.outs,
        },
        Gate::Sub(a, b) => PlainTrace {
            vals: t.vals.push(
                (((t.vals[a as int] + t.mods[a as int] - t.vals[b as int]) as int % t.mods[
                    a as int
                ] as int) as u16),
            ),
            mods: t.mods.push(t.mods[a as int]),
            outs: t.outs,
        },
        Gate::Cmul(a, cc) => PlainTrace {
            vals: t.vals.push(
                (((t.vals[a as int] * cc) as int % t.mods[a as int] as int) as u16),
            ),
            mods: t.mods.push(t.mods[a as int]),
            outs: t.outs,
        },
        Gate::Mul(a, b) => PlainTrace {
            vals: t.vals.push(
                (((t.vals[a as int] * t.vals[b as int]) as int % t.mods[a as int] as int) as u16),
            ),
            mods: t.mods.push(t.mods[a as int]),
            outs: t.outs,
        },
        Gate::Proj(a, q_out, tt) => PlainTrace {
            vals: t.vals.push(tt@[t.vals[a as int] as int]),
            mods: t.mods.push(q_out),
            outs: t.outs,
        },
        Gate::Const(x, q) => PlainTrace {
            vals: t.vals.push(x),
            mods: t.mods.push(q),
            outs: t.outs,
        },
        Gate::Output(w) => PlainTrace {
            vals: t.vals,
            mods: t.mods,
            outs: t.outs.push(t.vals[w as int]),
        },
    }
}

/// The trace after a whole gate list.
pub open spec fn plain_run(t: PlainTrace, gates: Seq<Gate>) -> PlainTrace
    decreases gates.len(),
{
    if gates.len() == 0 {
        t
    } else {
        plain_run(plain_step(t, gates[0]), gates.drop_first())
    }
}

/// Running one more gate steps the trace once.
pub proof fn lemma_plain_run_snoc(t: PlainTrace, gates: Seq<Gate>, i: int)
    requires
        0 <= i < gates.len(),
    ensures
        plain_run(t, gates.take(i + 1)) == plain_step(plain_run(t, gates.take(i)), gates[i]),
    decreases i,
{
    if i == 0 {
        assert(gates.take(1) =~= seq![gates[0]]);
        assert(seq![gates[0]].drop_first() =~= Seq::<Gate>::empty());
        assert(gates.take(0) =~= Seq::<Gate>::empty());
        assert(plain_run(plain_step(t, gates[0]), Seq::<Gate>::empty()) == plain_step(
            t,
            gates[0],
        ));
    } else {
        assert(gates.take(i + 1)[0] == gates[0]);
        assert(gates.take(i)[0] == gates[0]);
        assert(gates.take(i + 1).drop_first() =~= gates.drop_first().take(i));
        assert(gates.take(i).drop_first() =~= gates.drop_first().take(i - 1));
        lemma_plain_run_snoc(plain_step(t, gates[0]), gates.drop_first(), i - 1);
        assert(gates.drop_first()[i - 1] == gates[i]);
    }
}

/// Cleartext inputs fit a circuit: right counts, each value in its modulus.
pub open spec fn plain_inputs_ok(c: Circuit, gxs: Seq<u16>, exs: Seq<u16>) -> bool {
    &&& gxs.len() == c.garbler_input_mods@.len()
    &&& exs.len() == c.evaluator_input_mods@.len()
    &&& forall|i: int| 0 <= i < gxs.len() ==> (#[trigger] gxs[i]) < c.garbler_input_mods@[i]
    &&& forall|i: int| 0 <= i < exs.len() ==> (#[trigger] exs[i]) < c.evaluator_input_mods@[i]
}

/// Evaluate a circuit on cleartext inputs: the reference the garbled
/// evaluation must match.
pub fn eval_plain(c: &Circuit, garbler_inputs: &Vec<u16>, evaluator_inputs: &Vec<u16>) -> (r:
    Result<Vec<u16>, EvaluatorError>)
    ensures
        !circuit_wf(*c) ==> r == Err::<Vec<u16>, EvaluatorError>(EvaluatorError::InvalidCircuit),
        circuit_wf(*c) && !plain_inputs_ok(*c, garbler_inputs@, evaluator_inputs@) ==> r == Err::<
            Vec<u16>,
            EvaluatorError,
        >(EvaluatorError::WrongInputCount),
        circuit_wf(*c) && plain_inputs_ok(*c, garbler_inputs@, evaluator_inputs@) ==> (r matches Ok(v)
            && v@ == plain_run(
            (PlainTrace {
                vals: garbler_inputs@ + evaluator_inputs@,
                mods: input_mods(*c),
                outs: Seq::empty(),
            }),
            c.gates@,
        ).outs),
{
    if !c.wf_check() {
        return Err(EvaluatorError::InvalidCircuit);
    }
    let ng = c.garbler_input_mods.len();
    let ne = c.evaluator_input_mods.len();
    if garbler_inputs.len() != ng || evaluator_inputs.len() != ne {
        return Err(EvaluatorError::WrongInputCount);
    }
    let mut vals: Vec<u16> = Vec::new();
    let mut mods: Vec<u16> = Vec::new();
    let mut i: usize = 0;
    while i < ng
        invariant
            i <= ng,
            circuit_wf(*c),
            ng == c.garbler_input_mods@.len(),
            ng == garbler_inputs@.len(),
            vals@ == garbler_inputs@.take(i as int),
            mods@ == c.garbler_input_mods@.take(i as int),
            forall|j: int| 0 <= j < i ==> (#[trigger] garbler_inputs@[j]) < c.garbler_input_mods@[j],
        decreases ng - i,
    {
        if garbler_inputs[i] >= c.garbler_input_mods[i] {
            return Err(EvaluatorError::WrongInputCount);
        }
        vals.push(garbler_inputs[i]);
        mods.push(c.garbler_input_mods[i]);
        i = i + 1;
        proof {
            assert(garbler_inputs@.take(i - 1).push(garbler_inputs@[i - 1]) =~= garbler_inputs@.take(i as int));
            assert(c.garbler_input_mods@.take(i - 1).push(c.garbler_input_mods@[i - 1])
                =~= c.garbler_input_mods@.take(i as int));
        }
    }
    let mut j: usize = 0;
    proof {
        assert(garbler_inputs@.take(ng as int) =~= garbler_inputs@);
        assert(c.garbler_input_mods@.take(ng as int) =~= c.garbler_input_mods@);
    }
    while j < ne
        invariant
            j <= ne,
            circuit_wf(*c),
            ne == c.evaluator_input_mods@.len(),
            ne == evaluator_inputs@.len(),
            ng == c.garbler_input_mods@.len(),
            ng == garbler_inputs@.len(),
            vals@ == garbler_inputs@ + evaluator_inputs@.take(j as int),
            mods@ == c.garbler_input_mods@ + c.evaluator_input_mods@.take(j as int),
            forall|t: int|
                0 <= t < ng ==> (#[trigger] garbler_inputs@[t]) < c.garbler_input_mods@[t],
            forall|t: int|
                0 <= t < j ==> (#[trigger] evaluator_inputs@[t]) < c.evaluator_input_mods@[t],
        decreases ne - j,
    {
        if evaluator_inputs[j] >= c.evaluator_input_mods[j] {
            return Err(EvaluatorError::WrongInputCount);
        }
        vals.push(evaluator_inputs[j]);
        mods.push(c.evaluator_input_mods[j]);
        j = j + 1;
        proof {
            assert(garbler_inputs@ + evaluator_inputs@.take(j - 1) + seq![evaluator_inputs@[j - 1]]
                =~= garbler_inputs@ + evaluator_inputs@.take(j as int));
            assert(c.garbler_input_mods@ + c.evaluator_input_mods@.take(j - 1) + seq![
                c.evaluator_input_mods@[j - 1],
            ] =~= c.garbler_input_mods@ + c.evaluator_input_mods@.take(j as int));
        }
    }
    proof {
        assert(evaluator_inputs@.take(ne as int) =~= evaluator_inputs@);
        assert(c.evaluator_input_mods@.take(ne as int) =~= c.evaluator_input_mods@);
        assert(mods@ =~= input_mods(*c));
        assert(c.gates@.take(0) =~= Seq::<Gate>::empty());
    }
    let ghost t0 = PlainTrace {
        vals: garbler_inputs@ + evaluator_inputs@,
        mods: input_mods(*c),
        outs: Seq::empty(),
    };
    let mut outs: Vec<u16> = Vec::new();
    let nk = c.gates.len();
    let mut g: usize = 0;
    while g < nk
        invariant
            g <= nk,
            nk == c.gates@.len(),
            circuit_wf(*c),
            t0 == (PlainTrace {
                vals: garbler_inputs@ + evaluator_inputs@,
                mods: input_mods(*c),
                outs: Seq::empty(),
            }),
            vals@ == plain_run(t0, c.gates@.take(g as int)).vals,
            mods@ == plain_run(t0, c.gates@.take(g as int)).mods,
            outs@ == plain_run(t0, c.gates@.take(g as int)).outs,
            mods@ == mods_after(*c, g as nat),
            vals@.len() == mods@.len(),
            forall|t: int| 0 <= t < vals@.len() ==> (#[trigger] vals@[t]) < mods@[t],
        decreases nk - g,
    {
        proof {
            lemma_plain_run_snoc(t0, c.gates@, g as int);
            assert(gate_ok(c.gates@[g as int], mods_after(*c, g as nat)));
            lemma_mods_ge2(*c, g as nat);
        }
        match &c.gates[g] {
            Gate::Add(a, b) => {
                let q = mods[*a];
                let v = ((vals[*a] as u32 + vals[*b] as u32) % q as u32) as u16;
                vals.push(v);
                mods.push(q);
            },
            Gate::Sub(a, b) => {
                let q = mods[*a];
                let v = ((vals[*a] as u32 + q as u32 - vals[*b] as u32) % q as u32) as u16;
                vals.push(v);
                mods.push(q);
            },
            Gate::Cmul(a, cc) => {
                let q = mods[*a];
                proof {
                    assert(vals@[*a as int] * *cc < 0x100000000) by (nonlinear_arith)
                        requires
                            vals@[*a as int] < 0x10000,
                            *cc < 0x10000,
                    ;
                }
                let v = ((vals[*a] as u32 * *cc as u32) % q as u32) as u16;
                vals.push(v);
                mods.push(q);
            },
            Gate::Mul(a, b) => {
                let q = mods[*a];
                proof {
                    assert(vals@[*a as int] * vals@[*b as int] < 0x100000000) by (nonlinear_arith)
                        requires
                            vals@[*a as int] < 0x10000,
                            vals@[*b as int] < 0x10000,
                    ;
                }
                let v = ((vals[*a] as u32 * vals[*b] as u32) % q as u32) as u16;
                vals.push(v);
                mods.push(q);
            },
            Gate::Proj(a, q_out, tt) => {
                let v = tt[vals[*a] as usize];
                vals.push(v);
                mods.push(*q_out);
            },
            Gate::Const(x, q) => {
                vals.push(*x);
                mods.push(*q);
            },
            Gate::Output(w) => {
                outs.push(vals[*w]);
            },
        }
        g = g + 1;
    }
    proof {
        assert(c.gates@.take(nk as int) =~= c.gates@);
    }
    Ok(outs)
}

} // verus!
