//! Static garbling and evaluation of whole circuits.
//!
//! A circuit is a topologically ordered gate list over numbered wires: the
//! input wires come first (garbler's, then evaluator's), and every gate but
//! `Output` appends one new wire. `garble` runs the garbler over a circuit
//! and returns an `Encoder` for turning cleartext inputs into labels and a
//! `GarbledCircuit` holding the bytes the garbler emitted; `eval` replays
//! the circuit over those bytes and decodes the outputs.

use vstd::prelude::*;
use crate::channel::Channel;
use crate::errors::{GarblerError, EvaluatorError};
use crate::garble::{
    Garbler, Evaluator, delta_of, fresh_wire_of, enc_wire, mul_rows,
    proj_rows, output_rows, blocks_to_bytes, bytes_to_blocks, block_of, decode_of, tweak_gate,
    tweak_output, wire_from_block_of,
};
use crate::crypto::{hash_block_of, hash_block2_of};
use crate::rng::{CounterRng, wrap64};
use crate::wire::{
    Wire, WireView, add_digits, sub_digits, cmul_digits, negate_digits, color_of, wire_wf,
};

verus! {

/// One gate of a circuit. Arguments are wire numbers; every gate except
/// `Output` produces the next wire number.
pub enum Gate {
    /// Digit-wise sum of two wires of one modulus.
    Add(usize, usize),
    /// Digit-wise difference of two wires of one modulus.
    Sub(usize, usize),
    /// Scalar multiple of a wire.
    Cmul(usize, u16),
    /// Product of two wires of one modulus; costs a garbled table.
    Mul(usize, usize),
    /// A unary map from a wire's modulus into an output modulus, given by a
    /// truth table; costs a garbled table.
    Proj(usize, u16, Vec<u16>),
    /// A constant value in a modulus; free.
    Const(u16, u16),
    /// Reveal a wire to the evaluator via a decoding table.
    Output(usize),
}

/// A circuit: input moduli for both parties and a topologically ordered
/// gate list.
pub struct Circuit {
    /// The moduli of the garbler's input wires.
    pub garbler_input_mods: Vec<u16>,
    /// The moduli of the evaluator's input wires.
    pub evaluator_input_mods: Vec<u16>,
    /// The gates, in evaluation order.
    pub gates: Vec<Gate>,
}

/// The moduli of the circuit's input wires, garbler's first.
pub open spec fn input_mods(c: Circuit) -> Seq<u16> {
    c.garbler_input_mods@ + c.evaluator_input_mods@
}

/// The wire moduli in scope once the first k gates have run.
pub open spec fn mods_after(c: Circuit, k: nat) -> Seq<u16>
    decreases k,
{
    if k == 0 {
        input_mods(c)
    } else {
        let prev = mods_after(c, (k - 1) as nat);
        match c.gates@[k - 1] {
            Gate::Add(a, b) => prev.push(prev[a as int]),
            Gate::Sub(a, b) => prev.push(prev[a as int]),
            Gate::Cmul(a, cc) => prev.push(prev[a as int]),
            Gate::Mul(a, b) => prev.push(prev[a as int]),
            Gate::Proj(a, q_out, tt) => prev.push(q_out),
            Gate::Const(x, q) => prev.push(q),
            Gate::Output(w) => prev,
        }
    }
}

/// A gate is well-formed over the wire moduli it sees.
pub open spec fn gate_ok(g: Gate, mods: Seq<u16>) -> bool {
    match g {
        Gate::Add(a, b) => a < mods.len() && b < mods.len() && mods[a as int] == mods[b as int],
        Gate::Sub(a, b) => a < mods.len() && b < mods.len() && mods[a as int] == mods[b as int],
        Gate::Cmul(a, cc) => a < mods.len(),
        Gate::Mul(a, b) => a < mods.len() && b < mods.len() && mods[a as int] == mods[b as int],
        Gate::Proj(a, q_out, tt) => a < mods.len() && q_out >= 2 && tt@.len() == mods[a as int]
            && (forall|i: int| 0 <= i < tt@.len() ==> (#[trigger] tt@[i]) < q_out),
        Gate::Const(x, q) => q >= 2 && x < q,
        Gate::Output(w) => w < mods.len(),
    }
}

/// A well-formed circuit: every input modulus is at least 2 and every gate
/// refers to wires that exist, with matching moduli.
pub open spec fn circuit_wf(c: Circuit) -> bool {
    &&& forall|i: int| 0 <= i < input_mods(c).len() ==> (#[trigger] input_mods(c)[i]) >= 2
    &&& forall|k: int| 0 <= k < c.gates@.len() ==> gate_ok(#[trigger] c.gates@[k], mods_after(c, k as nat))
}

/// Every wire modulus of a well-formed circuit is at least 2.
pub proof fn lemma_mods_ge2(c: Circuit, k: nat)
    requires
        circuit_wf(c),
        k <= c.gates@.len(),
    ensures
        forall|i: int| 0 <= i < mods_after(c, k).len() ==> (#[trigger] mods_after(c, k)[i]) >= 2,
    decreases k,
{
    if k > 0 {
        lemma_mods_ge2(c, (k - 1) as nat);
        assert(gate_ok(c.gates@[k - 1], mods_after(c, (k - 1) as nat)));
    }
}

impl Circuit {
    /// Check well-formedness: gate indices in range, moduli matched, truth
    /// tables of the right shape.
    pub fn wf_check(&self) -> (b: bool)
        ensures
            b == circuit_wf(*self),
    {
        let mut mods: Vec<u16> = Vec::new();
        let mut i: usize = 0;
        let ng = self.garbler_input_mods.len();
        while i < ng
            invariant
                i <= ng,
                ng == self.garbler_input_mods@.len(),
                mods@ == self.garbler_input_mods@.take(i as int),
                forall|j: int| 0 <= j < i ==> (#[trigger] self.garbler_input_mods@[j]) >= 2,
            decreases ng - i,
        {
            if self.garbler_input_mods[i] < 2 {
                proof {
                    assert(input_mods(*self)[i as int] == self.garbler_input_mods@[i as int]);
                }
                return false;
            }
            mods.push(self.garbler_input_mods[i]);
            i = i + 1;
            proof {
                assert(self.garbler_input_mods@.take(i - 1).push(
                    self.garbler_input_mods@[i - 1],
                ) =~= self.garbler_input_mods@.take(i as int));
            }
        }
        let ne = self.evaluator_input_mods.len();
        let mut j: usize = 0;
        proof {
            assert(self.garbler_input_mods@.take(ng as int) =~= self.garbler_input_mods@);
        }
        while j < ne
            invariant
                j <= ne,
                ne == self.evaluator_input_mods@.len(),
                mods@ == self.garbler_input_mods@ + self.evaluator_input_mods@.take(j as int),
                forall|jj: int|
                    0 <= jj < self.garbler_input_mods@.len() ==> (
                    #[trigger] self.garbler_input_mods@[jj]) >= 2,
                forall|jj: int| 0 <= jj < j ==> (#[trigger] self.evaluator_input_mods@[jj]) >= 2,
            decreases ne - j,
        {
            if self.evaluator_input_mods[j] < 2 {
                proof {
                    assert(input_mods(*self)[self.garbler_input_mods@.len() + j] == self.evaluator_input_mods@[j as int]);
                }
                return false;
            }
            mods.push(self.evaluator_input_mods[j]);
            j = j + 1;
            proof {
                assert(self.garbler_input_mods@ + self.evaluator_input_mods@.take(j - 1) + seq![
                    self.evaluator_input_mods@[j - 1],
                ] =~= self.garbler_input_mods@ + self.evaluator_input_mods@.take(j as int));
            }
        }
        proof {
            assert(self.garbler_input_mods@ + self.evaluator_input_mods@.take(ne as int)
                =~= input_mods(*self));
            assert(forall|i: int|
                0 <= i < input_mods(*self).len() ==> (#[trigger] input_mods(*self)[i]) >= 2);
        }
        let mut k: usize = 0;
        let nk = self.gates.len();
        while k < nk
            invariant
                k <= nk,
                nk == self.gates@.len(),
                mods@ == mods_after(*self, k as nat),
                forall|i: int|
                    0 <= i < input_mods(*self).len() ==> (#[trigger] input_mods(*self)[i]) >= 2,
                forall|kk: int|
                    0 <= kk < k ==> gate_ok(
                        #[trigger] self.gates@[kk],
                        mods_after(*self, kk as nat),
                    ),
            decreases nk - k,
        {
            let g_ok: bool = match &self.gates[k] {
                Gate::Add(a, b) => {
                    if *a < mods.len() && *b < mods.len() && mods[*a] == mods[*b] {
                        mods.push(mods[*a]);
                        true
                    } else {
                        false
                    }
                },
                Gate::Sub(a, b) => {
                    if *a < mods.len() && *b < mods.len() && mods[*a] == mods[*b] {
                        mods.push(mods[*a]);
                        true
                    } else {
                        false
                    }
                },
                Gate::Cmul(a, _c) => {
                    if *a < mods.len() {
                        mods.push(mods[*a]);
                        true
                    } else {
                        false
                    }
                },
                Gate::Mul(a, b) => {
                    if *a < mods.len() && *b < mods.len() && mods[*a] == mods[*b] {
                        mods.push(mods[*a]);
                        true
                    } else {
                        false
                    }
                },
                Gate::Proj(a, q_out, tt) => {
                    if *a < mods.len() && *q_out >= 2 && tt.len() == mods[*a] as usize {
                        let mut t: usize = 0;
                        while t < tt.len()
                            invariant
                                t <= tt@.len(),
                                k < nk == self.gates@.len(),
                                mods@ == mods_after(*self, k as nat),
                                self.gates@[k as int] == Gate::Proj(*a, *q_out, *tt),
                                forall|u: int| 0 <= u < t ==> (#[trigger] tt@[u]) < *q_out,
                            decreases tt@.len() - t,
                        {
                            if tt[t] >= *q_out {
                                proof {
                                    assert(!gate_ok(
                                        self.gates@[k as int],
                                        mods_after(*self, k as nat),
                                    ));
                                }
                                return false;
                            }
                            t = t + 1;
                        }
                        mods.push(*q_out);
                        true
                    } else {
                        false
                    }
                },
                Gate::Const(x, q) => {
                    if *q >= 2 && *x < *q {
                        mods.push(*q);
                        true
                    } else {
                        false
                    }
                },
                Gate::Output(w) => *w < mods.len(),
            };
            if !g_ok {
                return false;
            }
            k = k + 1;
        }
        true
    }
}

/// The garbler's trace while it walks a circuit: the zero-labels of all
/// wires so far, the bytes emitted, and the three counters.
pub ghost struct GbTrace {
    pub wires: Seq<WireView>,
    pub stream: Seq<u8>,
    pub ctr: u64,
    pub gate: u64,
    pub out: u64,
}

/// The empty trace a session starts from.
pub open spec fn gb_init() -> GbTrace {
    GbTrace { wires: Seq::empty(), stream: Seq::empty(), ctr: 0, gate: 0, out: 0 }
}

/// Drawing the zero-label of one input wire.
pub open spec fn gb_input_step(seed: u128, t: GbTrace, q: u16) -> GbTrace {
    GbTrace {
        wires: t.wires.push(fresh_wire_of(seed, t.ctr, q)),
        stream: t.stream,
        ctr: wrap64(t.ctr + 1) as u64,
        gate: t.gate,
        out: t.out,
    }
}

/// Drawing the zero-labels of a list of input wires.
pub open spec fn gb_inputs_run(seed: u128, t: GbTrace, mods: Seq<u16>) -> GbTrace
    decreases mods.len(),
{
    if mods.len() == 0 {
        t
    } else {
        gb_inputs_run(seed, gb_input_step(seed, t, mods[0]), mods.drop_first())
    }
}

/// The garbler's effect of one gate on its trace.
pub open spec fn gb_step(seed: u128, t: GbTrace, g: Gate) -> GbTrace {
    match g {
        Gate::Add(a, b) => GbTrace {
            wires: t.wires.push(
                WireView {
                    q: t.wires[a as int].q,
                    ds: add_digits(t.wires[a as int].ds, t.wires[b as int].ds, t.wires[a as int].q),
                },
            ),
            stream: t.stream,
            ctr: t.ctr,
            gate: t.gate,
            out: t.out,
        },
        Gate::Sub(a, b) => GbTrace {
            wires: t.wires.push(
                WireView {
                    q: t.wires[a as int].q,
                    ds: sub_digits(t.wires[a as int].ds, t.wires[b as int].ds, t.wires[a as int].q),
                },
            ),
            stream: t.stream,
            ctr: t.ctr,
            gate: t.gate,
            out: t.out,
        },
        Gate::Cmul(a, cc) => GbTrace {
            wires: t.wires.push(
                WireView {
                    q: t.wires[a as int].q,
                    ds: cmul_digits(t.wires[a as int].ds, cc as int, t.wires[a as int].q),
                },
            ),
            stream: t.stream,
            ctr: t.ctr,
            gate: t.gate,
            out: t.out,
        },
        Gate::Mul(a, b) => GbTrace {
            wires: t.wires.push(
                fresh_wire_of(seed, t.ctr, (t.wires[a as int].q) as u16),
            ),
            stream: t.stream + blocks_to_bytes(
                mul_rows(
                    t.wires[a as int],
                    t.wires[b as int],
                    delta_of(seed, (t.wires[a as int].q) as u16),
                    fresh_wire_of(seed, t.ctr, (t.wires[a as int].q) as u16),
                    t.gate,
                ),
            ),
            ctr: wrap64(t.ctr + 1) as u64,
            gate: wrap64(t.gate + 1) as u64,
            out: t.out,
        },
        Gate::Proj(a, q_out, tt) => GbTrace {
            wires: t.wires.push(fresh_wire_of(seed, t.ctr, q_out)),
            stream: t.stream + blocks_to_bytes(
                proj_rows(
                    t.wires[a as int],
                    delta_of(seed, (t.wires[a as int].q) as u16),
                    delta_of(seed, q_out),
                    fresh_wire_of(seed, t.ctr, q_out),
                    tt@,
                    t.gate,
                ),
            ),
            ctr: wrap64(t.ctr + 1) as u64,
            gate: wrap64(t.gate + 1) as u64,
            out: t.out,
        },
        Gate::Const(x, q) => GbTrace {
            wires: t.wires.push(
                WireView {
                    q: q as int,
                    ds: cmul_digits(negate_digits(delta_of(seed, q).ds, q as int), x as int, q as int),
                },
            ),
            stream: t.stream,
            ctr: t.ctr,
            gate: t.gate,
            out: t.out,
        },
        Gate::Output(w) => GbTrace {
            wires: t.wires,
            stream: t.stream + blocks_to_bytes(
                output_rows(
                    t.wires[w as int],
                    delta_of(seed, (t.wires[w as int].q) as u16),
                    t.out,
                ),
            ),
            ctr: t.ctr,
            gate: t.gate,
            out: wrap64(t.out + 1) as u64,
        },
    }
}

/// The garbler's trace after a whole gate list.
pub open spec fn gb_run(seed: u128, t: GbTrace, gates: Seq<Gate>) -> GbTrace
    decreases gates.len(),
{
    if gates.len() == 0 {
        t
    } else {
        gb_run(seed, gb_step(seed, t, gates[0]), gates.drop_first())
    }
}

/// Running one more gate steps the trace once.
pub proof fn lemma_gb_run_snoc(seed: u128, t: GbTrace, gates: Seq<Gate>, i: int)
    requires
        0 <= i < gates.len(),
    ensures
        gb_run(seed, t, gates.take(i + 1)) == gb_step(seed, gb_run(seed, t, gates.take(i)), gates[i]),
    decreases i,
{
    if i == 0 {
        assert(gates.take(1) =~= seq![gates[0]]);
        assert(seq![gates[0]].drop_first() =~= Seq::<Gate>::empty());
        assert(gates.take(0) =~= Seq::<Gate>::empty());
        assert(gb_run(seed, gb_step(seed, t, gates[0]), Seq::<Gate>::empty()) == gb_step(
            seed,
            t,
            gates[0],
        ));
    } else {
        assert(gates.take(i + 1)[0] == gates[0]);
        assert(gates.take(i)[0] == gates[0]);
        assert(gates.take(i + 1).drop_first() =~= gates.drop_first().take(i));
        assert(gates.take(i).drop_first() =~= gates.drop_first().take(i - 1));
        lemma_gb_run_snoc(seed, gb_step(seed, t, gates[0]), gates.drop_first(), i - 1);
        assert(gates.drop_first()[i - 1] == gates[i]);
    }
}

/// Drawing one more input steps the input phase once.
pub proof fn lemma_gb_inputs_snoc(seed: u128, t: GbTrace, mods: Seq<u16>, i: int)
    requires
        0 <= i < mods.len(),
    ensures
        gb_inputs_run(seed, t, mods.take(i + 1)) == gb_input_step(
            seed,
            gb_inputs_run(seed, t, mods.take(i)),
            mods[i],
        ),
    decreases i,
{
    if i == 0 {
        assert(mods.take(1) =~= seq![mods[0]]);
        assert(seq![mods[0]].drop_first() =~= Seq::<u16>::empty());
        assert(mods.take(0) =~= Seq::<u16>::empty());
        assert(gb_inputs_run(seed, gb_input_step(seed, t, mods[0]), Seq::<u16>::empty())
            == gb_input_step(seed, t, mods[0]));
    } else {
        assert(mods.take(i + 1)[0] == mods[0]);
        assert(mods.take(i)[0] == mods[0]);
        assert(mods.take(i + 1).drop_first() =~= mods.drop_first().take(i));
        assert(mods.take(i).drop_first() =~= mods.drop_first().take(i - 1));
        lemma_gb_inputs_snoc(seed, gb_input_step(seed, t, mods[0]), mods.drop_first(), i - 1);
        assert(mods.drop_first()[i - 1] == mods[i]);
    }
}

/// The first offset stored for a modulus, if any.
pub open spec fn dm_lookup(entries: Seq<(u16, Wire)>, q: int) -> Option<WireView>
    decreases entries.len(),
{
    if entries.len() == 0 {
        None
    } else if entries[0].0 == q {
        Some(entries[0].1@)
    } else {
        dm_lookup(entries.drop_first(), q)
    }
}

/// A map from modulus to secret offset, keyed by first entry.
pub struct DeltaMap {
    entries: Vec<(u16, Wire)>,
}

impl DeltaMap {
    /// What the map associates with a modulus.
    pub closed spec fn lookup_spec(&self, q: int) -> Option<WireView> {
        dm_lookup(self.entries@, q)
    }

    /// An empty map.
    pub fn new() -> (r: DeltaMap)
        ensures
            forall|q: int| r.lookup_spec(q) is None,
    {
        DeltaMap { entries: Vec::new() }
    }

    /// Add an offset for a modulus not yet present.
    pub fn insert(&mut self, q: u16, w: Wire)
        requires
            old(self).lookup_spec(q as int) is None,
        ensures
            final(self).lookup_spec(q as int) == Some(w@),
            forall|p: int| p != q as int ==> final(self).lookup_spec(p) == old(self).lookup_spec(p),
    {
        proof {
            lemma_dm_lookup_push(self.entries@, q, w);
        }
        self.entries.push((q, w));
    }

    /// Look an offset up by modulus.
    pub fn get(&self, q: u16) -> (r: Option<&Wire>)
        ensures
            r matches Some(w) ==> self.lookup_spec(q as int) == Some(w@),
            r is None ==> self.lookup_spec(q as int) is None,
    {
        let n = self.entries.len();
        let mut i: usize = 0;
        proof {
            assert(self.entries@.skip(0) =~= self.entries@);
        }
        while i < n
            invariant
                i <= n,
                n == self.entries@.len(),
                dm_lookup(self.entries@, q as int) == dm_lookup(self.entries@.skip(i as int), q as int),
            decreases n - i,
        {
            proof {
                lemma_dm_lookup_skip(self.entries@, q as int, i as int);
            }
            if self.entries[i].0 == q {
                return Some(&self.entries[i].1);
            }
            i = i + 1;
        }
        proof {
            assert(self.entries@.skip(n as int) =~= Seq::<(u16, Wire)>::empty());
        }
        None
    }
}

/// Appending an entry only fills a hole: lookups that hit stay as they were.
proof fn lemma_dm_lookup_push(entries: Seq<(u16, Wire)>, q: u16, w: Wire)
    ensures
        dm_lookup(entries, q as int) is None ==> dm_lookup(entries.push((q, w)), q as int) == Some(
            w@,
        ),
        forall|p: int|
            p != q as int ==> dm_lookup(entries.push((q, w)), p) == dm_lookup(entries, p),
    decreases entries.len(),
{
    if entries.len() == 0 {
        assert(entries.push((q, w)) =~= seq![(q, w)]);
        assert(seq![(q, w)].drop_first() =~= Seq::<(u16, Wire)>::empty());
        assert forall|p: int| p != q as int implies dm_lookup(entries.push((q, w)), p)
            == dm_lookup(entries, p) by {
            assert(dm_lookup(Seq::<(u16, Wire)>::empty(), p) is None);
            assert(dm_lookup(entries, p) is None);
        }
    } else {
        assert(entries.push((q, w)).drop_first() =~= entries.drop_first().push((q, w)));
        lemma_dm_lookup_push(entries.drop_first(), q, w);
        assert(entries.push((q, w))[0] == entries[0]);
        assert forall|p: int| p != q as int implies dm_lookup(entries.push((q, w)), p)
            == dm_lookup(entries, p) by {
            assert(dm_lookup(entries.drop_first().push((q, w)), p) == dm_lookup(
                entries.drop_first(),
                p,
            ));
        }
    }
}

/// Scanning from position i: the head either answers or the tail decides.
proof fn lemma_dm_lookup_skip(entries: Seq<(u16, Wire)>, q: int, i: int)
    requires
        0 <= i < entries.len(),
    ensures
        dm_lookup(entries.skip(i), q) == if entries[i].0 == q {
            Some(entries[i].1@)
        } else {
            dm_lookup(entries.skip(i + 1), q)
        },
{
    assert(entries.skip(i)[0] == entries[i]);
    assert(entries.skip(i).drop_first() =~= entries.skip(i + 1));
}

/// A modulus occurs in a list of input moduli.
pub open spec fn has_mod(mods: Seq<u16>, q: int) -> bool {
    exists|i: int| 0 <= i < mods.len() && mods[i] == q
}

/// Encode inputs statically: the zero-labels of the input wires and the
/// per-modulus offsets, as the garbling that produced them fixed them.
pub struct Encoder {
    garbler_inputs: Vec<Wire>,
    evaluator_inputs: Vec<Wire>,
    deltas: DeltaMap,
}

impl Encoder {
    /// The zero-labels of the garbler's input wires.
    pub closed spec fn gb_view(&self) -> Seq<WireView> {
        self.garbler_inputs@.map(|i: int, w: Wire| w@)
    }

    /// The zero-labels of the evaluator's input wires.
    pub closed spec fn ev_view(&self) -> Seq<WireView> {
        self.evaluator_inputs@.map(|i: int, w: Wire| w@)
    }

    /// The offset stored for a modulus.
    pub closed spec fn delta_view(&self, q: int) -> Option<WireView> {
        self.deltas.lookup_spec(q)
    }

    /// The stored offset for a modulus, where one exists.
    pub open spec fn delta_for(&self, q: int) -> WireView {
        self.delta_view(q)->Some_0
    }

    /// A usable encoder: every input wire is well-formed and has an offset
    /// of its own modulus, with color 1, stored for it.
    pub open spec fn wf(&self) -> bool {
        &&& forall|i: int|
            0 <= i < self.gb_view().len() ==> wire_wf(#[trigger] self.gb_view()[i])
                && self.delta_view(self.gb_view()[i].q) == Some(self.delta_for(self.gb_view()[i].q))
                && wire_wf(self.delta_for(self.gb_view()[i].q)) && self.delta_for(
                self.gb_view()[i].q,
            ).q == self.gb_view()[i].q
        &&& forall|i: int|
            0 <= i < self.ev_view().len() ==> wire_wf(#[trigger] self.ev_view()[i])
                && self.delta_view(self.ev_view()[i].q) == Some(self.delta_for(self.ev_view()[i].q))
                && wire_wf(self.delta_for(self.ev_view()[i].q)) && self.delta_for(
                self.ev_view()[i].q,
            ).q == self.ev_view()[i].q
    }

    /// Make an encoder from input zero-labels and a map of offsets.
    pub fn new(garbler_inputs: Vec<Wire>, evaluator_inputs: Vec<Wire>, deltas: DeltaMap) -> (r:
        Encoder)
        ensures
            r.gb_view() == garbler_inputs@.map(|i: int, w: Wire| w@),
            r.ev_view() == evaluator_inputs@.map(|i: int, w: Wire| w@),
            forall|q: int| r.delta_view(q) == deltas.lookup_spec(q),
    {
        Encoder { garbler_inputs, evaluator_inputs, deltas }
    }

    /// How many inputs the garbler supplies.
    pub fn num_garbler_inputs(&self) -> (n: usize)
        ensures
            n == self.gb_view().len(),
    {
        self.garbler_inputs.len()
    }

    /// How many inputs the evaluator supplies.
    pub fn num_evaluator_inputs(&self) -> (n: usize)
        ensures
            n == self.ev_view().len(),
    {
        self.evaluator_inputs.len()
    }

    /// Encode one garbler input: the stored zero-label plus x offsets.
    pub fn encode_garbler_input(&self, x: u16, id: usize) -> (r: Wire)
        requires
            self.wf(),
            id < self.gb_view().len(),
            x < self.gb_view()[id as int].q,
        ensures
            r.wf(),
            r@ == enc_wire(
                self.gb_view()[id as int],
                self.delta_for(self.gb_view()[id as int].q),
                x as int,
            ),
    {
        let w = &self.garbler_inputs[id];
        let q = w.modulus();
        match self.deltas.get(q) {
            Some(d) => w.plus(&d.cmul(x)),
            None => {
                proof {
                    assert(false);
                }
                w.duplicate()
            },
        }
    }

    /// Encode one evaluator input: the stored zero-label plus x offsets.
    pub fn encode_evaluator_input(&self, x: u16, id: usize) -> (r: Wire)
        requires
            self.wf(),
            id < self.ev_view().len(),
            x < self.ev_view()[id as int].q,
        ensures
            r.wf(),
            r@ == enc_wire(
                self.ev_view()[id as int],
                self.delta_for(self.ev_view()[id as int].q),
                x as int,
            ),
    {
        let w = &self.evaluator_inputs[id];
        let q = w.modulus();
        match self.deltas.get(q) {
            Some(d) => w.plus(&d.cmul(x)),
            None => {
                proof {
                    assert(false);
                }
                w.duplicate()
            },
        }
    }

    /// Encode all garbler inputs.
    pub fn encode_garbler_inputs(&self, inputs: &Vec<u16>) -> (r: Vec<Wire>)
        requires
            self.wf(),
            inputs@.len() == self.gb_view().len(),
            forall|i: int| 0 <= i < inputs@.len() ==> (#[trigger] inputs@[i]) < self.gb_view()[i].q,
        ensures
            r@.len() == inputs@.len(),
            forall|i: int|
                0 <= i < inputs@.len() ==> (#[trigger] r@[i])@ == enc_wire(
                    self.gb_view()[i],
                    self.delta_for(self.gb_view()[i].q),
                    inputs@[i] as int,
                ) && r@[i].wf(),
    {
        let mut r: Vec<Wire> = Vec::new();
        let mut i: usize = 0;
        while i < inputs.len()
            invariant
                i <= inputs@.len(),
                inputs@.len() == self.gb_view().len(),
                self.wf(),
                forall|j: int|
                    0 <= j < inputs@.len() ==> (#[trigger] inputs@[j]) < self.gb_view()[j].q,
                r@.len() == i,
                forall|j: int|
                    0 <= j < i ==> (#[trigger] r@[j])@ == enc_wire(
                        self.gb_view()[j],
                        self.delta_for(self.gb_view()[j].q),
                        inputs@[j] as int,
                    ) && r@[j].wf(),
            decreases inputs@.len() - i,
        {
            r.push(self.encode_garbler_input(inputs[i], i));
            i = i + 1;
        }
        r
    }

    /// Encode all evaluator inputs.
    pub fn encode_evaluator_inputs(&self, inputs: &Vec<u16>) -> (r: Vec<Wire>)
        requires
            self.wf(),
            inputs@.len() == self.ev_view().len(),
            forall|i: int| 0 <= i < inputs@.len() ==> (#[trigger] inputs@[i]) < self.ev_view()[i].q,
        ensures
            r@.len() == inputs@.len(),
            forall|i: int|
                0 <= i < inputs@.len() ==> (#[trigger] r@[i])@ == enc_wire(
                    self.ev_view()[i],
                    self.delta_for(self.ev_view()[i].q),
                    inputs@[i] as int,
                ) && r@[i].wf(),
    {
        let mut r: Vec<Wire> = Vec::new();
        let mut i: usize = 0;
        while i < inputs.len()
            invariant
                i <= inputs@.len(),
                inputs@.len() == self.ev_view().len(),
                self.wf(),
                forall|j: int|
                    0 <= j < inputs@.len() ==> (#[trigger] inputs@[j]) < self.ev_view()[j].q,
                r@.len() == i,
                forall|j: int|
                    0 <= j < i ==> (#[trigger] r@[j])@ == enc_wire(
                        self.ev_view()[j],
                        self.delta_for(self.ev_view()[j].q),
                        inputs@[j] as int,
                    ) && r@[j].wf(),
            decreases inputs@.len() - i,
        {
            r.push(self.encode_evaluator_input(inputs[i], i));
            i = i + 1;
        }
        r
    }
}

/// A statically garbled circuit: the bytes the garbler emitted.
pub struct GarbledCircuit {
    data: Vec<u8>,
}

impl View for GarbledCircuit {
    type V = Seq<u8>;

    closed spec fn view(&self) -> Seq<u8> {
        self.data@
    }
}

impl GarbledCircuit {
    /// Make a garbled circuit from a vector of garbled data.
    pub fn new(data: Vec<u8>) -> (r: GarbledCircuit)
        ensures
            r@ == data@,
    {
        GarbledCircuit { data }
    }

    /// The number of bytes in the garbled circuit.
    pub fn size(&self) -> (n: usize)
        ensures
            n == self@.len(),
    {
        self.data.len()
    }
}


/// Drawing inputs only appends wires: the stream and counters other than
/// the draw counter stay, and earlier wires are untouched.
pub proof fn lemma_gb_inputs_run_extends(seed: u128, t: GbTrace, mods: Seq<u16>)
    ensures
        gb_inputs_run(seed, t, mods).wires.len() == t.wires.len() + mods.len(),
        forall|i: int|
            0 <= i < t.wires.len() ==> gb_inputs_run(seed, t, mods).wires[i] == t.wires[i],
        gb_inputs_run(seed, t, mods).stream == t.stream,
        gb_inputs_run(seed, t, mods).gate == t.gate,
        gb_inputs_run(seed, t, mods).out == t.out,
    decreases mods.len(),
{
    if mods.len() > 0 {
        lemma_gb_inputs_run_extends(seed, gb_input_step(seed, t, mods[0]), mods.drop_first());
        assert forall|i: int| 0 <= i < t.wires.len() implies gb_inputs_run(
            seed,
            t,
            mods,
        ).wires[i] == t.wires[i] by {
            assert(gb_input_step(seed, t, mods[0]).wires[i] == t.wires[i]);
            assert(gb_inputs_run(seed, gb_input_step(seed, t, mods[0]), mods.drop_first()).wires[i]
                == gb_input_step(seed, t, mods[0]).wires[i]);
        }
    }
}

/// A modulus occurs in a list extended by one entry iff it occurs in the
/// list or is that entry.
pub proof fn lemma_has_mod_push(mods: Seq<u16>, q: u16, p: int)
    ensures
        has_mod(mods.push(q), p) <==> (has_mod(mods, p) || p == q as int),
{
    if has_mod(mods.push(q), p) {
        let i = choose|i: int| 0 <= i < mods.push(q).len() && mods.push(q)[i] == p;
        if i < mods.len() {
            assert(mods[i] == p);
        }
    }
    if has_mod(mods, p) {
        let i = choose|i: int| 0 <= i < mods.len() && mods[i] == p;
        assert(mods.push(q)[i] == p);
    }
    if p == q as int {
        assert(mods.push(q)[mods.len() as int] == p);
    }
}

/// Garble a circuit under a session seed. On a well-formed circuit this
/// returns the encoder for the input wires and the garbled bytes, both
/// determined by the circuit and the seed alone; an ill-formed circuit is
/// rejected.
pub fn garble(c: &Circuit, seed: u128) -> (r: Result<(Encoder, GarbledCircuit), GarblerError>)
    ensures
        r is Ok <==> circuit_wf(*c),
        !circuit_wf(*c) ==> r == Err::<(Encoder, GarbledCircuit), GarblerError>(
            GarblerError::InvalidCircuit,
        ),
        r matches Ok(p) ==> p.0.gb_view() == gb_inputs_run(
            seed,
            gb_init(),
            c.garbler_input_mods@,
        ).wires,
        r matches Ok(p) ==> p.0.ev_view() == gb_inputs_run(
            seed,
            gb_inputs_run(seed, gb_init(), c.garbler_input_mods@),
            c.evaluator_input_mods@,
        ).wires.skip(c.garbler_input_mods@.len() as int),
        r matches Ok(p) ==> forall|q: u16|
            p.0.delta_view(q as int) == if has_mod(input_mods(*c), q as int) {
                Some(delta_of(seed, q))
            } else {
                None::<WireView>
            },
        r matches Ok(p) ==> p.0.wf(),
        r matches Ok(p) ==> p.1@ == gb_run(
            seed,
            gb_inputs_run(
                seed,
                gb_inputs_run(seed, gb_init(), c.garbler_input_mods@),
                c.evaluator_input_mods@,
            ),
            c.gates@,
        ).stream,
    {
        if !c.wf_check() {
            return Err(GarblerError::InvalidCircuit);
        }
        let mut gb = Garbler::new(Channel::new(Vec::new(), Vec::new()), CounterRng::from_seed(seed));
        let ng = c.garbler_input_mods.len();
        let ne = c.evaluator_input_mods.len();
        let mut gb_inps: Vec<Wire> = Vec::new();
        let mut i: usize = 0;
        proof {
            assert(c.garbler_input_mods@.take(0) =~= Seq::<u16>::empty());
        }
        while i < ng
            invariant
                i <= ng,
                ng == c.garbler_input_mods@.len(),
                circuit_wf(*c),
                gb@.rng.seed == seed,
                gb@.rng.ctr == gb_inputs_run(seed, gb_init(), c.garbler_input_mods@.take(i as int)).ctr,
                gb@.chan.written == Seq::<u8>::empty(),
                gb@.chan.unread == Seq::<u8>::empty(),
                gb@.gate == 0,
                gb@.out == 0,
                gb_inputs_run(seed, gb_init(), c.garbler_input_mods@.take(i as int)).stream
                    == Seq::<u8>::empty(),
                gb_inps@.map(|j: int, w: Wire| w@) == gb_inputs_run(
                    seed,
                    gb_init(),
                    c.garbler_input_mods@.take(i as int),
                ).wires,
                gb_inps@.len() == i,
                forall|j: int|
                    0 <= j < i ==> (#[trigger] gb_inps@[j]).wf() && gb_inps@[j]@.q
                        == c.garbler_input_mods@[j],
            decreases ng - i,
        {
            proof {
                lemma_gb_inputs_snoc(seed, gb_init(), c.garbler_input_mods@, i as int);
                assert(input_mods(*c)[i as int] == c.garbler_input_mods@[i as int]);
            }
            let q = c.garbler_input_mods[i];
            let w = gb.create_wire(q);
            gb_inps.push(w);
            i = i + 1;
            proof {
                assert(gb_inps@.map(|j: int, w: Wire| w@) =~= gb_inputs_run(
                    seed,
                    gb_init(),
                    c.garbler_input_mods@.take(i as int),
                ).wires);
            }
        }
        proof {
            assert(c.garbler_input_mods@.take(ng as int) =~= c.garbler_input_mods@);
        }
        let ghost t1 = gb_inputs_run(seed, gb_init(), c.garbler_input_mods@);
        let mut ev_inps: Vec<Wire> = Vec::new();
        let mut j: usize = 0;
        proof {
            assert(c.evaluator_input_mods@.take(0) =~= Seq::<u16>::empty());
            lemma_gb_inputs_run_extends(seed, gb_init(), c.garbler_input_mods@);
        }
        while j < ne
            invariant
                j <= ne,
                ne == c.evaluator_input_mods@.len(),
                ng == c.garbler_input_mods@.len(),
                circuit_wf(*c),
                t1 == gb_inputs_run(seed, gb_init(), c.garbler_input_mods@),
                t1.wires.len() == ng,
                gb@.rng.seed == seed,
                gb@.rng.ctr == gb_inputs_run(seed, t1, c.evaluator_input_mods@.take(j as int)).ctr,
                gb@.chan.written == Seq::<u8>::empty(),
                gb@.chan.unread == Seq::<u8>::empty(),
                gb@.gate == 0,
                gb@.out == 0,
                gb_inputs_run(seed, t1, c.evaluator_input_mods@.take(j as int)).stream
                    == Seq::<u8>::empty(),
                gb_inps@.map(|jj: int, w: Wire| w@) == t1.wires,
                gb_inps@.len() == ng,
                gb_inps@.map(|jj: int, w: Wire| w@) + ev_inps@.map(|jj: int, w: Wire| w@)
                    == gb_inputs_run(seed, t1, c.evaluator_input_mods@.take(j as int)).wires,
                ev_inps@.len() == j,
                forall|jj: int|
                    0 <= jj < j ==> (#[trigger] ev_inps@[jj]).wf() && ev_inps@[jj]@.q
                        == c.evaluator_input_mods@[jj],
            decreases ne - j,
        {
            proof {
                lemma_gb_inputs_snoc(seed, t1, c.evaluator_input_mods@, j as int);
                lemma_gb_inputs_run_extends(
                    seed,
                    t1,
                    c.evaluator_input_mods@.take(j as int),
                );
                assert(input_mods(*c)[ng + j] == c.evaluator_input_mods@[j as int]);
            }
            let q = c.evaluator_input_mods[j];
            let w = gb.create_wire(q);
            ev_inps.push(w);
            j = j + 1;
            proof {
                let prev = gb_inputs_run(seed, t1, c.evaluator_input_mods@.take(j - 1));
                assert(prev.wires.len() == ng + j - 1);
                let cur = gb_inputs_run(seed, t1, c.evaluator_input_mods@.take(j as int));
                assert(cur == gb_input_step(seed, prev, c.evaluator_input_mods@[j - 1]));
                assert(w@ == fresh_wire_of(seed, prev.ctr, c.evaluator_input_mods@[j - 1]));
                let lhs = gb_inps@.map(|jj: int, w: Wire| w@) + ev_inps@.map(
                    |jj: int, w: Wire| w@,
                );
                assert forall|t: int| 0 <= t < ng + j implies lhs[t] == cur.wires[t] by {
                    if t < ng + j - 1 {
                        assert(cur.wires[t] == prev.wires[t]);
                    } else {
                        assert(cur.wires[t] == w@);
                        assert(ev_inps@[j - 1] == w);
                    }
                }
                assert(lhs =~= cur.wires);
            }
        }
        proof {
            assert(c.evaluator_input_mods@.take(ne as int) =~= c.evaluator_input_mods@);
        }
        let ghost t2 = gb_inputs_run(seed, t1, c.evaluator_input_mods@);
        // Record one offset per distinct input modulus for the encoder.
        let mut deltas = DeltaMap::new();
        let mut k: usize = 0;
        proof {
            assert(input_mods(*c).take(0) =~= Seq::<u16>::empty());
        }
        while k < ng
            invariant
                k <= ng,
                ng == c.garbler_input_mods@.len(),
                ne == c.evaluator_input_mods@.len(),
                circuit_wf(*c),
                gb@.rng.seed == seed,
                forall|p: u16|
                    #[trigger] deltas.lookup_spec(p as int) == if has_mod(
                        input_mods(*c).take(k as int),
                        p as int,
                    ) {
                        Some(delta_of(seed, p))
                    } else {
                        None::<WireView>
                    },
                forall|p: u16|
                    has_mod(input_mods(*c).take(k as int), p as int) ==> wire_wf(
                        #[trigger] delta_of(seed, p),
                    ),
            decreases ng - k,
        {
            let q = c.garbler_input_mods[k];
            proof {
                assert(input_mods(*c)[k as int] == q);
                assert(input_mods(*c).take(k + 1) =~= input_mods(*c).take(k as int).push(q));
                assert(input_mods(*c)[k as int] >= 2);
            }
            let have = match deltas.get(q) {
                Some(_d) => true,
                None => false,
            };
            if !have {
                let d = gb.delta(q);
                deltas.insert(q, d);
            }
            k = k + 1;
            proof {
                assert forall|p: u16| #[trigger] deltas.lookup_spec(p as int) == if has_mod(
                    input_mods(*c).take(k as int),
                    p as int,
                ) {
                    Some(delta_of(seed, p))
                } else {
                    None::<WireView>
                } by {
                    lemma_has_mod_push(input_mods(*c).take(k - 1), q, p as int);
                }
                assert forall|p: u16|
                    has_mod(input_mods(*c).take(k as int), p as int) implies wire_wf(
                    #[trigger] delta_of(seed, p),
                ) by {
                    lemma_has_mod_push(input_mods(*c).take(k - 1), q, p as int);
                }
            }
        }
        let mut k2: usize = 0;
        while k2 < ne
            invariant
                k2 <= ne,
                ng == c.garbler_input_mods@.len(),
                ne == c.evaluator_input_mods@.len(),
                circuit_wf(*c),
                gb@.rng.seed == seed,
                forall|p: u16|
                    #[trigger] deltas.lookup_spec(p as int) == if has_mod(
                        input_mods(*c).take(ng + k2 as int),
                        p as int,
                    ) {
                        Some(delta_of(seed, p))
                    } else {
                        None::<WireView>
                    },
                forall|p: u16|
                    has_mod(input_mods(*c).take(ng + k2 as int), p as int) ==> wire_wf(
                        #[trigger] delta_of(seed, p),
                    ),
            decreases ne - k2,
        {
            let q = c.evaluator_input_mods[k2];
            proof {
                assert(input_mods(*c)[ng + k2 as int] == q);
                assert(input_mods(*c).take(ng + k2 as int + 1) =~= input_mods(*c).take(
                    ng + k2 as int,
                ).push(q));
                assert(input_mods(*c)[ng + k2 as int] >= 2);
            }
            let have = match deltas.get(q) {
                Some(_d) => true,
                None => false,
            };
            if !have {
                let d = gb.delta(q);
                deltas.insert(q, d);
            }
            k2 = k2 + 1;
            proof {
                assert forall|p: u16| #[trigger] deltas.lookup_spec(p as int) == if has_mod(
                    input_mods(*c).take(ng + k2 as int),
                    p as int,
                ) {
                    Some(delta_of(seed, p))
                } else {
                    None::<WireView>
                } by {
                    lemma_has_mod_push(input_mods(*c).take(ng + k2 - 1), q, p as int);
                }
                assert forall|p: u16|
                    has_mod(input_mods(*c).take(ng + k2 as int), p as int) implies wire_wf(
                    #[trigger] delta_of(seed, p),
                ) by {
                    lemma_has_mod_push(input_mods(*c).take(ng + k2 - 1), q, p as int);
                }
            }
        }
        proof {
            assert(input_mods(*c).take(ng + ne as int) =~= input_mods(*c));
        }
        // The working copies of all wires, inputs first.
        let mut wires: Vec<Wire> = Vec::new();
        let mut a: usize = 0;
        while a < ng
            invariant
                a <= ng,
                ng == gb_inps@.len(),
                ng == c.garbler_input_mods@.len(),
                wires@.len() == a,
                forall|t: int|
                    0 <= t < a ==> (#[trigger] wires@[t])@ == gb_inps@[t]@ && wires@[t].wf(),
                forall|t: int|
                    0 <= t < ng ==> (#[trigger] gb_inps@[t]).wf() && gb_inps@[t]@.q
                        == c.garbler_input_mods@[t],
            decreases ng - a,
        {
            wires.push(gb_inps[a].duplicate());
            a = a + 1;
        }
        let mut b: usize = 0;
        while b < ne
            invariant
                b <= ne,
                ne == ev_inps@.len(),
                ne == c.evaluator_input_mods@.len(),
                ng == gb_inps@.len(),
                ng == c.garbler_input_mods@.len(),
                gb_inps@.map(|t: int, w: Wire| w@) == t1.wires,
                ev_inps@.map(|t: int, w: Wire| w@) == t2.wires.skip(ng as int),
                t1 == gb_inputs_run(seed, gb_init(), c.garbler_input_mods@),
                t2 == gb_inputs_run(seed, t1, c.evaluator_input_mods@),
                wires@.len() == ng + b,
                forall|t: int|
                    0 <= t < ng ==> (#[trigger] wires@[t])@ == gb_inps@[t]@ && wires@[t].wf(),
                forall|t: int|
                    0 <= t < b ==> (#[trigger] wires@[ng + t])@ == ev_inps@[t]@ && wires@[ng
                        + t].wf(),
                forall|t: int|
                    0 <= t < ne ==> (#[trigger] ev_inps@[t]).wf() && ev_inps@[t]@.q
                        == c.evaluator_input_mods@[t],
            decreases ne - b,
        {
            wires.push(ev_inps[b].duplicate());
            b = b + 1;
        }
        proof {
            lemma_gb_inputs_run_extends(seed, gb_init(), c.garbler_input_mods@);
            lemma_gb_inputs_run_extends(seed, t1, c.evaluator_input_mods@);
            assert(t1.wires.len() == ng);
            assert(t2.wires.len() == ng + ne);
            assert forall|t: int| 0 <= t < ng + ne implies wires@.map(|tt: int, w: Wire| w@)[t]
                == t2.wires[t] by {
                let cat = gb_inps@.map(|tt: int, w: Wire| w@) + ev_inps@.map(
                    |tt: int, w: Wire| w@,
                );
                assert(cat == t2.wires);
                if t < ng {
                    assert(wires@[t]@ == gb_inps@[t]@);
                    assert(cat[t] == gb_inps@[t]@);
                } else {
                    let tp = t - ng;
                    assert(wires@[ng + tp]@ == ev_inps@[tp]@);
                    assert(cat[t] == ev_inps@[tp]@);
                }
            }
            assert(wires@.map(|t: int, w: Wire| w@) =~= t2.wires);
            assert(mods_after(*c, 0) == input_mods(*c));
            assert forall|t: int| 0 <= t < wires@.len() implies (#[trigger] wires@[t]).wf()
                && wires@[t]@.q == mods_after(*c, 0)[t] by {
                if t < ng {
                    assert(input_mods(*c)[t] == c.garbler_input_mods@[t]);
                    assert(wires@[t]@ == gb_inps@[t]@ && wires@[t].wf());
                } else {
                    let tp = t - ng;
                    assert(input_mods(*c)[ng + tp] == c.evaluator_input_mods@[tp]);
                    assert(wires@[ng + tp]@ == ev_inps@[tp]@ && wires@[ng + tp].wf());
                }
            }
            assert(c.gates@.take(0) =~= Seq::<Gate>::empty());
        }
        let nk = c.gates.len();
        let mut g: usize = 0;
        while g < nk
            invariant
                g <= nk,
                nk == c.gates@.len(),
                circuit_wf(*c),
                gb@.rng.seed == seed,
                gb@.rng.ctr == gb_run(seed, t2, c.gates@.take(g as int)).ctr,
                gb@.gate == gb_run(seed, t2, c.gates@.take(g as int)).gate,
                gb@.out == gb_run(seed, t2, c.gates@.take(g as int)).out,
                gb@.chan.written == gb_run(seed, t2, c.gates@.take(g as int)).stream,
                gb@.chan.unread == Seq::<u8>::empty(),
                t2.stream == Seq::<u8>::empty(),
                wires@.map(|t: int, w: Wire| w@) == gb_run(seed, t2, c.gates@.take(g as int)).wires,
                wires@.len() == mods_after(*c, g as nat).len(),
                forall|t: int|
                    0 <= t < wires@.len() ==> (#[trigger] wires@[t]).wf() && wires@[t]@.q
                        == mods_after(*c, g as nat)[t],
            decreases nk - g,
        {
            proof {
                lemma_gb_run_snoc(seed, t2, c.gates@, g as int);
                assert(gate_ok(c.gates@[g as int], mods_after(*c, g as nat)));
            }
            let ghost tr = gb_run(seed, t2, c.gates@.take(g as int));
            match &c.gates[g] {
                Gate::Add(x, y) => {
                    let w = gb.add(&wires[*x], &wires[*y]);
                    wires.push(w);
                },
                Gate::Sub(x, y) => {
                    let w = gb.sub(&wires[*x], &wires[*y]);
                    wires.push(w);
                },
                Gate::Cmul(x, cc) => {
                    let w = gb.cmul(&wires[*x], *cc);
                    wires.push(w);
                },
                Gate::Mul(x, y) => {
                    let w = gb.mul(&wires[*x], &wires[*y]);
                    wires.push(w);
                },
                Gate::Proj(x, q_out, tt) => {
                    let w = gb.proj(&wires[*x], *q_out, tt);
                    wires.push(w);
                },
                Gate::Const(x, q) => {
                    let w = gb.constant(*x, *q);
                    wires.push(w);
                },
                Gate::Output(wi) => {
                    gb.output(&wires[*wi]);
                },
            }
            g = g + 1;
            proof {
                assert(wires@.map(|t: int, w: Wire| w@) =~= gb_run(
                    seed,
                    t2,
                    c.gates@.take(g as int),
                ).wires);
            }
        }
        proof {
            assert(c.gates@.take(nk as int) =~= c.gates@);
        }
        let mut ch = gb.into_channel();
        let data = ch.take_written();
        let en = Encoder::new(gb_inps, ev_inps, deltas);
        let gc = GarbledCircuit::new(data);
        proof {
            assert forall|t: int| 0 <= t < en.gb_view().len() implies wire_wf(
                #[trigger] en.gb_view()[t],
            ) && en.delta_view(en.gb_view()[t].q) == Some(en.delta_for(en.gb_view()[t].q))
                && wire_wf(en.delta_for(en.gb_view()[t].q)) && en.delta_for(en.gb_view()[t].q).q
                == en.gb_view()[t].q by {
                let qq = en.gb_view()[t].q;
                assert(input_mods(*c)[t] == c.garbler_input_mods@[t]);
                assert(has_mod(input_mods(*c), qq));
            }
            assert forall|t: int| 0 <= t < en.ev_view().len() implies wire_wf(
                #[trigger] en.ev_view()[t],
            ) && en.delta_view(en.ev_view()[t].q) == Some(en.delta_for(en.ev_view()[t].q))
                && wire_wf(en.delta_for(en.ev_view()[t].q)) && en.delta_for(en.ev_view()[t].q).q
                == en.ev_view()[t].q by {
                let ng_ = c.garbler_input_mods@.len();
                assert(input_mods(*c)[ng_ + t] == c.evaluator_input_mods@[t]);
                assert(has_mod(input_mods(*c), en.ev_view()[t].q));
            }
        }
        Ok((en, gc))
    }


/// The evaluator's trace while it walks a circuit: the labels it has
/// derived, the garbled bytes not yet consumed, the counters, and the
/// decoded outputs.
pub ghost struct EvTrace {
    pub wires: Seq<WireView>,
    pub unread: Seq<u8>,
    pub gate: u64,
    pub out: u64,
    pub outputs: Seq<u16>,
}

/// The trace evaluation starts from: the input labels and the whole
/// garbled stream.
pub open spec fn ev_init(inputs: Seq<WireView>, data: Seq<u8>) -> EvTrace {
    EvTrace { wires: inputs, unread: data, gate: 0, out: 0, outputs: Seq::empty() }
}

/// The evaluator's effect of one gate on its trace, or the error that stops
/// the session.
pub open spec fn ev_step(t: EvTrace, g: Gate) -> Result<EvTrace, EvaluatorError> {
    match g {
        Gate::Add(a, b) => Ok(
            EvTrace {
                wires: t.wires.push(
                    WireView {
                        q: t.wires[a as int].q,
                        ds: add_digits(
                            t.wires[a as int].ds,
                            t.wires[b as int].ds,
                            t.wires[a as int].q,
                        ),
                    },
                ),
                unread: t.unread,
                gate: t.gate,
                out: t.out,
                outputs: t.outputs,
            },
        ),
        Gate::Sub(a, b) => Ok(
            EvTrace {
                wires: t.wires.push(
                    WireView {
                        q: t.wires[a as int].q,
                        ds: sub_digits(
                            t.wires[a as int].ds,
                            t.wires[b as int].ds,
                            t.wires[a as int].q,
                        ),
                    },
                ),
                unread: t.unread,
                gate: t.gate,
                out: t.out,
                outputs: t.outputs,
            },
        ),
        Gate::Cmul(a, cc) => Ok(
            EvTrace {
                wires: t.wires.push(
                    WireView {
                        q: t.wires[a as int].q,
                        ds: cmul_digits(t.wires[a as int].ds, cc as int, t.wires[a as int].q),
                    },
                ),
                unread: t.unread,
                gate: t.gate,
                out: t.out,
                outputs: t.outputs,
            },
        ),
        Gate::Const(x, q) => Ok(
            EvTrace {
                wires: t.wires.push(wire_from_block_of(0, q as int)),
                unread: t.unread,
                gate: t.gate,
                out: t.out,
                outputs: t.outputs,
            },
        ),
        Gate::Mul(a, b) => if t.unread.len() < 16 * (t.wires[a as int].q * t.wires[a as int].q) {
            Err(EvaluatorError::TruncatedData)
        } else {
            Ok(
                EvTrace {
                    wires: t.wires.push(
                        wire_from_block_of(
                            bytes_to_blocks(
                                t.unread.take(16 * (t.wires[a as int].q * t.wires[a as int].q)),
                            )[color_of(t.wires[a as int]) * t.wires[a as int].q + color_of(
                                t.wires[b as int],
                            )] ^ hash_block2_of(
                                block_of(t.wires[a as int]),
                                block_of(t.wires[b as int]),
                                tweak_gate(t.gate),
                            ),
                            t.wires[a as int].q,
                        ),
                    ),
                    unread: t.unread.skip(16 * (t.wires[a as int].q * t.wires[a as int].q)),
                    gate: wrap64(t.gate + 1) as u64,
                    out: t.out,
                    outputs: t.outputs,
                },
            )
        },
        Gate::Proj(a, q_out, tt) => if t.unread.len() < 16 * t.wires[a as int].q {
            Err(EvaluatorError::TruncatedData)
        } else {
            Ok(
                EvTrace {
                    wires: t.wires.push(
                        wire_from_block_of(
                            bytes_to_blocks(t.unread.take(16 * t.wires[a as int].q))[color_of(
                                t.wires[a as int],
                            ) as int] ^ hash_block_of(
                                block_of(t.wires[a as int]),
                                tweak_gate(t.gate),
                            ),
                            q_out as int,
                        ),
                    ),
                    unread: t.unread.skip(16 * t.wires[a as int].q),
                    gate: wrap64(t.gate + 1) as u64,
                    out: t.out,
                    outputs: t.outputs,
                },
            )
        },
        Gate::Output(w) => if t.unread.len() < 16 * t.wires[w as int].q {
            Err(EvaluatorError::TruncatedData)
        } else {
            match decode_of(
                bytes_to_blocks(t.unread.take(16 * t.wires[w as int].q)),
                hash_block_of(block_of(t.wires[w as int]), tweak_output(t.out)),
            ) {
                Some(v) => Ok(
                    EvTrace {
                        wires: t.wires,
                        unread: t.unread.skip(16 * t.wires[w as int].q),
                        gate: t.gate,
                        out: wrap64(t.out + 1) as u64,
                        outputs: t.outputs.push(v),
                    },
                ),
                None => Err(EvaluatorError::DecodeFailed),
            }
        },
    }
}

/// The evaluator's trace after a whole gate list, or the first error.
pub open spec fn ev_run(t: EvTrace, gates: Seq<Gate>) -> Result<EvTrace, EvaluatorError>
    decreases gates.len(),
{
    if gates.len() == 0 {
        Ok(t)
    } else {
        match ev_step(t, gates[0]) {
            Ok(t2) => ev_run(t2, gates.drop_first()),
            Err(e) => Err(e),
        }
    }
}

/// Running one more gate steps the trace once.
pub proof fn lemma_ev_run_snoc(t: EvTrace, gates: Seq<Gate>, i: int)
    requires
        0 <= i < gates.len(),
        ev_run(t, gates.take(i)) is Ok,
    ensures
        ev_run(t, gates.take(i + 1)) == ev_step(ev_run(t, gates.take(i))->Ok_0, gates[i]),
    decreases i,
{
    if i == 0 {
        assert(gates.take(1) =~= seq![gates[0]]);
        assert(seq![gates[0]].drop_first() =~= Seq::<Gate>::empty());
        assert(gates.take(0) =~= Seq::<Gate>::empty());
        if ev_step(t, gates[0]) is Ok {
            assert(ev_run(ev_step(t, gates[0])->Ok_0, Seq::<Gate>::empty()) == Ok::<
                EvTrace,
                EvaluatorError,
            >(ev_step(t, gates[0])->Ok_0));
        }
    } else {
        assert(gates.take(i + 1)[0] == gates[0]);
        assert(gates.take(i)[0] == gates[0]);
        assert(gates.take(i + 1).drop_first() =~= gates.drop_first().take(i));
        assert(gates.take(i).drop_first() =~= gates.drop_first().take(i - 1));
        assert(ev_step(t, gates[0]) is Ok);
        lemma_ev_run_snoc(ev_step(t, gates[0])->Ok_0, gates.drop_first(), i - 1);
        assert(gates.drop_first()[i - 1] == gates[i]);
    }
}

/// An error in a prefix is the error of the whole run.
pub proof fn lemma_ev_run_err(t: EvTrace, gates: Seq<Gate>, i: int)
    requires
        0 <= i <= gates.len(),
        ev_run(t, gates.take(i)) is Err,
    ensures
        ev_run(t, gates) == ev_run(t, gates.take(i)),
    decreases gates.len(),
{
    assert(i > 0) by {
        assert(gates.take(0) =~= Seq::<Gate>::empty());
        if i == 0 {
            assert(ev_run(t, gates.take(0)) is Ok);
        }
    }
    assert(gates.take(i)[0] == gates[0]);
    if ev_step(t, gates[0]) is Err {
    } else {
        assert(gates.take(i).drop_first() =~= gates.drop_first().take(i - 1));
        lemma_ev_run_err(ev_step(t, gates[0])->Ok_0, gates.drop_first(), i - 1);
    }
}

/// The input labels fit a circuit: right counts, well-formed, right moduli.
pub open spec fn inputs_ok(c: Circuit, gvs: Seq<WireView>, evs: Seq<WireView>) -> bool {
    &&& gvs.len() == c.garbler_input_mods@.len()
    &&& evs.len() == c.evaluator_input_mods@.len()
    &&& forall|i: int|
        0 <= i < gvs.len() ==> wire_wf(#[trigger] gvs[i]) && gvs[i].q
            == c.garbler_input_mods@[i] as int
    &&& forall|i: int|
        0 <= i < evs.len() ==> wire_wf(#[trigger] evs[i]) && evs[i].q
            == c.evaluator_input_mods@[i] as int
}

/// What evaluating garbled data decodes to, or the first error.
pub open spec fn eval_spec(c: Circuit, data: Seq<u8>, gvs: Seq<WireView>, evs: Seq<WireView>)
    -> Result<Seq<u16>, EvaluatorError> {
    match ev_run(ev_init(gvs + evs, data), c.gates@) {
        Ok(t) => Ok(t.outputs),
        Err(e) => Err(e),
    }
}

impl GarbledCircuit {
    /// Evaluate the garbled circuit on encoded input labels, decoding each
    /// output gate. Fails on an ill-formed circuit, on input labels that do
    /// not fit it, on garbled data that runs out, and on an output label
    /// that matches no decoding row.
    #[verifier::rlimit(100)]
    pub fn eval(&self, c: &Circuit, garbler_inputs: &Vec<Wire>, evaluator_inputs: &Vec<Wire>) -> (r:
        Result<Vec<u16>, EvaluatorError>)
        ensures
            !circuit_wf(*c) ==> r == Err::<Vec<u16>, EvaluatorError>(EvaluatorError::InvalidCircuit),
            circuit_wf(*c) && !inputs_ok(
                *c,
                garbler_inputs@.map(|i: int, w: Wire| w@),
                evaluator_inputs@.map(|i: int, w: Wire| w@),
            ) ==> r == Err::<Vec<u16>, EvaluatorError>(EvaluatorError::WrongInputCount),
            circuit_wf(*c) && inputs_ok(
                *c,
                garbler_inputs@.map(|i: int, w: Wire| w@),
                evaluator_inputs@.map(|i: int, w: Wire| w@),
            ) ==> ((r matches Ok(v) ==> eval_spec(
                *c,
                self@,
                garbler_inputs@.map(|i: int, w: Wire| w@),
                evaluator_inputs@.map(|i: int, w: Wire| w@),
            ) == Ok::<Seq<u16>, EvaluatorError>(v@)) && (r matches Err(e) ==> eval_spec(
                *c,
                self@,
                garbler_inputs@.map(|i: int, w: Wire| w@),
                evaluator_inputs@.map(|i: int, w: Wire| w@),
            ) == Err::<Seq<u16>, EvaluatorError>(e))),
    {
        if !c.wf_check() {
            return Err(EvaluatorError::InvalidCircuit);
        }
        let ng = c.garbler_input_mods.len();
        let ne = c.evaluator_input_mods.len();
        if garbler_inputs.len() != ng || evaluator_inputs.len() != ne {
            return Err(EvaluatorError::WrongInputCount);
        }
        let mut i: usize = 0;
        while i < ng
            invariant
                i <= ng,
                circuit_wf(*c),
                ng == c.garbler_input_mods@.len(),
                ng == garbler_inputs@.len(),
                forall|j: int|
                    0 <= j < i ==> (#[trigger] garbler_inputs@[j]).wf() && garbler_inputs@[j]@.q
                        == c.garbler_input_mods@[j] as int,
            decreases ng - i,
        {
            if !garbler_inputs[i].wf_check() || garbler_inputs[i].modulus()
                != c.garbler_input_mods[i] {
                proof {
                    assert(garbler_inputs@.map(|t: int, w: Wire| w@)[i as int]
                        == garbler_inputs@[i as int]@);
                }
                return Err(EvaluatorError::WrongInputCount);
            }
            i = i + 1;
        }
        let mut j: usize = 0;
        while j < ne
            invariant
                j <= ne,
                circuit_wf(*c),
                ne == c.evaluator_input_mods@.len(),
                ne == evaluator_inputs@.len(),
                forall|t: int|
                    0 <= t < j ==> (#[trigger] evaluator_inputs@[t]).wf() && evaluator_inputs@[t]@.q
                        == c.evaluator_input_mods@[t] as int,
            decreases ne - j,
        {
            if !evaluator_inputs[j].wf_check() || evaluator_inputs[j].modulus()
                != c.evaluator_input_mods[j] {
                proof {
                    assert(evaluator_inputs@.map(|t: int, w: Wire| w@)[j as int]
                        == evaluator_inputs@[j as int]@);
                }
                return Err(EvaluatorError::WrongInputCount);
            }
            j = j + 1;
        }
        let ghost gvs = garbler_inputs@.map(|t: int, w: Wire| w@);
        let ghost evs = evaluator_inputs@.map(|t: int, w: Wire| w@);
        proof {
            assert(inputs_ok(*c, gvs, evs));
        }
        let mut data_copy: Vec<u8> = Vec::new();
        crate::hash_channel::append_bytes(&mut data_copy, self.data.as_slice());
        let mut ev = Evaluator::new(Channel::new(data_copy, Vec::new()));
        let ghost t0 = ev_init(gvs + evs, self@);
        let mut wires: Vec<Wire> = Vec::new();
        let mut a: usize = 0;
        while a < ng
            invariant
                a <= ng,
                ng == garbler_inputs@.len(),
                wires@.len() == a,
                forall|t: int|
                    0 <= t < a ==> (#[trigger] wires@[t])@ == garbler_inputs@[t]@ && wires@[t].wf(),
                forall|t: int|
                    0 <= t < ng ==> (#[trigger] garbler_inputs@[t]).wf() && garbler_inputs@[t]@.q
                        == c.garbler_input_mods@[t] as int,
            decreases ng - a,
        {
            wires.push(garbler_inputs[a].duplicate());
            a = a + 1;
        }
        let mut b: usize = 0;
        while b < ne
            invariant
                b <= ne,
                ne == evaluator_inputs@.len(),
                ng == garbler_inputs@.len(),
                wires@.len() == ng + b,
                forall|t: int|
                    0 <= t < ng ==> (#[trigger] wires@[t])@ == garbler_inputs@[t]@
                        && wires@[t].wf(),
                forall|t: int|
                    0 <= t < b ==> (#[trigger] wires@[ng + t])@ == evaluator_inputs@[t]@ && wires@[
                        ng + t].wf(),
                forall|t: int|
                    0 <= t < ne ==> (#[trigger] evaluator_inputs@[t]).wf()
                        && evaluator_inputs@[t]@.q == c.evaluator_input_mods@[t] as int,
            decreases ne - b,
        {
            wires.push(evaluator_inputs[b].duplicate());
            b = b + 1;
        }
        let mut outputs: Vec<u16> = Vec::new();
        proof {
            assert forall|t: int| 0 <= t < ng + ne implies wires@.map(|tt: int, w: Wire| w@)[t]
                == t0.wires[t] by {
                if t < ng {
                    assert(wires@[t]@ == garbler_inputs@[t]@);
                    assert((gvs + evs)[t] == gvs[t]);
                } else {
                    let tp = t - ng;
                    assert(wires@[ng + tp]@ == evaluator_inputs@[tp]@);
                    assert((gvs + evs)[ng + tp] == evs[tp]);
                }
            }
            assert(wires@.map(|t: int, w: Wire| w@) =~= t0.wires);
            assert(mods_after(*c, 0) == input_mods(*c));
            assert forall|t: int| 0 <= t < wires@.len() implies (#[trigger] wires@[t]).wf()
                && wires@[t]@.q == mods_after(*c, 0)[t] as int by {
                if t < ng {
                    assert(input_mods(*c)[t] == c.garbler_input_mods@[t]);
                    assert(wires@[t]@ == garbler_inputs@[t]@ && wires@[t].wf());
                } else {
                    let tp = t - ng;
                    assert(input_mods(*c)[ng + tp] == c.evaluator_input_mods@[tp]);
                    assert(wires@[ng + tp]@ == evaluator_inputs@[tp]@ && wires@[ng + tp].wf());
                }
            }
            assert(c.gates@.take(0) =~= Seq::<Gate>::empty());
        }
        let nk = c.gates.len();
        let mut g: usize = 0;
        while g < nk
            invariant
                g <= nk,
                nk == c.gates@.len(),
                circuit_wf(*c),
                gvs == garbler_inputs@.map(|t: int, w: Wire| w@),
                evs == evaluator_inputs@.map(|t: int, w: Wire| w@),
                inputs_ok(*c, gvs, evs),
                t0 == ev_init(gvs + evs, self@),
                ev_run(t0, c.gates@.take(g as int)) is Ok,
                ev@.chan.unread == ev_run(t0, c.gates@.take(g as int))->Ok_0.unread,
                ev@.chan.written == Seq::<u8>::empty(),
                ev@.gate == ev_run(t0, c.gates@.take(g as int))->Ok_0.gate,
                ev@.out == ev_run(t0, c.gates@.take(g as int))->Ok_0.out,
                wires@.map(|t: int, w: Wire| w@) == ev_run(t0, c.gates@.take(g as int))->Ok_0.wires,
                outputs@ == ev_run(t0, c.gates@.take(g as int))->Ok_0.outputs,
                wires@.len() == mods_after(*c, g as nat).len(),
                forall|t: int|
                    0 <= t < wires@.len() ==> (#[trigger] wires@[t]).wf() && wires@[t]@.q
                        == mods_after(*c, g as nat)[t] as int,
            decreases nk - g,
        {
            proof {
                lemma_ev_run_snoc(t0, c.gates@, g as int);
                assert(gate_ok(c.gates@[g as int], mods_after(*c, g as nat)));
            }
            let ghost tr = ev_run(t0, c.gates@.take(g as int))->Ok_0;
            match &c.gates[g] {
                Gate::Add(x, y) => {
                    let w = ev.add(&wires[*x], &wires[*y]);
                    wires.push(w);
                },
                Gate::Sub(x, y) => {
                    let w = ev.sub(&wires[*x], &wires[*y]);
                    wires.push(w);
                },
                Gate::Cmul(x, cc) => {
                    let w = ev.cmul(&wires[*x], *cc);
                    wires.push(w);
                },
                Gate::Const(_x, q) => {
                    let w = ev.constant(*q);
                    wires.push(w);
                },
                Gate::Mul(x, y) => {
                    match ev.mul(&wires[*x], &wires[*y]) {
                        Ok(w) => {
                            wires.push(w);
                        },
                        Err(e) => {
                            proof {
                                lemma_ev_run_err(t0, c.gates@, g + 1);
                                assert(c.gates@.take(nk as int) =~= c.gates@);
                            }
                            return Err(e);
                        },
                    }
                },
                Gate::Proj(x, q_out, _tt) => {
                    match ev.proj(&wires[*x], *q_out) {
                        Ok(w) => {
                            wires.push(w);
                        },
                        Err(e) => {
                            proof {
                                lemma_ev_run_err(t0, c.gates@, g + 1);
                                assert(c.gates@.take(nk as int) =~= c.gates@);
                            }
                            return Err(e);
                        },
                    }
                },
                Gate::Output(wi) => {
                    match ev.output(&wires[*wi]) {
                        Ok(Some(v)) => {
                            outputs.push(v);
                        },
                        Ok(None) => {
                            proof {
                                lemma_ev_run_err(t0, c.gates@, g + 1);
                                assert(c.gates@.take(nk as int) =~= c.gates@);
                            }
                            return Err(EvaluatorError::DecodeFailed);
                        },
                        Err(e) => {
                            proof {
                                lemma_ev_run_err(t0, c.gates@, g + 1);
                                assert(c.gates@.take(nk as int) =~= c.gates@);
                            }
                            return Err(e);
                        },
                    }
                },
            }
            g = g + 1;
            proof {
                assert(wires@.map(|t: int, w: Wire| w@) =~= ev_run(
                    t0,
                    c.gates@.take(g as int),
                )->Ok_0.wires);
            }
        }
        proof {
            assert(c.gates@.take(nk as int) =~= c.gates@);
        }
        Ok(outputs)
    }
}


} // verus!
