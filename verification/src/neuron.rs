//! The leaky integrate-and-fire neuron and its fault-aware arithmetic.

use vstd::prelude::*;
use crate::errors::{ConfErr, ErrorComponent, Type};
use crate::unit::{computes, total, FloatOp};
use crate::word::{
    corrupt_bit, corrupted, exceeds, greater, lemma_stuck_idempotent, negate, negated, word_of,
    word_of_input, ONE,
};

verus! {

/// The word of the membrane's time constant, a tenth.
pub const TAU: u64 = 0x3FB9_9999_9999_999A;

/// A neuron: its potentials and its synaptic weights, all as words.
#[derive(Clone, Debug)]
pub struct Neuron {
    /// Unique within the network.
    pub id: usize,
    /// The membrane potential, which changes at every instant.
    pub v_mem: u64,
    /// The potential towards which the membrane leaks.
    pub v_rest: u64,
    /// The potential above which the neuron fires.
    pub v_threshold: u64,
    /// The potential that the membrane takes after firing.
    pub v_reset: u64,
    /// The time since the previous update.
    pub delta_t: u64,
    /// One weight for each neuron of the preceding layer.
    pub connections_prec_layer: Vec<u64>,
    /// One weight for each neuron of the neuron's own layer.
    pub connections_same_layer: Vec<u64>,
}

/// A neuron as a mathematical value.
pub struct NeuronState {
    pub id: usize,
    pub v_mem: u64,
    pub v_rest: u64,
    pub v_threshold: u64,
    pub v_reset: u64,
    pub delta_t: u64,
    pub prec: Seq<u64>,
    pub same: Seq<u64>,
}

impl View for Neuron {
    type V = NeuronState;

    open spec fn view(&self) -> NeuronState {
        NeuronState {
            id: self.id,
            v_mem: self.v_mem,
            v_rest: self.v_rest,
            v_threshold: self.v_threshold,
            v_reset: self.v_reset,
            delta_t: self.delta_t,
            prec: self.connections_prec_layer@,
            same: self.connections_same_layer@,
        }
    }
}

/// The result `raw` of an operation after the fault has had its way: struck
/// if the fault is at work (`flag`) and sits in this operation (`comp`),
/// untouched otherwise.
pub open spec fn faulted(raw: u64, error: ConfErr, flag: bool, comp: ErrorComponent) -> u64 {
    if flag && error.err_comp == comp {
        corrupted(raw, error.n_bit, error.err_type)
    } else {
        raw
    }
}

/// What the adder gives for `a + b` under the fault.
pub open spec fn added(a: u64, b: u64, error: ConfErr, flag: bool, o: spec_fn(FloatOp) -> u64) -> u64 {
    faulted(o(FloatOp::Add(a, b)), error, flag, ErrorComponent::Adder)
}

/// What the multiplier gives for `a * b` under the fault.
pub open spec fn multiplied(a: u64, b: u64, error: ConfErr, flag: bool, o: spec_fn(FloatOp) -> u64) -> u64 {
    faulted(o(FloatOp::Mul(a, b)), error, flag, ErrorComponent::Multiplier)
}

/// Strikes the result of an operation if the fault is at work in it.
pub fn apply_fault(raw: u64, error: &ConfErr, flag: bool, comp: ErrorComponent) -> (r: u64)
    ensures
        r == faulted(raw, *error, flag, comp),
{
    if flag && error.err_comp == comp {
        corrupt_bit(raw, error.n_bit, error.err_type)
    } else {
        raw
    }
}

/// Adds two numbers in an adder that the fault may sit in.
pub fn adder<F: Fn(FloatOp) -> u64>(a: u64, b: u64, error: &ConfErr, flag: bool, fpu: &F) -> (r: u64)
    requires
        total(*fpu),
    ensures
        forall|o: spec_fn(FloatOp) -> u64| #[trigger]
            computes(*fpu, o) ==> r == added(a, b, *error, flag, o),
{
    let raw: u64 = fpu(FloatOp::Add(a, b));
    apply_fault(raw, error, flag, ErrorComponent::Adder)
}

/// Multiplies two numbers in a multiplier that the fault may sit in.
pub fn multiplier<F: Fn(FloatOp) -> u64>(a: u64, b: u64, error: &ConfErr, flag: bool, fpu: &F) -> (r: u64)
    requires
        total(*fpu),
    ensures
        forall|o: spec_fn(FloatOp) -> u64| #[trigger]
            computes(*fpu, o) ==> r == multiplied(a, b, *error, flag, o),
{
    let raw: u64 = fpu(FloatOp::Mul(a, b));
    apply_fault(raw, error, flag, ErrorComponent::Multiplier)
}

/// The neuron after the fault struck the stored quantity it names. A fault
/// in an arithmetic operation leaves what is stored alone, and so does one
/// in the weights of a neuron without weights.
pub open spec fn struck(n: NeuronState, error: ConfErr) -> NeuronState {
    match error.err_comp {
        ErrorComponent::Threshold => NeuronState {
            v_threshold: corrupted(n.v_threshold, error.n_bit, error.err_type),
            ..n
        },
        ErrorComponent::VRest => NeuronState {
            v_rest: corrupted(n.v_rest, error.n_bit, error.err_type),
            ..n
        },
        ErrorComponent::VMem => NeuronState {
            v_mem: corrupted(n.v_mem, error.n_bit, error.err_type),
            ..n
        },
        ErrorComponent::VReset => NeuronState {
            v_reset: corrupted(n.v_reset, error.n_bit, error.err_type),
            ..n
        },
        ErrorComponent::Weights => {
            let count = n.prec.len() + n.same.len();
            if count == 0 {
                n
            } else {
                let k = (error.w_pos as int) % (count as int);
                if k < n.prec.len() {
                    NeuronState {
                        prec: n.prec.update(k, corrupted(n.prec[k], error.n_bit, error.err_type)),
                        ..n
                    }
                } else {
                    let j = k - n.prec.len();
                    NeuronState {
                        same: n.same.update(j, corrupted(n.same[j], error.n_bit, error.err_type)),
                        ..n
                    }
                }
            }
        },
        ErrorComponent::Multiplier => n,
        ErrorComponent::Adder => n,
    }
}

/// A stuck bit of a stored quantity stays as it is when the same fault
/// strikes the neuron again.
pub proof fn lemma_struck_idempotent(n: NeuronState, error: ConfErr)
    requires
        error.err_type == Type::Stuck0 || error.err_type == Type::Stuck1,
    ensures
        struck(struck(n, error), error) == struck(n, error),
{
    let once = struck(n, error);
    let twice = struck(once, error);
    lemma_stuck_idempotent(n.v_threshold, error.n_bit, error.err_type);
    lemma_stuck_idempotent(n.v_rest, error.n_bit, error.err_type);
    lemma_stuck_idempotent(n.v_mem, error.n_bit, error.err_type);
    lemma_stuck_idempotent(n.v_reset, error.n_bit, error.err_type);
    if error.err_comp == ErrorComponent::Weights && n.prec.len() + n.same.len() > 0 {
        let count = n.prec.len() + n.same.len();
        let k = (error.w_pos as int) % (count as int);
        if k < n.prec.len() {
            lemma_stuck_idempotent(n.prec[k], error.n_bit, error.err_type);
            assert(twice.prec =~= once.prec);
        } else {
            let j = k - n.prec.len();
            lemma_stuck_idempotent(n.same[j], error.n_bit, error.err_type);
            assert(twice.same =~= once.same);
        }
    }
}

/// A copy of a row of words.
fn copy_words(words: &Vec<u64>) -> (r: Vec<u64>)
    ensures
        r@ == words@,
{
    let r = words.clone();
    assert(r@ =~= words@);
    r
}

impl Neuron {
    /// A neuron like this one, to be updated apart from it.
    pub fn duplicate(&self) -> (copy: Neuron)
        ensures
            copy@ == self@,
    {
        Neuron {
            id: self.id,
            v_mem: self.v_mem,
            v_rest: self.v_rest,
            v_threshold: self.v_threshold,
            v_reset: self.v_reset,
            delta_t: self.delta_t,
            connections_prec_layer: copy_words(&self.connections_prec_layer),
            connections_same_layer: copy_words(&self.connections_same_layer),
        }
    }

    /// Strikes the stored quantity that the fault names.
    pub fn neuron_create_error(&mut self, error: &ConfErr)
        ensures
            final(self)@ == struck(old(self)@, *error),
    {
        match error.err_comp {
            ErrorComponent::Threshold => {
                self.v_threshold = corrupt_bit(self.v_threshold, error.n_bit, error.err_type);
            },
            ErrorComponent::VRest => {
                self.v_rest = corrupt_bit(self.v_rest, error.n_bit, error.err_type);
            },
            ErrorComponent::VMem => {
                self.v_mem = corrupt_bit(self.v_mem, error.n_bit, error.err_type);
            },
            ErrorComponent::VReset => {
                self.v_reset = corrupt_bit(self.v_reset, error.n_bit, error.err_type);
            },
            ErrorComponent::Weights => {
                let before: usize = self.connections_prec_layer.len();
                let within: usize = self.connections_same_layer.len();
                if before > 0 || within > 0 {
                    let count: u128 = before as u128 + within as u128;
                    let k: u128 = (error.w_pos as u128) % count;
                    if k < before as u128 {
                        let i: usize = k as usize;
                        let w: u64 = corrupt_bit(
                            self.connections_prec_layer[i],
                            error.n_bit,
                            error.err_type,
                        );
                        self.connections_prec_layer.set(i, w);
                        assert(self@.prec =~= struck(old(self)@, *error).prec);
                    } else {
                        let j: usize = (k - before as u128) as usize;
                        let w: u64 = corrupt_bit(
                            self.connections_same_layer[j],
                            error.n_bit,
                            error.err_type,
                        );
                        self.connections_same_layer.set(j, w);
                        assert(self@.same =~= struck(old(self)@, *error).same);
                    }
                }
            },
            ErrorComponent::Multiplier => {},
            ErrorComponent::Adder => {},
        }
    }
}

/// The factor by which the membrane's distance from rest shrinks over the
/// time `delta_t`: the exponential of `-delta_t / TAU`.
pub open spec fn decay(delta_t: u64, o: spec_fn(FloatOp) -> u64) -> u64 {
    o(FloatOp::Exp(o(FloatOp::Div(negated(delta_t), TAU))))
}

/// The membrane potential after the leak towards rest.
pub open spec fn leaked(n: NeuronState, error: ConfErr, flag: bool, o: spec_fn(FloatOp) -> u64) -> u64 {
    let diff = added(n.v_mem, negated(n.v_rest), error, flag, o);
    let rest = multiplied(diff, decay(n.delta_t, o), error, flag, o);
    added(n.v_rest, rest, error, flag, o)
}

/// The potential `v` after the first `k` inputs, each multiplied by its
/// weight, were added to it one after the other.
pub open spec fn integrated(
    v: u64,
    inputs: Seq<u8>,
    weights: Seq<u64>,
    k: nat,
    error: ConfErr,
    flag: bool,
    o: spec_fn(FloatOp) -> u64,
) -> u64
    decreases k,
{
    if k == 0 {
        v
    } else {
        let before = integrated(v, inputs, weights, (k - 1) as nat, error, flag, o);
        let term = multiplied(word_of(inputs[k - 1]), weights[k - 1], error, flag, o);
        added(before, term, error, flag, o)
    }
}

/// One update of a neuron: the neuron afterwards and the spike it emits.
///
/// If the fault is at work in this neuron at this instant, the stored
/// quantity it names is struck first. Then the membrane leaks towards rest,
/// takes in the weighted spikes of the preceding layer and those of its own
/// layer, and fires if it has risen above the threshold, in which case it
/// falls to the reset potential.
pub open spec fn lif_spec(
    n: NeuronState,
    inputs_prec: Seq<u8>,
    inputs_same: Seq<u8>,
    error: ConfErr,
    time: i32,
    o: spec_fn(FloatOp) -> u64,
) -> (NeuronState, u8) {
    let hit = error.strikes(n.id, time);
    let flag = hit && error.in_arithmetic();
    let n1 = if hit { struck(n, error) } else { n };
    let v1 = leaked(n1, error, flag, o);
    let v2 = integrated(v1, inputs_prec, n1.prec, inputs_prec.len(), error, flag, o);
    let v3 = integrated(v2, inputs_same, n1.same, inputs_same.len(), error, flag, o);
    if greater(v3, n1.v_threshold) {
        (NeuronState { v_mem: n1.v_reset, delta_t: ONE, ..n1 }, 1u8)
    } else {
        (NeuronState { v_mem: v3, delta_t: ONE, ..n1 }, 0u8)
    }
}

/// Where the fault is not at work, which fault it is makes no difference
/// to what the inputs add to the potential.
pub proof fn lemma_integrated_unfaulted(
    v: u64,
    inputs: Seq<u8>,
    weights: Seq<u64>,
    k: nat,
    first: ConfErr,
    second: ConfErr,
    o: spec_fn(FloatOp) -> u64,
)
    ensures
        integrated(v, inputs, weights, k, first, false, o) == integrated(
            v,
            inputs,
            weights,
            k,
            second,
            false,
            o,
        ),
    decreases k,
{
    if k > 0 {
        lemma_integrated_unfaulted(v, inputs, weights, (k - 1) as nat, first, second, o);
    }
}

/// A neuron that neither of two faults is at work in is updated alike
/// under both.
pub proof fn lemma_lif_unstruck(
    n: NeuronState,
    inputs_prec: Seq<u8>,
    inputs_same: Seq<u8>,
    first: ConfErr,
    second: ConfErr,
    time: i32,
    o: spec_fn(FloatOp) -> u64,
)
    requires
        !first.strikes(n.id, time),
        !second.strikes(n.id, time),
    ensures
        lif_spec(n, inputs_prec, inputs_same, first, time, o) == lif_spec(
            n,
            inputs_prec,
            inputs_same,
            second,
            time,
            o,
        ),
{
    let v1 = leaked(n, first, false, o);
    assert(v1 == leaked(n, second, false, o));
    lemma_integrated_unfaulted(v1, inputs_prec, n.prec, inputs_prec.len(), first, second, o);
    let v2 = integrated(v1, inputs_prec, n.prec, inputs_prec.len(), first, false, o);
    lemma_integrated_unfaulted(v2, inputs_same, n.same, inputs_same.len(), first, second, o);
}

/// A bit flip leaves every update but the one at its own instant as it is
/// without a fault.
pub proof fn lemma_flip_at_its_instant_only(
    n: NeuronState,
    inputs_prec: Seq<u8>,
    inputs_same: Seq<u8>,
    error: ConfErr,
    time: i32,
    o: spec_fn(FloatOp) -> u64,
)
    requires
        error.err_type == Type::BitFlip,
        time != error.t_start,
    ensures
        lif_spec(n, inputs_prec, inputs_same, error, time, o) == lif_spec(
            n,
            inputs_prec,
            inputs_same,
            ConfErr::absent(),
            time,
            o,
        ),
{
    lemma_lif_unstruck(n, inputs_prec, inputs_same, error, ConfErr::absent(), time, o);
}

/// An update leaves a neuron its number and the count of its weights, and
/// emits 0 or 1.
pub proof fn lemma_lif_keeps_shape(
    n: NeuronState,
    inputs_prec: Seq<u8>,
    inputs_same: Seq<u8>,
    error: ConfErr,
    time: i32,
    o: spec_fn(FloatOp) -> u64,
)
    ensures
        lif_spec(n, inputs_prec, inputs_same, error, time, o).0.id == n.id,
        lif_spec(n, inputs_prec, inputs_same, error, time, o).0.prec.len() == n.prec.len(),
        lif_spec(n, inputs_prec, inputs_same, error, time, o).0.same.len() == n.same.len(),
        lif_spec(n, inputs_prec, inputs_same, error, time, o).1 <= 1,
{
}

/// Adds to the potential `v` each input multiplied by its weight.
pub fn integrate<F: Fn(FloatOp) -> u64>(
    v: u64,
    inputs: &Vec<u8>,
    weights: &Vec<u64>,
    error: &ConfErr,
    flag: bool,
    fpu: &F,
) -> (r: u64)
    requires
        total(*fpu),
        inputs.len() <= weights.len(),
    ensures
        forall|o: spec_fn(FloatOp) -> u64| #[trigger]
            computes(*fpu, o) ==> r == integrated(v, inputs@, weights@, inputs@.len(), *error, flag, o),
{
    let mut acc: u64 = v;
    let mut i: usize = 0;
    while i < inputs.len()
        invariant
            total(*fpu),
            i <= inputs.len() <= weights.len(),
            forall|o: spec_fn(FloatOp) -> u64| #[trigger]
                computes(*fpu, o) ==> acc == integrated(v, inputs@, weights@, i as nat, *error, flag, o),
        decreases inputs.len() - i,
    {
        let term: u64 = multiplier(word_of_input(inputs[i]), weights[i], error, flag, fpu);
        acc = adder(acc, term, error, flag, fpu);
        i = i + 1;
    }
    acc
}

/// Updates a leaky integrate-and-fire neuron by one instant and returns the
/// spike it emits, 1 or 0.
pub fn lif<F: Fn(FloatOp) -> u64>(
    neuron: &mut Neuron,
    inputs_prec_layer: &Vec<u8>,
    inputs_same_layer: &Vec<u8>,
    error: &ConfErr,
    time: i32,
    fpu: &F,
) -> (spike: u8)
    requires
        total(*fpu),
        inputs_prec_layer.len() <= old(neuron).connections_prec_layer.len(),
        inputs_same_layer.len() <= old(neuron).connections_same_layer.len(),
    ensures
        forall|o: spec_fn(FloatOp) -> u64| #[trigger]
            computes(*fpu, o) ==> (final(neuron)@, spike) == lif_spec(
                old(neuron)@,
                inputs_prec_layer@,
                inputs_same_layer@,
                *error,
                time,
                o,
            ),
        spike <= 1,
        final(neuron).id == old(neuron).id,
        final(neuron).connections_prec_layer.len() == old(neuron).connections_prec_layer.len(),
        final(neuron).connections_same_layer.len() == old(neuron).connections_same_layer.len(),
{
    let mut flag_error: bool = false;
    if error.id_neuron == neuron.id && ((error.err_type == Type::BitFlip && error.t_start == time)
        || (error.err_type == Type::Stuck0 || error.err_type == Type::Stuck1)) {
        flag_error = error.err_comp == ErrorComponent::Adder || error.err_comp
            == ErrorComponent::Multiplier;
        neuron.neuron_create_error(error);
    }
    let diff: u64 = adder(neuron.v_mem, negate(neuron.v_rest), error, flag_error, fpu);
    let quotient: u64 = fpu(FloatOp::Div(negate(neuron.delta_t), TAU));
    let factor: u64 = fpu(FloatOp::Exp(quotient));
    let mul: u64 = multiplier(diff, factor, error, flag_error, fpu);
    let leaked_to: u64 = adder(neuron.v_rest, mul, error, flag_error, fpu);

    neuron.delta_t = ONE;

    let fed: u64 = integrate(
        leaked_to,
        inputs_prec_layer,
        &neuron.connections_prec_layer,
        error,
        flag_error,
        fpu,
    );
    let full: u64 = integrate(
        fed,
        inputs_same_layer,
        &neuron.connections_same_layer,
        error,
        flag_error,
        fpu,
    );

    if exceeds(full, neuron.v_threshold) {
        neuron.v_mem = neuron.v_reset;
        return 1;
    }
    neuron.v_mem = full;
    0
}

} // verus!
