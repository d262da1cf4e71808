//! A layer: neurons that share their inputs.

use vstd::prelude::*;
use crate::errors::ConfErr;
use crate::neuron::{lif, lif_spec, Neuron, NeuronState};
use crate::unit::{computes, total, FloatOp};

verus! {

/// An ordered row of neurons, with the spike that each emitted at the
/// previous instant. Within the layer a neuron hears those spikes, never the
/// ones of the instant that is being computed.
#[derive(Clone, Debug)]
pub struct Layer {
    pub neurons: Vec<Neuron>,
    pub spikes: Vec<u8>,
}

/// A layer as a mathematical value.
pub struct LayerState {
    pub neurons: Seq<NeuronState>,
    pub spikes: Seq<u8>,
}

impl View for Layer {
    type V = LayerState;

    open spec fn view(&self) -> LayerState {
        LayerState {
            neurons: Seq::new(self.neurons@.len(), |i: int| self.neurons@[i]@),
            spikes: self.spikes@,
        }
    }
}

impl LayerState {
    /// Every neuron has one weight for each of `fan_in` inputs and one for
    /// each neuron of the layer, and the layer remembers one spike for each
    /// neuron.
    pub open spec fn shaped(self, fan_in: nat) -> bool {
        &&& self.spikes.len() == self.neurons.len()
        &&& forall|i: int|
            0 <= i < self.neurons.len() ==> (#[trigger] self.neurons[i]).prec.len() == fan_in
                && self.neurons[i].same.len() == self.neurons.len()
    }
}

/// The layer after one instant: every neuron is updated on the same inputs
/// and on the spikes that the layer emitted at the previous instant, and
/// the layer then remembers the new spikes.
pub open spec fn forwarded(
    layer: LayerState,
    inputs: Seq<u8>,
    error: ConfErr,
    time: i32,
    o: spec_fn(FloatOp) -> u64,
) -> LayerState {
    LayerState {
        neurons: Seq::new(
            layer.neurons.len(),
            |i: int| lif_spec(layer.neurons[i], inputs, layer.spikes, error, time, o).0,
        ),
        spikes: Seq::new(
            layer.neurons.len(),
            |i: int| lif_spec(layer.neurons[i], inputs, layer.spikes, error, time, o).1,
        ),
    }
}

/// A copy of a row of spikes.
pub(crate) fn copy_spikes(spikes: &Vec<u8>) -> (r: Vec<u8>)
    ensures
        r@ == spikes@,
{
    let r = spikes.clone();
    assert(r@ =~= spikes@);
    r
}

impl Layer {
    /// A layer like this one, to be updated apart from it.
    pub fn duplicate(&self) -> (copy: Layer)
        ensures
            copy@ == self@,
    {
        let mut neurons: Vec<Neuron> = Vec::new();
        let mut i: usize = 0;
        while i < self.neurons.len()
            invariant
                i <= self.neurons@.len(),
                neurons@.len() == i,
                forall|j: int| 0 <= j < i ==> (#[trigger] neurons@[j])@ == self.neurons@[j]@,
            decreases self.neurons@.len() - i,
        {
            neurons.push(self.neurons[i].duplicate());
            i = i + 1;
        }
        let copy = Layer { neurons, spikes: copy_spikes(&self.spikes) };
        assert(copy@.neurons =~= self@.neurons);
        copy
    }

    /// Updates every neuron of the layer, in ascending order, by one
    /// instant, and returns the spikes they emit.
    pub fn forward<F: Fn(FloatOp) -> u64>(
        &mut self,
        inputs: &Vec<u8>,
        error: &ConfErr,
        time: i32,
        fpu: &F,
    ) -> (out: Vec<u8>)
        requires
            total(*fpu),
            old(self)@.shaped(inputs@.len()),
        ensures
            forall|o: spec_fn(FloatOp) -> u64| #[trigger]
                computes(*fpu, o) ==> final(self)@ == forwarded(
                    old(self)@,
                    inputs@,
                    *error,
                    time,
                    o,
                ),
            out@ == final(self)@.spikes,
            final(self)@.shaped(inputs@.len()),
            final(self)@.neurons.len() == old(self)@.neurons.len(),
            forall|i: int|
                0 <= i < old(self)@.neurons.len() ==> (#[trigger] final(self)@.neurons[i]).id
                    == old(self)@.neurons[i].id,
            forall|i: int| 0 <= i < out@.len() ==> #[trigger] out@[i] <= 1,
    {
        let ghost before = self@;
        let n: usize = self.neurons.len();
        let mut out: Vec<u8> = Vec::new();
        let mut i: usize = 0;
        while i < n
            invariant
                total(*fpu),
                before.shaped(inputs@.len()),
                n == self.neurons.len(),
                n == before.neurons.len(),
                i <= n,
                out@.len() == i,
                self.spikes@ == before.spikes,
                forall|j: int|
                    0 <= j < n ==> (#[trigger] self.neurons@[j]).id == before.neurons[j].id
                        && self.neurons@[j].connections_prec_layer@.len() == inputs@.len()
                        && self.neurons@[j].connections_same_layer@.len() == n,
                forall|j: int| i <= j < n ==> (#[trigger] self.neurons@[j])@ == before.neurons[j],
                forall|j: int| 0 <= j < i ==> #[trigger] out@[j] <= 1,
                forall|o: spec_fn(FloatOp) -> u64, j: int|
                    computes(*fpu, o) && 0 <= j < i ==> #[trigger] lif_spec(
                        before.neurons[j],
                        inputs@,
                        before.spikes,
                        *error,
                        time,
                        o,
                    ) == (self.neurons@[j]@, out@[j]),
            decreases n - i,
        {
            assert(self.neurons@[i as int]@ == before.neurons[i as int]);
            let spike: u8 = lif(&mut self.neurons[i], inputs, &self.spikes, error, time, fpu);
            out.push(spike);
            i = i + 1;
        }
        let result: Vec<u8> = copy_spikes(&out);
        self.spikes = out;
        proof {
            assert forall|o: spec_fn(FloatOp) -> u64| #[trigger] computes(*fpu, o) implies self@
                == forwarded(before, inputs@, *error, time, o) by {
                let target = forwarded(before, inputs@, *error, time, o);
                assert forall|j: int| 0 <= j < n implies self@.neurons[j] == target.neurons[j]
                    && self@.spikes[j] == target.spikes[j] by {
                    assert(lif_spec(before.neurons[j], inputs@, before.spikes, *error, time, o)
                        == (self.neurons@[j]@, out@[j]));
                }
                assert(self@.neurons =~= target.neurons);
                assert(self@.spikes =~= target.spikes);
            }
        }
        result
    }
}

} // verus!
