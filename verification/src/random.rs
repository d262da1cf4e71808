//! Chance: random inputs, and networks with random thresholds and weights.
//!
//! Every draw is made from a generator that the caller hands in, so that a
//! caller who seeds the generator can repeat a run.

use vstd::prelude::*;
use rand::Rng;
use crate::network::{Network, NetworkState};
use crate::neuron::NeuronState;
use crate::word::{fraction_word, is_fraction, lemma_fraction_above_zero};

verus! {

/// `rand::rngs::StdRng`, the generator that every draw is made from. It is
/// carried through as it is: nothing is known, and nothing claimed, of what
/// is inside it.
#[verifier::external_type_specification]
#[verifier::external_body]
pub struct ExStdRng(rand::rngs::StdRng);

/// Draws a number below `bound` by `rand::Rng::gen_range` over `0..bound`.
/// Nothing is claimed of the number but that it lies in that range, as the
/// method's documentation says; the method panics on an empty range, which
/// the precondition keeps out.
#[verifier::external_body]
pub(crate) fn draw_below(rng: &mut rand::rngs::StdRng, bound: usize) -> (r: usize)
    requires
        bound > 0,
    ensures
        r < bound,
{
    rng.gen_range(0..bound)
}

/// The spike that a draw stands for: present if the draw is odd.
pub open spec fn spike_of(draw: usize) -> u8 {
    (draw % 2) as u8
}

/// Turns a draw into a spike.
pub fn input_of_draw(draw: usize) -> (r: u8)
    ensures
        r == spike_of(draw),
        r <= 1,
{
    (draw % 2) as u8
}

/// Draws the input of one instant for `n_input` neurons: each spike present
/// or absent with the same chance.
pub fn gen_inputs(n_input: usize, rng: &mut rand::rngs::StdRng) -> (input: Vec<u8>)
    ensures
        input@.len() == n_input,
        forall|i: int| 0 <= i < n_input ==> #[trigger] input@[i] <= 1,
{
    let mut input: Vec<u8> = Vec::new();
    let mut i: usize = 0;
    while i < n_input
        invariant
            i <= n_input,
            input@.len() == i,
            forall|j: int| 0 <= j < i ==> #[trigger] input@[j] <= 1,
        decreases n_input - i,
    {
        let draw: usize = draw_below(rng, 10);
        input.push(input_of_draw(draw));
        i = i + 1;
    }
    input
}

/// Draws `n` weights, each one of the numbers `d / 256` below 1.
pub fn random_words(n: usize, rng: &mut rand::rngs::StdRng) -> (words: Vec<u64>)
    ensures
        words@.len() == n,
        forall|k: int| 0 <= k < n ==> is_fraction(#[trigger] words@[k]),
{
    let mut words: Vec<u64> = Vec::new();
    let mut k: usize = 0;
    while k < n
        invariant
            k <= n,
            words@.len() == k,
            forall|j: int| 0 <= j < k ==> is_fraction(#[trigger] words@[j]),
        decreases n - k,
    {
        let draw: usize = draw_below(rng, 256);
        words.push(fraction_word(draw as u8));
        k = k + 1;
    }
    words
}

/// The neuron `after` is `before` set to rest at zero with a threshold
/// that is one of the numbers `d / 256` between 0 and 1.
pub open spec fn randomized(after: NeuronState, before: NeuronState) -> bool {
    &&& after.id == before.id
    &&& after.prec == before.prec
    &&& after.same == before.same
    &&& after.v_mem == 0
    &&& after.v_rest == 0
    &&& after.v_reset == 0
    &&& after.delta_t == 0
    &&& after.v_threshold != 0
    &&& is_fraction(after.v_threshold)
}

/// The neuron `after` is `before` with every weight one of the numbers
/// `d / 256` below 1.
pub open spec fn reweighted(after: NeuronState, before: NeuronState) -> bool {
    &&& after == (NeuronState { prec: after.prec, same: after.same, ..before })
    &&& after.prec.len() == before.prec.len()
    &&& after.same.len() == before.same.len()
    &&& forall|k: int| 0 <= k < after.prec.len() ==> is_fraction(#[trigger] after.prec[k])
    &&& forall|k: int| 0 <= k < after.same.len() ==> is_fraction(#[trigger] after.same[k])
}

/// Whether place `(l, i)` comes before place `(layer, index)` when a
/// network is walked layer by layer.
pub open spec fn passed(l: int, i: int, layer: int, index: int) -> bool {
    l < layer || (l == layer && i < index)
}

impl Network {
    /// Gives every neuron a random threshold above 0 and below 1, and sets
    /// it to rest at zero. Weights and remembered spikes stay.
    pub fn add_random_neurons(&mut self, rng: &mut rand::rngs::StdRng)
        requires
            old(self).wf(),
        ensures
            final(self).wf(),
            final(self)@.sizes() == old(self)@.sizes(),
            final(self)@.layers.len() == old(self)@.layers.len(),
            forall|l: int|
                0 <= l < old(self)@.layers.len() ==> (#[trigger] final(self)@.layers[l]).spikes
                    == old(self)@.layers[l].spikes && final(self)@.layers[l].neurons.len() == old(
                    self,
                )@.layers[l].neurons.len(),
            forall|l: int, i: int|
                0 <= l < old(self)@.layers.len() && 0 <= i < old(self)@.layers[l].neurons.len()
                    ==> randomized(
                    #[trigger] final(self)@.layers[l].neurons[i],
                    old(self)@.layers[l].neurons[i],
                ),
    {
        let ghost before = self@;
        proof {
            self.lemma_sound();
        }
        let depth: usize = self.depth();
        let mut l: usize = 0;
        while l < depth
            invariant
                self.wf(),
                before.wf(),
                depth == before.layers.len(),
                self@.layers.len() == before.layers.len(),
                self@.sizes() == before.sizes(),
                l <= depth,
                forall|k: int|
                    0 <= k < depth ==> (#[trigger] self@.layers[k]).spikes
                        == before.layers[k].spikes && self@.layers[k].neurons.len()
                        == before.layers[k].neurons.len(),
                forall|k: int, i: int|
                    0 <= k < l && 0 <= i < before.layers[k].neurons.len() ==> randomized(
                        #[trigger] self@.layers[k].neurons[i],
                        before.layers[k].neurons[i],
                    ),
                forall|k: int, i: int|
                    l <= k < depth && 0 <= i < before.layers[k].neurons.len() ==> (
                    #[trigger] self@.layers[k].neurons[i]) == before.layers[k].neurons[i],
            decreases depth - l,
        {
            let width: usize = self.width(l);
            let mut i: usize = 0;
            while i < width
                invariant
                    self.wf(),
                    before.wf(),
                    depth == before.layers.len(),
                    self@.layers.len() == before.layers.len(),
                    self@.sizes() == before.sizes(),
                    l < depth,
                    width == before.layers[l as int].neurons.len(),
                    i <= width,
                    forall|k: int|
                        0 <= k < depth ==> (#[trigger] self@.layers[k]).spikes
                            == before.layers[k].spikes && self@.layers[k].neurons.len()
                            == before.layers[k].neurons.len(),
                    forall|k: int, j: int|
                        0 <= k < depth && 0 <= j < before.layers[k].neurons.len() && passed(
                            k,
                            j,
                            l as int,
                            i as int,
                        ) ==> randomized(
                            #[trigger] self@.layers[k].neurons[j],
                            before.layers[k].neurons[j],
                        ),
                    forall|k: int, j: int|
                        0 <= k < depth && 0 <= j < before.layers[k].neurons.len() && !passed(
                            k,
                            j,
                            l as int,
                            i as int,
                        ) ==> (#[trigger] self@.layers[k].neurons[j]) == before.layers[k].neurons[j],
                decreases width - i,
            {
                let draw: usize = draw_below(rng, 255);
                let threshold: u64 = fraction_word((draw + 1) as u8);
                proof {
                    lemma_fraction_above_zero((draw + 1) as u8);
                }
                let done = self.set_neuron(l, i, 0, 0, threshold, 0, 0);
                assert(done is Ok);
                i = i + 1;
            }
            l = l + 1;
        }
    }

    /// Gives every neuron random weights, each at least 0 and below 1.
    /// Potentials and remembered spikes stay.
    pub fn add_random_weights(&mut self, rng: &mut rand::rngs::StdRng)
        requires
            old(self).wf(),
        ensures
            final(self).wf(),
            final(self)@.sizes() == old(self)@.sizes(),
            final(self)@.layers.len() == old(self)@.layers.len(),
            forall|l: int|
                0 <= l < old(self)@.layers.len() ==> (#[trigger] final(self)@.layers[l]).spikes
                    == old(self)@.layers[l].spikes && final(self)@.layers[l].neurons.len() == old(
                    self,
                )@.layers[l].neurons.len(),
            forall|l: int, i: int|
                0 <= l < old(self)@.layers.len() && 0 <= i < old(self)@.layers[l].neurons.len()
                    ==> reweighted(
                    #[trigger] final(self)@.layers[l].neurons[i],
                    old(self)@.layers[l].neurons[i],
                ),
    {
        let ghost before = self@;
        proof {
            self.lemma_sound();
        }
        let depth: usize = self.depth();
        let mut l: usize = 0;
        while l < depth
            invariant
                self.wf(),
                before.wf(),
                depth == before.layers.len(),
                self@.layers.len() == before.layers.len(),
                self@.sizes() == before.sizes(),
                l <= depth,
                forall|k: int|
                    0 <= k < depth ==> (#[trigger] self@.layers[k]).spikes
                        == before.layers[k].spikes && self@.layers[k].neurons.len()
                        == before.layers[k].neurons.len(),
                forall|k: int, i: int|
                    0 <= k < l && 0 <= i < before.layers[k].neurons.len() ==> reweighted(
                        #[trigger] self@.layers[k].neurons[i],
                        before.layers[k].neurons[i],
                    ),
                forall|k: int, i: int|
                    l <= k < depth && 0 <= i < before.layers[k].neurons.len() ==> (
                    #[trigger] self@.layers[k].neurons[i]) == before.layers[k].neurons[i],
            decreases depth - l,
        {
            let width: usize = self.width(l);
            let fan_in: usize = if l == 0 {
                0
            } else {
                self.width(l - 1)
            };
            let mut i: usize = 0;
            while i < width
                invariant
                    self.wf(),
                    before.wf(),
                    depth == before.layers.len(),
                    self@.layers.len() == before.layers.len(),
                    self@.sizes() == before.sizes(),
                    l < depth,
                    width == before.layers[l as int].neurons.len(),
                    fan_in == before.fan_in(l as int),
                    i <= width,
                    forall|k: int|
                        0 <= k < depth ==> (#[trigger] self@.layers[k]).spikes
                            == before.layers[k].spikes && self@.layers[k].neurons.len()
                            == before.layers[k].neurons.len(),
                    forall|k: int, j: int|
                        0 <= k < depth && 0 <= j < before.layers[k].neurons.len() && passed(
                            k,
                            j,
                            l as int,
                            i as int,
                        ) ==> reweighted(
                            #[trigger] self@.layers[k].neurons[j],
                            before.layers[k].neurons[j],
                        ),
                    forall|k: int, j: int|
                        0 <= k < depth && 0 <= j < before.layers[k].neurons.len() && !passed(
                            k,
                            j,
                            l as int,
                            i as int,
                        ) ==> (#[trigger] self@.layers[k].neurons[j]) == before.layers[k].neurons[j],
                decreases width - i,
            {
                let prec: Vec<u64> = random_words(fan_in, rng);
                let same: Vec<u64> = random_words(width, rng);
                let ghost prior = self@;
                assert(prior.fan_in(l as int) == before.fan_in(l as int)) by {
                    if l > 0 {
                        assert(prior.layers[l - 1].neurons.len() == before.layers[l
                            - 1].neurons.len());
                    }
                }
                let done = self.set_weights(l, i, prec, same);
                assert(done is Ok);
                assert(before.layer_wf(l as int));
                assert(reweighted(
                    self@.layers[l as int].neurons[i as int],
                    before.layers[l as int].neurons[i as int],
                ));
                i = i + 1;
            }
            l = l + 1;
        }
    }
}

} // verus!
