//! The network: layers in a row, each fed by the one before it.

use vstd::prelude::*;
use crate::errors::{ConfErr, Type};
use crate::layer::{copy_spikes, forwarded, Layer, LayerState};
use crate::neuron::{lemma_lif_keeps_shape, lemma_lif_unstruck, lif_spec, Neuron, NeuronState};
use crate::unit::{computes, total, FloatOp};

verus! {

/// Why a network, or a run of one, was refused.
#[derive(Clone, Copy, Debug, PartialEq, Eq, Structural)]
pub enum ShapeError {
    /// The network would have no layer.
    NoLayers,
    /// The layer at this position would have no neuron.
    EmptyLayer { layer: usize },
    /// The neurons cannot be numbered within a machine word.
    TooManyNeurons,
    /// The network has no neuron at the given place.
    NoSuchNeuron,
    /// The weights are not as many as the neurons they come from.
    WeightCount,
    /// The input of this instant is not as long as the first layer.
    InputLength { instant: usize },
    /// The instants of the run cannot be numbered.
    TooManyInstants,
}

/// A network. The first layer is the network's input layer: what its neurons
/// emit at an instant is the input of that instant. Every later layer is fed
/// by the spikes of the layer before it, within the same instant.
#[derive(Clone, Debug)]
pub struct Network {
    layers: Vec<Layer>,
    network_conf: Vec<usize>,
}

/// A network as a mathematical value.
pub struct NetworkState {
    pub layers: Seq<LayerState>,
}

impl View for Network {
    type V = NetworkState;

    closed spec fn view(&self) -> NetworkState {
        NetworkState { layers: Seq::new(self.layers@.len(), |l: int| self.layers@[l]@) }
    }
}

/// The number of neurons in the first `l` layers of a network whose layers
/// have these sizes; the neurons of layer `l` are numbered from it upwards.
pub open spec fn first_id(sizes: Seq<nat>, l: int) -> nat
    decreases l,
{
    if l <= 0 {
        0
    } else {
        first_id(sizes, l - 1) + sizes[l - 1]
    }
}

impl NetworkState {
    /// The number of neurons of each layer.
    pub open spec fn sizes(self) -> Seq<nat> {
        Seq::new(self.layers.len(), |l: int| self.layers[l].neurons.len())
    }

    /// The number of inputs that reach each neuron of layer `l` from the
    /// layer before it.
    pub open spec fn fan_in(self, l: int) -> nat {
        if l <= 0 {
            0
        } else {
            self.layers[l - 1].neurons.len()
        }
    }

    /// The number of neurons in the whole network.
    pub open spec fn population(self) -> nat {
        first_id(self.sizes(), self.layers.len() as int)
    }

    /// Layer `l` has neurons, each with the weights its place calls for and
    /// with its own number.
    pub open spec fn layer_wf(self, l: int) -> bool {
        &&& self.layers[l].neurons.len() > 0
        &&& self.layers[l].shaped(self.fan_in(l))
        &&& forall|i: int|
            0 <= i < self.layers[l].neurons.len() ==> (#[trigger] self.layers[l].neurons[i]).id
                == first_id(self.sizes(), l) + i
    }

    /// The topology is sound: there is a layer, and every layer is.
    pub open spec fn wf(self) -> bool {
        &&& self.layers.len() > 0
        &&& forall|l: int| 0 <= l < self.layers.len() ==> #[trigger] self.layer_wf(l)
    }

    /// What the network emits: the spikes of its last layer.
    pub open spec fn output(self) -> Seq<u8> {
        self.layers[self.layers.len() - 1].spikes
    }
}

/// A neuron at rest with every quantity and weight zero.
pub open spec fn blank_neuron(id: usize, fan_in: nat, width: nat) -> NeuronState {
    NeuronState {
        id,
        v_mem: 0,
        v_rest: 0,
        v_threshold: 0,
        v_reset: 0,
        delta_t: 0,
        prec: Seq::new(fan_in, |k: int| 0u64),
        same: Seq::new(width, |k: int| 0u64),
    }
}

/// A layer of `width` blank neurons numbered from `first`, silent so far.
pub open spec fn blank_layer(first: nat, fan_in: nat, width: nat) -> LayerState {
    LayerState {
        neurons: Seq::new(width, |i: int| blank_neuron((first + i) as usize, fan_in, width)),
        spikes: Seq::new(width, |i: int| 0u8),
    }
}

/// The network of blank neurons whose layers have these sizes.
pub open spec fn blank(sizes: Seq<nat>) -> NetworkState {
    NetworkState {
        layers: Seq::new(
            sizes.len(),
            |l: int| blank_layer(first_id(sizes, l), if l == 0 { 0 } else { sizes[l - 1] }, sizes[l]),
        ),
    }
}

/// The sizes of a configuration as numbers.
pub open spec fn as_sizes(conf: Seq<usize>) -> Seq<nat> {
    Seq::new(conf.len(), |l: int| conf[l] as nat)
}

/// The count of neurons in the first layers grows with their number.
pub proof fn lemma_first_id_grows(sizes: Seq<nat>, l: int, m: int)
    requires
        0 <= l <= m,
    ensures
        first_id(sizes, l) <= first_id(sizes, m),
    decreases m - l,
{
    if l < m {
        lemma_first_id_grows(sizes, l, m - 1);
    }
}

/// A network that differs from a sound one neither in the number of its
/// layers and neurons, nor in a neuron's number or count of weights, nor in
/// the count of spikes a layer remembers, is sound.
pub proof fn lemma_wf_kept(before: NetworkState, after: NetworkState)
    requires
        before.wf(),
        after.layers.len() == before.layers.len(),
        forall|l: int|
            0 <= l < before.layers.len() ==> (#[trigger] after.layers[l]).neurons.len()
                == before.layers[l].neurons.len() && after.layers[l].shaped(before.fan_in(l)),
        forall|l: int, i: int|
            0 <= l < before.layers.len() && 0 <= i < before.layers[l].neurons.len() ==> (
            #[trigger] after.layers[l].neurons[i]).id == before.layers[l].neurons[i].id,
    ensures
        after.wf(),
        after.sizes() == before.sizes(),
        after.population() == before.population(),
{
    assert(after.sizes() =~= before.sizes());
    assert forall|l: int| 0 <= l < after.layers.len() implies #[trigger] after.layer_wf(l) by {
        assert(before.layer_wf(l));
        assert(after.layers[l].shaped(before.fan_in(l)));
        if l > 0 {
            assert(after.layers[l - 1].neurons.len() == before.layers[l - 1].neurons.len());
        }
    }
}

/// The network of blank neurons is sound where every layer has a neuron
/// and the neurons can be numbered.
pub proof fn lemma_blank_wf(sizes: Seq<nat>)
    requires
        sizes.len() > 0,
        forall|l: int| 0 <= l < sizes.len() ==> sizes[l] > 0,
        first_id(sizes, sizes.len() as int) <= usize::MAX,
    ensures
        blank(sizes).wf(),
        blank(sizes).sizes() == sizes,
{
    let net = blank(sizes);
    assert(net.sizes() =~= sizes);
    assert forall|l: int| 0 <= l < net.layers.len() implies #[trigger] net.layer_wf(l) by {
        lemma_first_id_grows(sizes, l + 1, sizes.len() as int);
        assert(first_id(sizes, l + 1) == first_id(sizes, l) + sizes[l]);
        assert forall|i: int| 0 <= i < net.layers[l].neurons.len() implies (
        #[trigger] net.layers[l].neurons[i]).id == first_id(sizes, l) + i by {
        }
    }
}

/// The network with the potentials of one neuron replaced.
pub open spec fn with_potentials(
    net: NetworkState,
    layer: int,
    index: int,
    v_mem: u64,
    v_rest: u64,
    v_threshold: u64,
    v_reset: u64,
    delta_t: u64,
) -> NetworkState {
    let neuron = NeuronState {
        v_mem,
        v_rest,
        v_threshold,
        v_reset,
        delta_t,
        ..net.layers[layer].neurons[index]
    };
    NetworkState {
        layers: net.layers.update(
            layer,
            LayerState {
                neurons: net.layers[layer].neurons.update(index, neuron),
                ..net.layers[layer]
            },
        ),
    }
}

/// The network with the weights of one neuron replaced.
pub open spec fn with_weights(
    net: NetworkState,
    layer: int,
    index: int,
    prec: Seq<u64>,
    same: Seq<u64>,
) -> NetworkState {
    let neuron = NeuronState { prec, same, ..net.layers[layer].neurons[index] };
    NetworkState {
        layers: net.layers.update(
            layer,
            LayerState {
                neurons: net.layers[layer].neurons.update(index, neuron),
                ..net.layers[layer]
            },
        ),
    }
}

/// A row of `n` zero words.
fn zero_words(n: usize) -> (r: Vec<u64>)
    ensures
        r@ == Seq::new(n as nat, |k: int| 0u64),
{
    let mut r: Vec<u64> = Vec::new();
    let mut k: usize = 0;
    while k < n
        invariant
            k <= n,
            r@ == Seq::new(k as nat, |j: int| 0u64),
        decreases n - k,
    {
        r.push(0);
        k = k + 1;
        assert(r@ =~= Seq::new(k as nat, |j: int| 0u64));
    }
    r
}

/// A row of `n` absent spikes.
fn zero_spikes(n: usize) -> (r: Vec<u8>)
    ensures
        r@ == Seq::new(n as nat, |k: int| 0u8),
{
    let mut r: Vec<u8> = Vec::new();
    let mut k: usize = 0;
    while k < n
        invariant
            k <= n,
            r@ == Seq::new(k as nat, |j: int| 0u8),
        decreases n - k,
    {
        r.push(0);
        k = k + 1;
        assert(r@ =~= Seq::new(k as nat, |j: int| 0u8));
    }
    r
}

/// A layer of `width` blank neurons numbered from `first`.
fn new_layer(first: usize, fan_in: usize, width: usize) -> (r: Layer)
    requires
        first + width <= usize::MAX,
    ensures
        r@ == blank_layer(first as nat, fan_in as nat, width as nat),
{
    let mut neurons: Vec<Neuron> = Vec::new();
    let mut i: usize = 0;
    while i < width
        invariant
            i <= width,
            first + width <= usize::MAX,
            neurons@.len() == i,
            forall|j: int|
                0 <= j < i ==> (#[trigger] neurons@[j])@ == blank_neuron(
                    (first + j) as usize,
                    fan_in as nat,
                    width as nat,
                ),
        decreases width - i,
    {
        let neuron = Neuron {
            id: first + i,
            v_mem: 0,
            v_rest: 0,
            v_threshold: 0,
            v_reset: 0,
            delta_t: 0,
            connections_prec_layer: zero_words(fan_in),
            connections_same_layer: zero_words(width),
        };
        neurons.push(neuron);
        i = i + 1;
    }
    let r = Layer { neurons, spikes: zero_spikes(width) };
    assert(r@.neurons =~= blank_layer(first as nat, fan_in as nat, width as nat).neurons);
    r
}

/// Layer `l` after one instant on `input`.
pub open spec fn stepped_layer(
    net: NetworkState,
    input: Seq<u8>,
    error: ConfErr,
    time: i32,
    o: spec_fn(FloatOp) -> u64,
    l: nat,
) -> LayerState
    decreases l,
{
    if l == 0 {
        LayerState { neurons: net.layers[0].neurons, spikes: input }
    } else {
        forwarded(
            net.layers[l as int],
            stepped_layer(net, input, error, time, o, (l - 1) as nat).spikes,
            error,
            time,
            o,
        )
    }
}

/// The network after one instant on `input`.
pub open spec fn stepped(
    net: NetworkState,
    input: Seq<u8>,
    error: ConfErr,
    time: i32,
    o: spec_fn(FloatOp) -> u64,
) -> NetworkState {
    NetworkState {
        layers: Seq::new(
            net.layers.len(),
            |l: int| stepped_layer(net, input, error, time, o, l as nat),
        ),
    }
}

/// The network after the first `k` instants of a run.
pub open spec fn run(
    net: NetworkState,
    inputs: Seq<Seq<u8>>,
    error: ConfErr,
    o: spec_fn(FloatOp) -> u64,
    k: nat,
) -> NetworkState
    decreases k,
{
    if k == 0 {
        net
    } else {
        stepped(run(net, inputs, error, o, (k - 1) as nat), inputs[k - 1], error, (k - 1) as i32, o)
    }
}

/// What the network emits over a run, instant by instant.
pub open spec fn trace(
    net: NetworkState,
    inputs: Seq<Seq<u8>>,
    error: ConfErr,
    o: spec_fn(FloatOp) -> u64,
) -> Seq<Seq<u8>> {
    Seq::new(inputs.len(), |t: int| run(net, inputs, error, o, (t + 1) as nat).output())
}

/// A run from `net` over `inputs` under `error` ends in `end` and emits
/// `outputs`, whatever function of its operands the unit computes.
pub open spec fn follows<F: Fn(FloatOp) -> u64>(
    fpu: F,
    net: NetworkState,
    inputs: Seq<Seq<u8>>,
    error: ConfErr,
    end: NetworkState,
    outputs: Seq<Seq<u8>>,
) -> bool {
    forall|o: spec_fn(FloatOp) -> u64| #[trigger]
        computes(fpu, o) ==> end == run(net, inputs, error, o, inputs.len()) && outputs == trace(
            net,
            inputs,
            error,
            o,
        )
}

/// The fault cannot be at work in any neuron that the network updates: it
/// is no fault, or it names no neuron beyond the input layer.
pub open spec fn spares(error: ConfErr, net: NetworkState) -> bool {
    error.err_type == Type::NoError || forall|l: int, i: int|
        1 <= l < net.layers.len() && 0 <= i < net.layers[l].neurons.len() ==> (
        #[trigger] net.layers[l].neurons[i]).id != error.id_neuron
}

/// An instant leaves every neuron its number, and every layer its neurons.
pub proof fn lemma_stepped_keeps_ids(
    net: NetworkState,
    input: Seq<u8>,
    error: ConfErr,
    time: i32,
    o: spec_fn(FloatOp) -> u64,
)
    ensures
        stepped(net, input, error, time, o).layers.len() == net.layers.len(),
        forall|l: int|
            0 <= l < net.layers.len() ==> (#[trigger] stepped(
                net,
                input,
                error,
                time,
                o,
            ).layers[l]).neurons.len() == net.layers[l].neurons.len(),
        forall|l: int, i: int|
            0 <= l < net.layers.len() && 0 <= i < net.layers[l].neurons.len() ==> (
            #[trigger] stepped(net, input, error, time, o).layers[l].neurons[i]).id
                == net.layers[l].neurons[i].id,
{
    let after = stepped(net, input, error, time, o);
    assert forall|l: int, i: int|
        0 <= l < net.layers.len() && 0 <= i < net.layers[l].neurons.len() implies (
    #[trigger] after.layers[l].neurons[i]).id == net.layers[l].neurons[i].id
        && after.layers[l].neurons.len() == net.layers[l].neurons.len() by {
        if l > 0 {
            let fed = stepped_layer(net, input, error, time, o, (l - 1) as nat).spikes;
            lemma_lif_keeps_shape(
                net.layers[l].neurons[i],
                fed,
                net.layers[l].spikes,
                error,
                time,
                o,
            );
        }
    }
    assert forall|l: int| 0 <= l < net.layers.len() implies (#[trigger] after.layers[l]).neurons.len()
        == net.layers[l].neurons.len() by {
    }
}

/// Two faults that both spare the network leave each layer alike after an
/// instant.
pub proof fn lemma_stepped_layer_spared(
    net: NetworkState,
    input: Seq<u8>,
    first: ConfErr,
    second: ConfErr,
    time: i32,
    o: spec_fn(FloatOp) -> u64,
    l: nat,
)
    requires
        spares(first, net),
        spares(second, net),
        l < net.layers.len(),
    ensures
        stepped_layer(net, input, first, time, o, l) == stepped_layer(
            net,
            input,
            second,
            time,
            o,
            l,
        ),
    decreases l,
{
    if l > 0 {
        lemma_stepped_layer_spared(net, input, first, second, time, o, (l - 1) as nat);
        let fed = stepped_layer(net, input, first, time, o, (l - 1) as nat).spikes;
        let layer = net.layers[l as int];
        let one = forwarded(layer, fed, first, time, o);
        let other = forwarded(layer, fed, second, time, o);
        assert forall|i: int| 0 <= i < layer.neurons.len() implies lif_spec(
            layer.neurons[i],
            fed,
            layer.spikes,
            first,
            time,
            o,
        ) == lif_spec(layer.neurons[i], fed, layer.spikes, second, time, o) by {
            lemma_lif_unstruck(layer.neurons[i], fed, layer.spikes, first, second, time, o);
        }
        assert(one.neurons =~= other.neurons);
        assert(one.spikes =~= other.spikes);
    }
}

/// Two faults that both spare the network leave it alike after any number
/// of instants, and still spare it then.
pub proof fn lemma_run_spared(
    net: NetworkState,
    inputs: Seq<Seq<u8>>,
    first: ConfErr,
    second: ConfErr,
    o: spec_fn(FloatOp) -> u64,
    k: nat,
)
    requires
        spares(first, net),
        spares(second, net),
    ensures
        run(net, inputs, first, o, k) == run(net, inputs, second, o, k),
        spares(first, run(net, inputs, first, o, k)),
        spares(second, run(net, inputs, first, o, k)),
    decreases k,
{
    if k > 0 {
        lemma_run_spared(net, inputs, first, second, o, (k - 1) as nat);
        let prior = run(net, inputs, first, o, (k - 1) as nat);
        let time = (k - 1) as i32;
        let one = stepped(prior, inputs[k - 1], first, time, o);
        let other = stepped(prior, inputs[k - 1], second, time, o);
        assert forall|l: int| 0 <= l < prior.layers.len() implies one.layers[l]
            == other.layers[l] by {
            lemma_stepped_layer_spared(prior, inputs[k - 1], first, second, time, o, l as nat);
        }
        assert(one.layers =~= other.layers);
        lemma_stepped_keeps_ids(prior, inputs[k - 1], first, time, o);
        assert(spares(first, one)) by {
            if first.err_type != Type::NoError {
                assert forall|l: int, i: int|
                    1 <= l < one.layers.len() && 0 <= i < one.layers[l].neurons.len() implies (
                #[trigger] one.layers[l].neurons[i]).id != first.id_neuron by {
                    assert(prior.layers[l].neurons[i].id != first.id_neuron);
                }
            }
        }
        assert(spares(second, one)) by {
            if second.err_type != Type::NoError {
                assert forall|l: int, i: int|
                    1 <= l < one.layers.len() && 0 <= i < one.layers[l].neurons.len() implies (
                #[trigger] one.layers[l].neurons[i]).id != second.id_neuron by {
                    assert(prior.layers[l].neurons[i].id != second.id_neuron);
                }
            }
        }
    }
}

/// A fault that names a neuron which the network does not have, or one of
/// its input layer, changes nothing in what the network emits, and neither
/// does a descriptor of no fault, whatever its other fields say: the run is
/// that of the faultless network.
pub proof fn lemma_spared_run_is_faultless(
    net: NetworkState,
    inputs: Seq<Seq<u8>>,
    error: ConfErr,
    o: spec_fn(FloatOp) -> u64,
)
    requires
        spares(error, net),
    ensures
        trace(net, inputs, error, o) == trace(net, inputs, ConfErr::absent(), o),
        run(net, inputs, error, o, inputs.len()) == run(
            net,
            inputs,
            ConfErr::absent(),
            o,
            inputs.len(),
        ),
{
    let none = ConfErr::absent();
    assert forall|t: int| 0 <= t < inputs.len() implies #[trigger] trace(net, inputs, error, o)[t]
        == trace(net, inputs, none, o)[t] by {
        lemma_run_spared(net, inputs, error, none, o, (t + 1) as nat);
    }
    assert(trace(net, inputs, error, o) =~= trace(net, inputs, none, o));
    lemma_run_spared(net, inputs, error, none, o, inputs.len());
}

/// Two runs from the same state, over the same inputs and under the same
/// fault, end alike and emit the same, provided the unit computes a function
/// of its operands.
pub proof fn lemma_simulation_deterministic<F: Fn(FloatOp) -> u64>(
    fpu: F,
    net: NetworkState,
    inputs: Seq<Seq<u8>>,
    error: ConfErr,
    first_end: NetworkState,
    first: Seq<Seq<u8>>,
    second_end: NetworkState,
    second: Seq<Seq<u8>>,
)
    requires
        exists|o: spec_fn(FloatOp) -> u64| computes(fpu, o),
        follows(fpu, net, inputs, error, first_end, first),
        follows(fpu, net, inputs, error, second_end, second),
    ensures
        first == second,
        first_end == second_end,
{
    let o = choose|o: spec_fn(FloatOp) -> u64| computes(fpu, o);
    assert(computes(fpu, o));
}

/// The rows of a table of spikes.
pub open spec fn rows(table: Seq<Vec<u8>>) -> Seq<Seq<u8>> {
    Seq::new(table.len(), |t: int| table[t]@)
}

impl Network {
    /// The network is sound, and its neurons can be numbered.
    pub closed spec fn wf(&self) -> bool {
        &&& self@.wf()
        &&& self@.population() <= usize::MAX
        &&& self.network_conf@.len() == self.layers@.len()
        &&& forall|l: int|
            0 <= l < self.layers@.len() ==> #[trigger] self.network_conf@[l]
                == self.layers@[l].neurons@.len()
    }

    /// A sound network is sound as a mathematical value too.
    pub proof fn lemma_sound(&self)
        requires
            self.wf(),
        ensures
            self@.wf(),
            self@.population() <= usize::MAX,
    {
    }

    /// Builds the network whose layers have the sizes of `network_conf`, all
    /// of its neurons blank and numbered from 0 upwards, layer after layer. A
    /// configuration without layers, with an empty layer or with more neurons
    /// than can be numbered is refused.
    pub fn new_empty(network_conf: Vec<usize>) -> (r: Result<Network, ShapeError>)
        ensures
            match r {
                Ok(net) => {
                    &&& net.wf()
                    &&& network_conf@.len() > 0
                    &&& forall|l: int| 0 <= l < network_conf@.len() ==> network_conf@[l] > 0
                    &&& first_id(as_sizes(network_conf@), network_conf@.len() as int) <= usize::MAX
                    &&& net@ == blank(as_sizes(network_conf@))
                    &&& net@.sizes() == as_sizes(network_conf@)
                },
                Err(ShapeError::NoLayers) => network_conf@.len() == 0,
                Err(ShapeError::EmptyLayer { layer }) => {
                    &&& layer < network_conf@.len()
                    &&& network_conf@[layer as int] == 0
                    &&& forall|l: int| 0 <= l < layer ==> network_conf@[l] > 0
                },
                Err(ShapeError::TooManyNeurons) => {
                    &&& network_conf@.len() > 0
                    &&& forall|l: int| 0 <= l < network_conf@.len() ==> network_conf@[l] > 0
                    &&& first_id(as_sizes(network_conf@), network_conf@.len() as int) > usize::MAX
                },
                Err(_) => false,
            },
    {
        let ghost sizes = as_sizes(network_conf@);
        let checked = Network::check_conf(&network_conf);
        match checked {
            Err(e) => {
                return Err(e);
            },
            Ok(_) => {},
        }
        let count: usize = network_conf.len();
        let mut layers: Vec<Layer> = Vec::new();
        let mut first: usize = 0;
        let mut l: usize = 0;
        while l < count
            invariant
                count == network_conf@.len(),
                sizes == as_sizes(network_conf@),
                first_id(sizes, count as int) <= usize::MAX,
                l <= count,
                first == first_id(sizes, l as int),
                layers@.len() == l,
                forall|k: int| 0 <= k < l ==> (#[trigger] layers@[k])@ == blank(sizes).layers[k],
            decreases count - l,
        {
            let fan_in: usize = if l == 0 {
                0
            } else {
                network_conf[l - 1]
            };
            proof {
                lemma_first_id_grows(sizes, l + 1, count as int);
            }
            let layer = new_layer(first, fan_in, network_conf[l]);
            layers.push(layer);
            first = first + network_conf[l];
            l = l + 1;
        }
        let net = Network { layers, network_conf };
        proof {
            assert(net@.layers =~= blank(sizes).layers);
            lemma_blank_wf(sizes);
        }
        Ok(net)
    }

    /// Tells whether a network can have layers of these sizes.
    fn check_conf(network_conf: &Vec<usize>) -> (r: Result<(), ShapeError>)
        ensures
            match r {
                Ok(_) => {
                    &&& network_conf@.len() > 0
                    &&& forall|l: int| 0 <= l < network_conf@.len() ==> network_conf@[l] > 0
                    &&& first_id(as_sizes(network_conf@), network_conf@.len() as int) <= usize::MAX
                },
                Err(ShapeError::NoLayers) => network_conf@.len() == 0,
                Err(ShapeError::EmptyLayer { layer }) => {
                    &&& layer < network_conf@.len()
                    &&& network_conf@[layer as int] == 0
                    &&& forall|l: int| 0 <= l < layer ==> network_conf@[l] > 0
                },
                Err(ShapeError::TooManyNeurons) => {
                    &&& network_conf@.len() > 0
                    &&& forall|l: int| 0 <= l < network_conf@.len() ==> network_conf@[l] > 0
                    &&& first_id(as_sizes(network_conf@), network_conf@.len() as int) > usize::MAX
                },
                Err(_) => false,
            },
    {
        let ghost sizes = as_sizes(network_conf@);
        let count: usize = network_conf.len();
        if count == 0 {
            return Err(ShapeError::NoLayers);
        }
        let mut l: usize = 0;
        while l < count
            invariant
                count == network_conf@.len(),
                l <= count,
                forall|k: int| 0 <= k < l ==> network_conf@[k] > 0,
            decreases count - l,
        {
            if network_conf[l] == 0 {
                return Err(ShapeError::EmptyLayer { layer: l });
            }
            l = l + 1;
        }
        let mut total: usize = 0;
        let mut l: usize = 0;
        while l < count
            invariant
                count == network_conf@.len(),
                sizes == as_sizes(network_conf@),
                forall|k: int| 0 <= k < count ==> network_conf@[k] > 0,
                l <= count,
                total == first_id(sizes, l as int),
            decreases count - l,
        {
            if network_conf[l] > usize::MAX - total {
                proof {
                    assert(first_id(sizes, l + 1) == total + network_conf@[l as int]);
                    lemma_first_id_grows(sizes, l + 1, count as int);
                }
                return Err(ShapeError::TooManyNeurons);
            }
            total = total + network_conf[l];
            l = l + 1;
        }
        Ok(())
    }

    /// The number of neurons of each layer.
    pub fn network_conf(&self) -> (conf: &Vec<usize>)
        requires
            self.wf(),
        ensures
            as_sizes(conf@) == self@.sizes(),
    {
        proof {
            assert(as_sizes(self.network_conf@) =~= self@.sizes());
        }
        &self.network_conf
    }

    /// A network like this one, to be run apart from it: what a run does to
    /// the copy, it does not do to this network.
    pub fn duplicate(&self) -> (copy: Network)
        ensures
            copy@ == self@,
            self.wf() ==> copy.wf(),
    {
        let mut layers: Vec<Layer> = Vec::new();
        let mut l: usize = 0;
        while l < self.layers.len()
            invariant
                l <= self.layers@.len(),
                layers@.len() == l,
                forall|k: int| 0 <= k < l ==> (#[trigger] layers@[k])@ == self.layers@[k]@,
            decreases self.layers@.len() - l,
        {
            layers.push(self.layers[l].duplicate());
            l = l + 1;
        }
        let network_conf: Vec<usize> = self.network_conf.clone();
        assert(network_conf@ =~= self.network_conf@);
        let copy = Network { layers, network_conf };
        proof {
            assert(copy@.layers =~= self@.layers);
            if self.wf() {
                assert forall|k: int| 0 <= k < copy.layers@.len() implies #[trigger] copy.network_conf@[k]
                    == copy.layers@[k].neurons@.len() by {
                    assert(copy.layers@[k]@.neurons.len() == self.layers@[k]@.neurons.len());
                }
            }
        }
        copy
    }

    /// The number of layers.
    pub fn depth(&self) -> (count: usize)
        ensures
            count == self@.layers.len(),
    {
        self.layers.len()
    }

    /// The number of neurons of layer `layer`.
    pub fn width(&self, layer: usize) -> (count: usize)
        requires
            layer < self@.layers.len(),
        ensures
            count == self@.layers[layer as int].neurons.len(),
    {
        self.layers[layer].neurons.len()
    }

    /// The number of neurons in the network.
    pub fn population(&self) -> (total: usize)
        requires
            self.wf(),
        ensures
            total == self@.population(),
            total > 0,
    {
        let ghost sizes = self@.sizes();
        let count: usize = self.network_conf.len();
        let mut total: usize = 0;
        let mut l: usize = 0;
        assert(as_sizes(self.network_conf@) =~= sizes);
        assert(self@.layer_wf(0));
        while l < count
            invariant
                count == self.network_conf@.len(),
                count == sizes.len(),
                sizes == as_sizes(self.network_conf@),
                first_id(sizes, count as int) <= usize::MAX,
                sizes[0] > 0,
                l <= count,
                total == first_id(sizes, l as int),
                l > 0 ==> total > 0,
            decreases count - l,
        {
            proof {
                lemma_first_id_grows(sizes, l + 1, count as int);
            }
            total = total + self.network_conf[l];
            l = l + 1;
        }
        total
    }

    /// The neuron at place `index` of layer `layer`, if there is one.
    pub fn neuron(&self, layer: usize, index: usize) -> (r: Option<&Neuron>)
        ensures
            match r {
                Some(neuron) => layer < self@.layers.len() && index
                    < self@.layers[layer as int].neurons.len() && neuron@
                    == self@.layers[layer as int].neurons[index as int],
                None => layer >= self@.layers.len() || index
                    >= self@.layers[layer as int].neurons.len(),
            },
    {
        if layer < self.layers.len() {
            if index < self.layers[layer].neurons.len() {
                return Some(&self.layers[layer].neurons[index]);
            }
        }
        None
    }

    /// Gives the neuron at place `index` of layer `layer` its potentials and
    /// the time since its previous update. Without such a neuron the network
    /// stays as it is.
    pub fn set_neuron(
        &mut self,
        layer: usize,
        index: usize,
        v_mem: u64,
        v_rest: u64,
        v_threshold: u64,
        v_reset: u64,
        delta_t: u64,
    ) -> (r: Result<(), ShapeError>)
        requires
            old(self).wf(),
        ensures
            final(self).wf(),
            final(self)@.sizes() == old(self)@.sizes(),
            match r {
                Ok(_) => {
                    &&& layer < old(self)@.layers.len()
                    &&& index < old(self)@.layers[layer as int].neurons.len()
                    &&& final(self)@ == with_potentials(
                        old(self)@,
                        layer as int,
                        index as int,
                        v_mem,
                        v_rest,
                        v_threshold,
                        v_reset,
                        delta_t,
                    )
                },
                Err(ShapeError::NoSuchNeuron) => {
                    &&& layer >= old(self)@.layers.len() || index
                        >= old(self)@.layers[layer as int].neurons.len()
                    &&& final(self)@ == old(self)@
                },
                Err(_) => false,
            },
    {
        let ghost before = self@;
        if layer >= self.layers.len() {
            return Err(ShapeError::NoSuchNeuron);
        }
        if index >= self.layers[layer].neurons.len() {
            return Err(ShapeError::NoSuchNeuron);
        }
        self.layers[layer].neurons[index].v_mem = v_mem;
        self.layers[layer].neurons[index].v_rest = v_rest;
        self.layers[layer].neurons[index].v_threshold = v_threshold;
        self.layers[layer].neurons[index].v_reset = v_reset;
        self.layers[layer].neurons[index].delta_t = delta_t;
        proof {
            let target = with_potentials(
                before,
                layer as int,
                index as int,
                v_mem,
                v_rest,
                v_threshold,
                v_reset,
                delta_t,
            );
            assert(self@.layers[layer as int].neurons =~= target.layers[layer as int].neurons);
            assert(self@.layers =~= target.layers);
            assert forall|l: int| 0 <= l < before.layers.len() implies (
            #[trigger] self@.layers[l]).neurons.len() == before.layers[l].neurons.len()
                && self@.layers[l].shaped(before.fan_in(l)) by {
                assert(before.layer_wf(l));
            }
            lemma_wf_kept(before, self@);
        }
        Ok(())
    }

    /// Gives the neuron at place `index` of layer `layer` its weights: `prec`
    /// towards the layer before it, `same` within its own layer. Without such
    /// a neuron, or with weights that are not as many as the neurons they come
    /// from, the network stays as it is.
    pub fn set_weights(
        &mut self,
        layer: usize,
        index: usize,
        prec: Vec<u64>,
        same: Vec<u64>,
    ) -> (r: Result<(), ShapeError>)
        requires
            old(self).wf(),
        ensures
            final(self).wf(),
            final(self)@.sizes() == old(self)@.sizes(),
            match r {
                Ok(_) => {
                    &&& layer < old(self)@.layers.len()
                    &&& index < old(self)@.layers[layer as int].neurons.len()
                    &&& prec@.len() == old(self)@.fan_in(layer as int)
                    &&& same@.len() == old(self)@.layers[layer as int].neurons.len()
                    &&& final(self)@ == with_weights(
                        old(self)@,
                        layer as int,
                        index as int,
                        prec@,
                        same@,
                    )
                },
                Err(ShapeError::NoSuchNeuron) => {
                    &&& layer >= old(self)@.layers.len() || index
                        >= old(self)@.layers[layer as int].neurons.len()
                    &&& final(self)@ == old(self)@
                },
                Err(ShapeError::WeightCount) => {
                    &&& layer < old(self)@.layers.len()
                    &&& index < old(self)@.layers[layer as int].neurons.len()
                    &&& prec@.len() != old(self)@.fan_in(layer as int) || same@.len()
                        != old(self)@.layers[layer as int].neurons.len()
                    &&& final(self)@ == old(self)@
                },
                Err(_) => false,
            },
    {
        let ghost before = self@;
        if layer >= self.layers.len() {
            return Err(ShapeError::NoSuchNeuron);
        }
        if index >= self.layers[layer].neurons.len() {
            return Err(ShapeError::NoSuchNeuron);
        }
        let fan_in: usize = if layer == 0 {
            0
        } else {
            self.network_conf[layer - 1]
        };
        if prec.len() != fan_in || same.len() != self.network_conf[layer] {
            return Err(ShapeError::WeightCount);
        }
        let ghost prec_words = prec@;
        let ghost same_words = same@;
        self.layers[layer].neurons[index].connections_prec_layer = prec;
        self.layers[layer].neurons[index].connections_same_layer = same;
        proof {
            let target = with_weights(before, layer as int, index as int, prec_words, same_words);
            assert(self@.layers[layer as int].neurons =~= target.layers[layer as int].neurons);
            assert(self@.layers =~= target.layers);
            assert forall|l: int| 0 <= l < before.layers.len() implies (
            #[trigger] self@.layers[l]).neurons.len() == before.layers[l].neurons.len()
                && self@.layers[l].shaped(before.fan_in(l)) by {
                assert(before.layer_wf(l));
            }
            lemma_wf_kept(before, self@);
        }
        Ok(())
    }

    /// Takes the network through one instant and returns what it emits.
    fn step<F: Fn(FloatOp) -> u64>(
        &mut self,
        input: &Vec<u8>,
        error: &ConfErr,
        time: i32,
        fpu: &F,
    ) -> (out: Vec<u8>)
        requires
            total(*fpu),
            old(self).wf(),
            input@.len() == old(self)@.sizes()[0],
        ensures
            final(self).wf(),
            final(self)@.sizes() == old(self)@.sizes(),
            out@ == final(self)@.output(),
            out@.len() == old(self)@.sizes()[old(self)@.layers.len() - 1],
            forall|o: spec_fn(FloatOp) -> u64| #[trigger]
                computes(*fpu, o) ==> final(self)@ == stepped(
                    old(self)@,
                    input@,
                    *error,
                    time,
                    o,
                ),
    {
        let ghost before = self@;
        let ghost conf = self.network_conf@;
        let count: usize = self.layers.len();
        assert(before.layer_wf(0));
        let mut signal: Vec<u8> = copy_spikes(input);
        self.layers[0].spikes = copy_spikes(input);
        proof {
            assert(self.layers@[0]@.neurons =~= before.layers[0].neurons);
            assert forall|k: int| 0 <= k < count implies (#[trigger] self.layers@[k])@.shaped(
                before.fan_in(k),
            ) by {
                assert(before.layer_wf(k));
            }
        }
        let mut l: usize = 1;
        while l < count
            invariant
                total(*fpu),
                before.wf(),
                count == self.layers@.len(),
                count == before.layers.len(),
                self.network_conf@ == conf,
                1 <= l <= count,
                signal@ == self.layers@[l - 1]@.spikes,
                forall|k: int|
                    0 <= k < count ==> (#[trigger] self.layers@[k])@.neurons.len()
                        == before.layers[k].neurons.len(),
                forall|k: int|
                    0 <= k < count ==> (#[trigger] self.layers@[k])@.shaped(before.fan_in(k)),
                forall|k: int, i: int|
                    0 <= k < count && 0 <= i < before.layers[k].neurons.len() ==> (
                    #[trigger] self.layers@[k]@.neurons[i]).id == before.layers[k].neurons[i].id,
                forall|k: int| l <= k < count ==> (#[trigger] self.layers@[k])@ == before.layers[k],
                forall|o: spec_fn(FloatOp) -> u64, k: int|
                    computes(*fpu, o) && 0 <= k < l ==> #[trigger] stepped_layer(
                        before,
                        input@,
                        *error,
                        time,
                        o,
                        k as nat,
                    ) == self.layers@[k]@,
            decreases count - l,
        {
            let ghost fed = signal@;
            assert(self.layers@[l - 1]@.shaped(before.fan_in(l - 1)));
            assert(self.layers@[l as int]@.shaped(before.fan_in(l as int)));
            signal = self.layers[l].forward(&signal, error, time, fpu);
            proof {
                assert forall|o: spec_fn(FloatOp) -> u64, k: int|
                    computes(*fpu, o) && 0 <= k < l + 1 implies #[trigger] stepped_layer(
                    before,
                    input@,
                    *error,
                    time,
                    o,
                    k as nat,
                ) == self.layers@[k]@ by {
                    if k == l {
                        assert(stepped_layer(before, input@, *error, time, o, (l - 1) as nat).spikes
                            == fed);
                    }
                }
            }
            l = l + 1;
        }
        proof {
            assert(self@.sizes() =~= before.sizes());
            assert(self.layers@[count - 1]@.shaped(before.fan_in(count - 1)));
            assert forall|k: int| 0 <= k < count implies #[trigger] self@.layer_wf(k) by {
                assert(before.layer_wf(k));
                assert(self.layers@[k]@.shaped(before.fan_in(k)));
                if k > 0 {
                    assert(self.layers@[k - 1]@.neurons.len() == before.layers[k - 1].neurons.len());
                }
            }
            assert forall|k: int| 0 <= k < count implies #[trigger] self.network_conf@[k]
                == self.layers@[k].neurons@.len() by {
                assert(self.layers@[k]@.neurons.len() == before.layers[k].neurons.len());
            }
            assert forall|o: spec_fn(FloatOp) -> u64| #[trigger] computes(*fpu, o) implies self@
                == stepped(before, input@, *error, time, o) by {
                assert(self@.layers =~= stepped(before, input@, *error, time, o).layers);
            }
        }
        signal
    }

    /// Runs the network over the instants of `inputs` under the fault
    /// `error`, from the state it is in, and returns what it emits at each
    /// instant. The network is left as the run leaves it: a second run that is
    /// to be held against this one starts from a copy made before.
    ///
    /// A run is refused, and the network untouched, if its instants cannot
    /// be numbered or if an input is not as long as the first layer.
    pub fn simulation<F: Fn(FloatOp) -> u64>(
        &mut self,
        inputs: &Vec<Vec<u8>>,
        error: &ConfErr,
        fpu: &F,
    ) -> (r: Result<Vec<Vec<u8>>, ShapeError>)
        requires
            total(*fpu),
            old(self).wf(),
        ensures
            final(self).wf(),
            final(self)@.sizes() == old(self)@.sizes(),
            match r {
                Ok(outputs) => {
                    &&& inputs@.len() <= i32::MAX
                    &&& forall|t: int|
                        0 <= t < inputs@.len() ==> (#[trigger] inputs@[t])@.len() == old(
                            self,
                        )@.sizes()[0]
                    &&& outputs@.len() == inputs@.len()
                    &&& forall|t: int|
                        0 <= t < outputs@.len() ==> (#[trigger] outputs@[t])@.len() == old(
                            self,
                        )@.sizes()[old(self)@.layers.len() - 1]
                    &&& follows(
                        *fpu,
                        old(self)@,
                        rows(inputs@),
                        *error,
                        final(self)@,
                        rows(outputs@),
                    )
                },
                Err(ShapeError::TooManyInstants) => {
                    &&& inputs@.len() > i32::MAX
                    &&& final(self)@ == old(self)@
                },
                Err(ShapeError::InputLength { instant }) => {
                    &&& inputs@.len() <= i32::MAX
                    &&& instant < inputs@.len()
                    &&& inputs@[instant as int]@.len() != old(self)@.sizes()[0]
                    &&& forall|t: int|
                        0 <= t < instant ==> (#[trigger] inputs@[t])@.len() == old(
                            self,
                        )@.sizes()[0]
                    &&& final(self)@ == old(self)@
                },
                Err(_) => false,
            },
    {
        let ghost before = self@;
        assert(before.layer_wf(0));
        if inputs.len() > 0x7FFF_FFFF {
            return Err(ShapeError::TooManyInstants);
        }
        let width: usize = self.network_conf[0];
        let mut t: usize = 0;
        while t < inputs.len()
            invariant
                self.wf(),
                self@ == before,
                before.wf(),
                t <= inputs@.len() <= i32::MAX,
                width == before.sizes()[0],
                forall|j: int| 0 <= j < t ==> (#[trigger] inputs@[j])@.len() == width,
            decreases inputs@.len() - t,
        {
            if inputs[t].len() != width {
                return Err(ShapeError::InputLength { instant: t });
            }
            t = t + 1;
        }
        let mut outputs: Vec<Vec<u8>> = Vec::new();
        let mut t: usize = 0;
        while t < inputs.len()
            invariant
                total(*fpu),
                self.wf(),
                before.wf(),
                self@.sizes() == before.sizes(),
                t <= inputs@.len() <= i32::MAX,
                width == before.sizes()[0],
                forall|j: int| 0 <= j < inputs@.len() ==> (#[trigger] inputs@[j])@.len() == width,
                outputs@.len() == t,
                forall|j: int|
                    0 <= j < t ==> (#[trigger] outputs@[j])@.len() == before.sizes()[
                        before.layers.len() - 1],
                forall|o: spec_fn(FloatOp) -> u64| #[trigger]
                    computes(*fpu, o) ==> self@ == run(before, rows(inputs@), *error, o, t as nat),
                forall|o: spec_fn(FloatOp) -> u64, j: int|
                    computes(*fpu, o) && 0 <= j < t ==> #[trigger] trace(
                        before,
                        rows(inputs@),
                        *error,
                        o,
                    )[j] == outputs@[j]@,
            decreases inputs@.len() - t,
        {
            assert(self@.layers.len() == before.layers.len()) by {
                assert(self@.sizes().len() == before.sizes().len());
            }
            let out: Vec<u8> = self.step(&inputs[t], error, t as i32, fpu);
            outputs.push(out);
            t = t + 1;
        }
        proof {
            assert forall|o: spec_fn(FloatOp) -> u64| #[trigger] computes(*fpu, o) implies rows(
                outputs@,
            ) == trace(before, rows(inputs@), *error, o) by {
                let target = trace(before, rows(inputs@), *error, o);
                assert forall|j: int| 0 <= j < outputs@.len() implies rows(outputs@)[j]
                    == target[j] by {
                    assert(trace(before, rows(inputs@), *error, o)[j] == outputs@[j]@);
                }
                assert(rows(outputs@) =~= target);
            }
        }
        Ok(outputs)
    }

    /// Runs the network with no fault in it.
    pub fn simulation_without_errors<F: Fn(FloatOp) -> u64>(
        &mut self,
        inputs: &Vec<Vec<u8>>,
        fpu: &F,
    ) -> (r: Result<Vec<Vec<u8>>, ShapeError>)
        requires
            total(*fpu),
            old(self).wf(),
        ensures
            final(self).wf(),
            final(self)@.sizes() == old(self)@.sizes(),
            match r {
                Ok(outputs) => {
                    &&& inputs@.len() <= i32::MAX
                    &&& forall|t: int|
                        0 <= t < inputs@.len() ==> (#[trigger] inputs@[t])@.len() == old(
                            self,
                        )@.sizes()[0]
                    &&& outputs@.len() == inputs@.len()
                    &&& forall|t: int|
                        0 <= t < outputs@.len() ==> (#[trigger] outputs@[t])@.len() == old(
                            self,
                        )@.sizes()[old(self)@.layers.len() - 1]
                    &&& follows(
                        *fpu,
                        old(self)@,
                        rows(inputs@),
                        ConfErr::absent(),
                        final(self)@,
                        rows(outputs@),
                    )
                },
                Err(ShapeError::TooManyInstants) => {
                    &&& inputs@.len() > i32::MAX
                    &&& final(self)@ == old(self)@
                },
                Err(ShapeError::InputLength { instant }) => {
                    &&& inputs@.len() <= i32::MAX
                    &&& instant < inputs@.len()
                    &&& inputs@[instant as int]@.len() != old(self)@.sizes()[0]
                    &&& forall|t: int|
                        0 <= t < instant ==> (#[trigger] inputs@[t])@.len() == old(
                            self,
                        )@.sizes()[0]
                    &&& final(self)@ == old(self)@
                },
                Err(_) => false,
            },
    {
        let error: ConfErr = ConfErr::none();
        self.simulation(inputs, &error, fpu)
    }
}

} // verus!
