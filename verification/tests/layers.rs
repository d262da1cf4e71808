use snn::errors::{ConfErr, ErrorComponent, Type};
use snn::layer::Layer;
use snn::lif;
use snn::neuron::Neuron;
use snn::unit::FloatOp;

fn float_unit(op: FloatOp) -> u64 {
    match op {
        FloatOp::Add(a, b) => (f64::from_bits(a) + f64::from_bits(b)).to_bits(),
        FloatOp::Mul(a, b) => (f64::from_bits(a) * f64::from_bits(b)).to_bits(),
        FloatOp::Div(a, b) => (f64::from_bits(a) / f64::from_bits(b)).to_bits(),
        FloatOp::Exp(a) => f64::from_bits(a).exp().to_bits(),
    }
}

fn plain(id: usize, threshold: f64, prec: &[f64], same: &[f64]) -> Neuron {
    Neuron {
        id,
        v_mem: 0,
        v_rest: 0,
        v_threshold: threshold.to_bits(),
        v_reset: 0,
        delta_t: 0,
        connections_prec_layer: prec.iter().map(|x| x.to_bits()).collect(),
        connections_same_layer: same.iter().map(|x| x.to_bits()).collect(),
    }
}

fn ring() -> Layer {
    Layer {
        neurons: vec![
            plain(10, 0.5, &[1.0, 0.0], &[0.0, 0.0, 0.0]),
            plain(11, 0.5, &[0.0, 0.0], &[1.0, 0.0, 0.0]),
            plain(12, 0.5, &[0.0, 0.0], &[0.0, 1.0, 0.0]),
        ],
        spikes: vec![0, 0, 0],
    }
}

#[test]
fn forward_updates_each_neuron_on_the_spikes_of_the_instant_before() {
    let mut layer = ring();
    let none = ConfErr::none();
    assert_eq!(layer.forward(&vec![1, 0], &none, 0, &float_unit), vec![1, 0, 0]);
    assert_eq!(layer.spikes, vec![1, 0, 0]);
    assert_eq!(layer.forward(&vec![0, 0], &none, 1, &float_unit), vec![0, 1, 0]);
    assert_eq!(layer.forward(&vec![1, 1], &none, 2, &float_unit), vec![1, 0, 1]);
    assert_eq!(layer.forward(&vec![0, 1], &none, 3, &float_unit), vec![0, 1, 0]);
    assert_eq!(layer.spikes, vec![0, 1, 0]);
    assert_eq!(layer.neurons.iter().map(|n| n.id).collect::<Vec<usize>>(), vec![10, 11, 12]);
}

#[test]
fn forward_is_one_update_of_each_neuron() {
    let mut layer = ring();
    layer.spikes = vec![1, 1, 0];
    let mut apart = layer.clone();
    let fault = ConfErr {
        id_neuron: 11,
        err_type: Type::Stuck1,
        err_comp: ErrorComponent::Adder,
        w_pos: 0,
        n_bit: 63,
        t_start: 0,
    };
    let inputs = vec![1, 1];
    let out = layer.forward(&inputs, &fault, 4, &float_unit);
    let before = apart.spikes.clone();
    for (i, neuron) in apart.neurons.iter_mut().enumerate() {
        let spike = lif(neuron, &inputs, &before, &fault, 4, &float_unit);
        assert_eq!(out[i], spike);
        assert_eq!(layer.neurons[i].v_mem, neuron.v_mem);
        assert_eq!(layer.neurons[i].delta_t, neuron.delta_t);
    }
    assert_eq!(out, vec![1, 0, 1]);
}

#[test]
fn duplicate_of_a_layer_is_updated_apart() {
    let layer = ring();
    let mut copy = layer.duplicate();
    assert_eq!(copy.forward(&vec![1, 0], &ConfErr::none(), 0, &float_unit), vec![1, 0, 0]);
    assert_eq!(layer.spikes, vec![0, 0, 0]);
    assert_eq!(layer.neurons[0].delta_t, 0);
    assert_eq!(copy.neurons[0].delta_t, 1.0f64.to_bits());
}
