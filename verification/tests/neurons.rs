use snn::errors::{ConfErr, ErrorComponent, Type};
use snn::lif;
use snn::neuron::{adder, apply_fault, integrate, multiplier, Neuron, TAU};
use snn::unit::FloatOp;
use snn::word::{corrupt_bit, ONE};

fn ieee_unit(op: FloatOp) -> u64 {
    match op {
        FloatOp::Add(a, b) => (f64::from_bits(a) + f64::from_bits(b)).to_bits(),
        FloatOp::Mul(a, b) => (f64::from_bits(a) * f64::from_bits(b)).to_bits(),
        FloatOp::Div(a, b) => (f64::from_bits(a) / f64::from_bits(b)).to_bits(),
        FloatOp::Exp(a) => f64::from_bits(a).exp().to_bits(),
    }
}

fn w(x: f64) -> u64 {
    x.to_bits()
}

fn fault(id: usize, kind: Type, comp: ErrorComponent, bit: u8, at: i32) -> ConfErr {
    ConfErr { id_neuron: id, err_type: kind, err_comp: comp, w_pos: 0, n_bit: bit, t_start: at }
}

fn neuron(id: usize, v_mem: f64, threshold: f64, prec: &[f64], same: &[f64]) -> Neuron {
    Neuron {
        id,
        v_mem: w(v_mem),
        v_rest: w(0.0),
        v_threshold: w(threshold),
        v_reset: w(0.0),
        delta_t: w(0.0),
        connections_prec_layer: prec.iter().map(|x| x.to_bits()).collect(),
        connections_same_layer: same.iter().map(|x| x.to_bits()).collect(),
    }
}

#[test]
fn adder_without_fault_is_the_sum() {
    let e = ConfErr::none();
    assert_eq!(adder(w(1.5), w(2.25), &e, false, &ieee_unit), w(3.75));
    assert_eq!(adder(w(1.5), w(2.25), &e, true, &ieee_unit), w(3.75));
    assert_eq!(adder(w(0.1), w(0.2), &e, false, &ieee_unit), w(0.1 + 0.2));
}

#[test]
fn adder_is_struck_only_when_active_and_named() {
    let e = fault(0, Type::Stuck1, ErrorComponent::Adder, 63, 0);
    assert_eq!(adder(w(1.0), w(2.0), &e, true, &ieee_unit), w(-3.0));
    assert_eq!(adder(w(1.0), w(2.0), &e, false, &ieee_unit), w(3.0));
    let m = fault(0, Type::Stuck1, ErrorComponent::Multiplier, 63, 0);
    assert_eq!(adder(w(1.0), w(2.0), &m, true, &ieee_unit), w(3.0));
    let t = fault(0, Type::Stuck1, ErrorComponent::Threshold, 63, 0);
    assert_eq!(adder(w(1.0), w(2.0), &t, true, &ieee_unit), w(3.0));
    let none = fault(0, Type::NoError, ErrorComponent::Adder, 63, 0);
    assert_eq!(adder(w(1.0), w(2.0), &none, true, &ieee_unit), w(3.0));
}

#[test]
fn multiplier_is_struck_only_when_active_and_named() {
    let e = fault(0, Type::BitFlip, ErrorComponent::Multiplier, 63, 0);
    assert_eq!(multiplier(w(3.0), w(2.0), &e, true, &ieee_unit), w(-6.0));
    assert_eq!(multiplier(w(3.0), w(2.0), &e, false, &ieee_unit), w(6.0));
    let a = fault(0, Type::BitFlip, ErrorComponent::Adder, 63, 0);
    assert_eq!(multiplier(w(3.0), w(2.0), &a, true, &ieee_unit), w(6.0));
    let s0 = fault(0, Type::Stuck0, ErrorComponent::Multiplier, 62, 0);
    assert_eq!(
        multiplier(w(3.0), w(2.0), &s0, true, &ieee_unit),
        corrupt_bit(w(6.0), 62, Type::Stuck0)
    );
}

#[test]
fn apply_fault_strikes_the_named_operation() {
    let e = fault(0, Type::Stuck0, ErrorComponent::Adder, 61, 0);
    assert_eq!(apply_fault(ONE, &e, true, ErrorComponent::Adder), 0x1FF0_0000_0000_0000);
    assert_eq!(apply_fault(ONE, &e, true, ErrorComponent::Multiplier), ONE);
    assert_eq!(apply_fault(ONE, &e, false, ErrorComponent::Adder), ONE);
}

#[test]
fn faults_may_yield_what_is_no_number() {
    let e = fault(0, Type::Stuck1, ErrorComponent::Adder, 62, 0);
    let r = adder(w(1.5), w(0.0), &e, true, &ieee_unit);
    assert!(f64::from_bits(r).is_nan());
    let mut sound = neuron(0, 1.5, 1.0, &[1.0], &[]);
    assert_eq!(lif(&mut sound, &vec![1], &vec![], &ConfErr::none(), 0, &ieee_unit), 1);
    assert_eq!(sound.v_mem, w(0.0));
    let mut n = neuron(0, 1.5, 1.0, &[1.0], &[]);
    let spike = lif(&mut n, &vec![1], &vec![], &e, 0, &ieee_unit);
    assert_eq!(spike, 0);
    assert!(f64::from_bits(n.v_mem).is_nan());
}

#[test]
fn integrate_adds_the_weighted_inputs_in_order() {
    let e = ConfErr::none();
    let inputs: Vec<u8> = vec![1, 0, 1, 1];
    let weights: Vec<u64> = vec![w(0.1), w(100.0), w(0.2), w(0.3)];
    let expected = (((0.5f64 + 1.0 * 0.1) + 0.0 * 100.0) + 1.0 * 0.2) + 1.0 * 0.3;
    assert_eq!(integrate(w(0.5), &inputs, &weights, &e, false, &ieee_unit), w(expected));
    assert_eq!(integrate(w(0.5), &vec![], &weights, &e, false, &ieee_unit), w(0.5));
}

#[test]
fn struck_quantities_are_the_named_ones() {
    let base = neuron(7, 1.0, 1.0, &[1.0, 1.0], &[1.0]);
    let cases = [
        ErrorComponent::Threshold,
        ErrorComponent::VRest,
        ErrorComponent::VMem,
        ErrorComponent::VReset,
        ErrorComponent::Weights,
        ErrorComponent::Multiplier,
        ErrorComponent::Adder,
    ];
    for comp in cases {
        let mut n = base.clone();
        let mut e = fault(7, Type::Stuck1, comp, 63, 0);
        e.w_pos = 4;
        n.neuron_create_error(&e);
        let hit = |on: bool, x: u64| if on { x | (1u64 << 63) } else { x };
        assert_eq!(n.id, 7);
        assert_eq!(n.v_threshold, hit(comp == ErrorComponent::Threshold, base.v_threshold));
        assert_eq!(n.v_rest, hit(comp == ErrorComponent::VRest, base.v_rest));
        assert_eq!(n.v_mem, hit(comp == ErrorComponent::VMem, base.v_mem));
        assert_eq!(n.v_reset, hit(comp == ErrorComponent::VReset, base.v_reset));
        assert_eq!(n.delta_t, base.delta_t);
        let weights = comp == ErrorComponent::Weights;
        assert_eq!(n.connections_prec_layer[0], base.connections_prec_layer[0]);
        assert_eq!(n.connections_prec_layer[1], hit(weights, base.connections_prec_layer[1]));
        assert_eq!(n.connections_same_layer[0], base.connections_same_layer[0]);
    }
}

#[test]
fn struck_weight_is_counted_through_both_rows() {
    let base = neuron(0, 0.0, 1.0, &[1.0, 2.0], &[3.0, 4.0, 5.0]);
    for pos in 0..12usize {
        let mut n = base.clone();
        let mut e = fault(0, Type::BitFlip, ErrorComponent::Weights, 0, 0);
        e.w_pos = pos;
        n.neuron_create_error(&e);
        let k = pos % 5;
        for i in 0..2 {
            let expected = base.connections_prec_layer[i] ^ ((k == i) as u64);
            assert_eq!(n.connections_prec_layer[i], expected);
        }
        for j in 0..3 {
            let expected = base.connections_same_layer[j] ^ ((k == j + 2) as u64);
            assert_eq!(n.connections_same_layer[j], expected);
        }
    }
    let mut bare = neuron(0, 0.0, 1.0, &[], &[]);
    let e = fault(0, Type::BitFlip, ErrorComponent::Weights, 0, 0);
    bare.neuron_create_error(&e);
    assert!(bare.connections_prec_layer.is_empty() && bare.connections_same_layer.is_empty());
}

#[test]
fn lif_fires_above_threshold_and_resets() {
    let mut n = neuron(0, 0.0, 1.0, &[1.0, 1.0], &[0.0]);
    n.v_reset = w(0.25);
    let spike = lif(&mut n, &vec![1, 1], &vec![0], &ConfErr::none(), 0, &ieee_unit);
    assert_eq!(spike, 1);
    assert_eq!(n.v_mem, w(0.25));
    assert_eq!(n.delta_t, ONE);
}

#[test]
fn lif_does_not_fire_at_the_threshold() {
    let mut n = neuron(0, 0.0, 1.0, &[1.0, 1.0], &[0.0]);
    let spike = lif(&mut n, &vec![1, 0], &vec![0], &ConfErr::none(), 0, &ieee_unit);
    assert_eq!(spike, 0);
    assert_eq!(n.v_mem, w(1.0));
    assert_eq!(n.delta_t, ONE);
}

#[test]
fn lif_leaks_towards_rest() {
    let mut n = neuron(0, 1.0, 5.0, &[], &[]);
    n.v_rest = w(0.5);
    n.delta_t = w(0.2);
    let spike = lif(&mut n, &vec![], &vec![], &ConfErr::none(), 3, &ieee_unit);
    let expected = 0.5 + (1.0 + -0.5) * f64::exp(-0.2 / 0.1);
    assert_eq!(spike, 0);
    assert_eq!(n.v_mem, w(expected));
    assert_eq!(n.delta_t, ONE);
    let again = lif(&mut n, &vec![], &vec![], &ConfErr::none(), 4, &ieee_unit);
    let expected = 0.5 + (expected + -0.5) * f64::exp(-1.0 / 0.1);
    assert_eq!(again, 0);
    assert_eq!(n.v_mem, w(expected));
}

#[test]
fn lif_takes_in_both_layers() {
    let mut n = neuron(0, 0.0, 10.0, &[0.5, 0.25], &[2.0, 4.0]);
    let spike = lif(&mut n, &vec![1, 1], &vec![0, 1], &ConfErr::none(), 0, &ieee_unit);
    assert_eq!(spike, 0);
    assert_eq!(n.v_mem, w(4.75));
}

#[test]
fn lif_uses_no_more_weights_than_inputs() {
    let mut n = neuron(0, 0.0, 10.0, &[0.5, 0.25, 8.0], &[2.0, 4.0]);
    let spike = lif(&mut n, &vec![1, 1], &vec![1], &ConfErr::none(), 0, &ieee_unit);
    assert_eq!(spike, 0);
    assert_eq!(n.v_mem, w(2.75));
}

#[test]
fn lif_stuck_fault_is_at_work_at_every_instant() {
    let e = fault(0, Type::Stuck1, ErrorComponent::Adder, 63, 5);
    for time in [0, 1, 5, 9] {
        let mut n = neuron(0, 0.0, 1.0, &[1.0, 1.0], &[]);
        assert_eq!(lif(&mut n, &vec![1, 1], &vec![], &e, time, &ieee_unit), 0);
        assert_eq!(n.v_mem, w(-0.0));
    }
}

#[test]
fn lif_bit_flip_is_at_work_at_its_instant_only() {
    let e = fault(0, Type::BitFlip, ErrorComponent::Multiplier, 63, 5);
    for time in [0, 1, 4, 6] {
        let mut n = neuron(0, 0.0, 1.5, &[1.0, 1.0], &[]);
        assert_eq!(lif(&mut n, &vec![1, 1], &vec![], &e, time, &ieee_unit), 1);
    }
    let mut n = neuron(0, 0.0, 1.5, &[1.0, 1.0], &[]);
    assert_eq!(lif(&mut n, &vec![1, 1], &vec![], &e, 5, &ieee_unit), 0);
    assert_eq!(n.v_mem, w(-2.0));
}

#[test]
fn lif_fault_in_another_neuron_changes_nothing() {
    let e = fault(1, Type::Stuck1, ErrorComponent::Adder, 63, 0);
    let mut n = neuron(0, 0.0, 1.0, &[1.0, 1.0], &[]);
    let mut m = n.clone();
    let a = lif(&mut n, &vec![1, 1], &vec![], &e, 0, &ieee_unit);
    let b = lif(&mut m, &vec![1, 1], &vec![], &ConfErr::none(), 0, &ieee_unit);
    assert_eq!((a, n.v_mem, n.v_threshold), (b, m.v_mem, m.v_threshold));
    assert_eq!(a, 1);
}

#[test]
fn lif_fault_in_a_stored_quantity_persists() {
    let e = fault(0, Type::BitFlip, ErrorComponent::Threshold, 62, 2);
    let mut n = neuron(0, 0.0, 0.5, &[1.0], &[]);
    assert_eq!(lif(&mut n, &vec![1], &vec![], &e, 0, &ieee_unit), 1);
    assert_eq!(lif(&mut n, &vec![1], &vec![], &e, 1, &ieee_unit), 1);
    assert_eq!(n.v_threshold, w(0.5));
    assert_eq!(lif(&mut n, &vec![1], &vec![], &e, 2, &ieee_unit), 0);
    let struck = corrupt_bit(w(0.5), 62, Type::BitFlip);
    assert_eq!(n.v_threshold, struck);
    assert_eq!(lif(&mut n, &vec![1], &vec![], &e, 3, &ieee_unit), 0);
    assert_eq!(n.v_threshold, struck);
}

#[test]
fn lif_asks_the_unit_in_a_fixed_order() {
    let log = std::cell::RefCell::new(Vec::new());
    let unit = |op: FloatOp| {
        log.borrow_mut().push(op);
        ieee_unit(op)
    };
    let mut n = neuron(0, 0.75, 9.0, &[0.5], &[0.25]);
    n.v_rest = w(0.5);
    n.delta_t = w(0.3);
    lif(&mut n, &vec![1], &vec![1], &ConfErr::none(), 0, &unit);
    let ops: Vec<FloatOp> = log.borrow().clone();
    let kinds: Vec<u8> = ops
        .iter()
        .map(|op| match op {
            FloatOp::Add(..) => 0,
            FloatOp::Mul(..) => 1,
            FloatOp::Div(..) => 2,
            FloatOp::Exp(..) => 3,
        })
        .collect();
    assert_eq!(kinds, vec![0, 2, 3, 1, 0, 1, 0, 1, 0]);
    match ops[0] {
        FloatOp::Add(a, b) => assert_eq!((a, b), (w(0.75), w(-0.5))),
        _ => panic!("the first operation is a sum"),
    }
    match ops[1] {
        FloatOp::Div(a, b) => assert_eq!((a, b), (w(-0.3), TAU)),
        _ => panic!("the second operation is a quotient"),
    }
}

#[test]
fn a_stuck_quantity_struck_twice_is_as_struck_once() {
    let comps = [
        ErrorComponent::Threshold,
        ErrorComponent::VRest,
        ErrorComponent::VMem,
        ErrorComponent::VReset,
        ErrorComponent::Weights,
    ];
    for comp in comps {
        for kind in [Type::Stuck0, Type::Stuck1] {
            for bit in [0u8, 31, 52, 62, 63] {
                let mut once = neuron(3, 0.3, 0.7, &[0.1, 0.2], &[0.4]);
                once.v_rest = w(-0.2);
                once.v_reset = w(0.05);
                let mut e = fault(3, kind, comp, bit, 0);
                e.w_pos = 2;
                once.neuron_create_error(&e);
                let mut twice = once.clone();
                twice.neuron_create_error(&e);
                assert_eq!(
                    (twice.v_mem, twice.v_rest, twice.v_threshold, twice.v_reset),
                    (once.v_mem, once.v_rest, once.v_threshold, once.v_reset)
                );
                assert_eq!(twice.connections_prec_layer, once.connections_prec_layer);
                assert_eq!(twice.connections_same_layer, once.connections_same_layer);
            }
        }
    }
}
