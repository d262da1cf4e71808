use rand::rngs::StdRng;
use rand::SeedableRng;
use snn::campaign::{Campaign, CampaignError};
use snn::errors::{ErrorComponent, FaultError, Type};
use snn::network::{Network, ShapeError};
use snn::resilience::Resilience;
use snn::unit::FloatOp;
use snn::{compute_differences1, compute_differences2};

fn arithmetic(op: FloatOp) -> u64 {
    match op {
        FloatOp::Add(a, b) => (f64::from_bits(a) + f64::from_bits(b)).to_bits(),
        FloatOp::Mul(a, b) => (f64::from_bits(a) * f64::from_bits(b)).to_bits(),
        FloatOp::Div(a, b) => (f64::from_bits(a) / f64::from_bits(b)).to_bits(),
        FloatOp::Exp(a) => f64::from_bits(a).exp().to_bits(),
    }
}

fn small_network() -> Network {
    let mut net = Network::new_empty(vec![2, 2, 2]).unwrap();
    let half = 0.5f64.to_bits();
    let one = 1.0f64.to_bits();
    for layer in 1..3 {
        for index in 0..2 {
            net.set_neuron(layer, index, 0, 0, half, 0, 0).unwrap();
            let mut prec = vec![0u64; 2];
            prec[index] = one;
            net.set_weights(layer, index, prec, vec![0, 0]).unwrap();
        }
    }
    net
}

fn inputs() -> Vec<Vec<u8>> {
    vec![vec![1, 0], vec![1, 1], vec![0, 1], vec![0, 0], vec![1, 1]]
}

#[test]
fn duplicate_is_run_apart() {
    let net = small_network();
    let mut copy = net.duplicate();
    assert_eq!(copy.network_conf(), net.network_conf());
    let outputs = copy.simulation_without_errors(&inputs(), &arithmetic).unwrap();
    assert_eq!(outputs, inputs());
    assert_eq!(net.neuron(1, 0).unwrap().delta_t, 0);
    assert_eq!(copy.neuron(1, 0).unwrap().delta_t, 1.0f64.to_bits());
    let again = net.duplicate().simulation_without_errors(&inputs(), &arithmetic).unwrap();
    assert_eq!(again, outputs);
    let n = net.neuron(2, 1).unwrap();
    let m = n.duplicate();
    assert_eq!((m.id, m.v_threshold), (n.id, n.v_threshold));
    assert_eq!(m.connections_prec_layer, n.connections_prec_layer);
    assert_eq!(m.connections_same_layer, n.connections_same_layer);
}

#[test]
fn a_campaign_tallies_its_runs() {
    let net = small_network();
    let comps = vec![ErrorComponent::Adder, ErrorComponent::Multiplier, ErrorComponent::Threshold];
    let mut rng = StdRng::seed_from_u64(42);
    let c = Campaign::run(&net, &inputs(), Type::Stuck1, &comps, 60, &mut rng, &arithmetic)
        .unwrap();
    assert_eq!(c.golden, inputs());
    assert_eq!(c.golden, net.duplicate().simulation_without_errors(&inputs(), &arithmetic).unwrap());
    assert_eq!(c.inferences.len(), 60);
    let mut failed = 0;
    let mut wrong = 0;
    for inference in &c.inferences {
        let e = inference.error;
        assert_eq!(e.err_type, Type::Stuck1);
        assert!(comps.contains(&e.err_comp));
        assert!(e.id_neuron < 6 && e.n_bit < 64);
        assert_eq!(e.t_start, 0);
        let alone = net.duplicate().simulation(&inputs(), &e, &arithmetic).unwrap();
        assert_eq!(inference.outputs, alone);
        failed += compute_differences1(&c.golden, &inference.outputs);
        wrong += compute_differences2(&c.golden, &inference.outputs);
    }
    assert_eq!(
        c.tally,
        Resilience { inferences: 60, count_err1: failed, bits: 60 * 5 * 2, count_err2: wrong }
    );
    assert!(failed > 0 && failed < 60);
    assert!(wrong >= failed);
    assert_eq!(c.tally.resilience1(), Some((60 - failed) * 100 / 60));
    assert_eq!(c.tally.resilience2(), Some((600 - wrong) * 100 / 600));
    assert_eq!(net.neuron(1, 0).unwrap().delta_t, 0);
}

#[test]
fn a_campaign_under_no_error_finds_no_difference() {
    let net = small_network();
    let comps = vec![ErrorComponent::Adder, ErrorComponent::VMem];
    let mut rng = StdRng::seed_from_u64(1);
    let c = Campaign::run(&net, &inputs(), Type::NoError, &comps, 7, &mut rng, &arithmetic)
        .unwrap();
    for inference in &c.inferences {
        assert_eq!(inference.outputs, c.golden);
    }
    assert_eq!(c.tally, Resilience { inferences: 7, count_err1: 0, bits: 70, count_err2: 0 });
    assert_eq!(c.tally.resilience1(), Some(100));
    assert_eq!(c.tally.resilience2(), Some(100));
}

#[test]
fn a_campaign_without_faulty_runs_has_no_score() {
    let net = small_network();
    let mut rng = StdRng::seed_from_u64(1);
    let c = Campaign::run(&net, &inputs(), Type::BitFlip, &vec![], 0, &mut rng, &arithmetic)
        .unwrap();
    assert_eq!(c.golden, inputs());
    assert!(c.inferences.is_empty());
    assert_eq!(c.tally, Resilience::new());
    assert_eq!(c.tally.resilience1(), None);
    let none = Campaign::run(&net, &vec![], Type::BitFlip, &vec![], 0, &mut rng, &arithmetic)
        .unwrap();
    assert!(none.golden.is_empty());
}

#[test]
fn a_campaign_flips_bits_within_the_run() {
    let net = small_network();
    let comps = vec![ErrorComponent::Multiplier];
    let mut rng = StdRng::seed_from_u64(9);
    let c = Campaign::run(&net, &inputs(), Type::BitFlip, &comps, 40, &mut rng, &arithmetic)
        .unwrap();
    for inference in &c.inferences {
        assert!((0..5).contains(&inference.error.t_start));
        assert_eq!(inference.error.err_comp, ErrorComponent::Multiplier);
        assert!(compute_differences2(&c.golden, &inference.outputs) <= 2);
    }
}

#[test]
fn a_campaign_is_refused_for_a_reason() {
    let net = small_network();
    let adder = vec![ErrorComponent::Adder];
    let mut rng = StdRng::seed_from_u64(1);
    let bad = vec![vec![1, 0], vec![1]];
    assert_eq!(
        Campaign::run(&net, &bad, Type::Stuck0, &vec![], 3, &mut rng, &arithmetic).err(),
        Some(CampaignError::Shape(ShapeError::InputLength { instant: 1 }))
    );
    assert_eq!(
        Campaign::run(&net, &inputs(), Type::Stuck0, &vec![], 3, &mut rng, &arithmetic).err(),
        Some(CampaignError::Fault(FaultError::NoComponent))
    );
    assert_eq!(
        Campaign::run(&net, &vec![], Type::BitFlip, &vec![], 3, &mut rng, &arithmetic).err(),
        Some(CampaignError::Fault(FaultError::NoComponent))
    );
    assert_eq!(
        Campaign::run(&net, &vec![], Type::BitFlip, &adder, 3, &mut rng, &arithmetic).err(),
        Some(CampaignError::Fault(FaultError::NoSuchInstant))
    );
    assert_eq!(
        Campaign::run(&net, &inputs(), Type::Stuck0, &adder, usize::MAX, &mut rng, &arithmetic)
            .err(),
        Some(CampaignError::TooManyValues)
    );
    let empty = Campaign::run(&net, &vec![], Type::Stuck0, &adder, 3, &mut rng, &arithmetic)
        .unwrap();
    assert_eq!(empty.tally, Resilience { inferences: 3, count_err1: 0, bits: 0, count_err2: 0 });
    assert_eq!(empty.tally.resilience1(), Some(100));
    assert_eq!(empty.tally.resilience2(), None);
}
