//! A campaign: one faultless run of a network, then a series of runs from
//! the same state, each under a fault of its own, and the scores that the
//! series earns.

use vstd::prelude::*;
use crate::errors::{ConfErr, ErrorComponent, FaultError, Type};
use crate::network::{rows, trace, Network, NetworkState, ShapeError};
use crate::resilience::{
    any_mismatch, cells, covers, lemma_cells_of_rectangle, lemma_mismatches_bounded,
    mismatch_count, Resilience,
};
use crate::unit::{computes, total, FloatOp};

verus! {

/// One faulty run: the fault, and what the network emitted under it.
#[derive(Clone, Debug)]
pub struct Inference {
    pub error: ConfErr,
    pub outputs: Vec<Vec<u8>>,
}

/// What a campaign yields.
#[derive(Clone, Debug)]
pub struct Campaign {
    /// What the network emits without a fault.
    pub golden: Vec<Vec<u8>>,
    /// The faulty runs, in the order in which they were made.
    pub inferences: Vec<Inference>,
    /// The faulty runs held against the faultless one.
    pub tally: Resilience,
}

/// Why there was no campaign.
#[derive(Clone, Copy, Debug, PartialEq, Eq, Structural)]
pub enum CampaignError {
    /// The inputs do not fit the network.
    Shape(ShapeError),
    /// No fault of the kind asked for can be drawn.
    Fault(FaultError),
    /// The values that the runs would emit are more than can be counted.
    TooManyValues,
}

/// What each run of a series emitted.
pub open spec fn outputs_of(inferences: Seq<Inference>) -> Seq<Seq<Seq<u8>>> {
    Seq::new(inferences.len(), |k: int| rows(inferences[k].outputs@))
}

/// The number of runs that differ from the faultless run anywhere.
pub open spec fn failed_runs(golden: Seq<Seq<u8>>, runs: Seq<Seq<Seq<u8>>>) -> nat
    decreases runs.len(),
{
    if runs.len() == 0 {
        0
    } else {
        failed_runs(golden, runs.drop_last()) + if any_mismatch(golden, runs.last()) {
            1nat
        } else {
            0nat
        }
    }
}

/// The number of values, over all runs, that differ from the faultless
/// ones.
pub open spec fn wrong_bits(golden: Seq<Seq<u8>>, runs: Seq<Seq<Seq<u8>>>) -> nat
    decreases runs.len(),
{
    if runs.len() == 0 {
        0
    } else {
        wrong_bits(golden, runs.drop_last()) + mismatch_count(golden, runs.last())
    }
}

/// The inputs fit the network: the instants can be numbered, and each input
/// is as long as the first layer.
pub open spec fn fitting(net: NetworkState, inputs: Seq<Vec<u8>>) -> bool {
    &&& inputs.len() <= i32::MAX
    &&& forall|t: int| 0 <= t < inputs.len() ==> (#[trigger] inputs[t])@.len() == net.sizes()[0]
}

/// The number of values that one run over these inputs emits: one for each
/// instant and neuron of the last layer.
pub open spec fn values_of_run(net: NetworkState, inputs: Seq<Vec<u8>>) -> nat {
    inputs.len() * net.sizes()[net.layers.len() - 1]
}

impl Campaign {
    /// Runs `network` once without a fault and `num_inferences` times with a
    /// fault of kind `err_type` drawn anew for each run, every run from the
    /// state that `network` is in, which stays as it is. The faulty runs are
    /// held against the faultless one and tallied.
    ///
    /// There is no campaign if the inputs do not fit the network; if a fault
    /// is to be drawn and cannot be, for want of a component or of an instant
    /// for a bit to flip at; or if the runs emit more values than can be
    /// counted. The reasons are looked for in this order.
    pub fn run<F: Fn(FloatOp) -> u64>(
        network: &Network,
        inputs: &Vec<Vec<u8>>,
        err_type: Type,
        err_comps: &Vec<ErrorComponent>,
        num_inferences: usize,
        rng: &mut rand::rngs::StdRng,
        fpu: &F,
    ) -> (r: Result<Campaign, CampaignError>)
        requires
            total(*fpu),
            network.wf(),
        ensures
            match r {
                Ok(c) => {
                    &&& fitting(network@, inputs@)
                    &&& num_inferences > 0 ==> err_comps@.len() > 0
                    &&& num_inferences > 0 && err_type == Type::BitFlip ==> inputs@.len() > 0
                    &&& num_inferences * values_of_run(network@, inputs@) <= usize::MAX
                    &&& c.inferences@.len() == num_inferences
                    &&& forall|o: spec_fn(FloatOp) -> u64| #[trigger]
                        computes(*fpu, o) ==> rows(c.golden@) == trace(
                            network@,
                            rows(inputs@),
                            ConfErr::absent(),
                            o,
                        )
                    &&& forall|k: int|
                        0 <= k < num_inferences ==> {
                            let e = (#[trigger] c.inferences@[k]).error;
                            &&& e.valid(network@.population(), inputs@.len())
                            &&& e.err_type == err_type
                            &&& err_comps@.contains(e.err_comp)
                        }
                    &&& forall|o: spec_fn(FloatOp) -> u64, k: int|
                        computes(*fpu, o) && 0 <= k < num_inferences ==> rows(
                            c.inferences@[k].outputs@,
                        ) == #[trigger] trace(
                            network@,
                            rows(inputs@),
                            c.inferences@[k].error,
                            o,
                        )
                    &&& c.tally.wf()
                    &&& c.tally.inferences == num_inferences
                    &&& c.tally.bits == num_inferences * values_of_run(network@, inputs@)
                    &&& c.tally.count_err1 == failed_runs(
                        rows(c.golden@),
                        outputs_of(c.inferences@),
                    )
                    &&& c.tally.count_err2 == wrong_bits(rows(c.golden@), outputs_of(c.inferences@))
                },
                Err(CampaignError::Shape(ShapeError::TooManyInstants)) => inputs@.len() > i32::MAX,
                Err(CampaignError::Shape(ShapeError::InputLength { instant })) => {
                    &&& inputs@.len() <= i32::MAX
                    &&& instant < inputs@.len()
                    &&& inputs@[instant as int]@.len() != network@.sizes()[0]
                    &&& forall|t: int|
                        0 <= t < instant ==> (#[trigger] inputs@[t])@.len() == network@.sizes()[0]
                },
                Err(CampaignError::Shape(_)) => false,
                Err(CampaignError::Fault(FaultError::NoComponent)) => {
                    &&& fitting(network@, inputs@)
                    &&& num_inferences > 0
                    &&& err_comps@.len() == 0
                },
                Err(CampaignError::Fault(FaultError::NoSuchInstant)) => {
                    &&& fitting(network@, inputs@)
                    &&& num_inferences > 0
                    &&& err_comps@.len() > 0
                    &&& err_type == Type::BitFlip
                    &&& inputs@.len() == 0
                },
                Err(CampaignError::Fault(_)) => false,
                Err(CampaignError::TooManyValues) => {
                    &&& fitting(network@, inputs@)
                    &&& num_inferences > 0
                    &&& err_comps@.len() > 0
                    &&& err_type == Type::BitFlip ==> inputs@.len() > 0
                    &&& num_inferences * values_of_run(network@, inputs@) > usize::MAX
                },
            },
    {
        proof {
            network.lemma_sound();
        }
        let mut work: Network = network.duplicate();
        let golden: Vec<Vec<u8>> = match work.simulation_without_errors(inputs, fpu) {
            Ok(outputs) => outputs,
            Err(e) => {
                return Err(CampaignError::Shape(e));
            },
        };
        assert(fitting(network@, inputs@));
        let width: usize = network.width(network.depth() - 1);
        let ghost per_run: nat = values_of_run(network@, inputs@);
        assert(network@.sizes()[network@.layers.len() - 1] == width);
        if num_inferences > 0 {
            if err_comps.len() == 0 {
                return Err(CampaignError::Fault(FaultError::NoComponent));
            }
            if err_type == Type::BitFlip && inputs.len() == 0 {
                return Err(CampaignError::Fault(FaultError::NoSuchInstant));
            }
            assert(inputs@.len() * width <= u64::MAX * u64::MAX) by (nonlinear_arith)
                requires
                    inputs@.len() <= u64::MAX,
                    width <= u64::MAX,
            ;
            let one: u128 = (inputs.len() as u128) * (width as u128);
            if one > usize::MAX as u128 {
                assert(num_inferences * per_run > usize::MAX) by (nonlinear_arith)
                    requires
                        num_inferences >= 1,
                        per_run > usize::MAX,
                ;
                return Err(CampaignError::TooManyValues);
            }
            assert(one * num_inferences <= u64::MAX * u64::MAX) by (nonlinear_arith)
                requires
                    one <= u64::MAX,
                    num_inferences <= u64::MAX,
            ;
            let all: u128 = one * (num_inferences as u128);
            assert(all == num_inferences * per_run) by (nonlinear_arith)
                requires
                    all == one * num_inferences,
                    one == per_run,
            ;
            if all > usize::MAX as u128 {
                return Err(CampaignError::TooManyValues);
            }
        } else {
            assert(num_inferences * per_run == 0) by (nonlinear_arith)
                requires
                    num_inferences == 0,
            ;
        }
        let mut tally: Resilience = Resilience::new();
        let mut inferences: Vec<Inference> = Vec::new();
        let mut k: usize = 0;
        assert(0 * per_run == 0) by (nonlinear_arith);
        while k < num_inferences
            invariant
                total(*fpu),
                network.wf(),
                network@.wf(),
                fitting(network@, inputs@),
                per_run == values_of_run(network@, inputs@),
                width == network@.sizes()[network@.layers.len() - 1],
                num_inferences * per_run <= usize::MAX,
                num_inferences > 0 ==> err_comps@.len() > 0,
                num_inferences > 0 && err_type == Type::BitFlip ==> inputs@.len() > 0,
                golden@.len() == inputs@.len(),
                forall|t: int|
                    0 <= t < golden@.len() ==> (#[trigger] golden@[t])@.len()
                        == network@.sizes()[network@.layers.len() - 1],
                k <= num_inferences,
                inferences@.len() == k,
                tally.wf(),
                tally.inferences == k,
                tally.bits == k * per_run,
                tally.count_err1 == failed_runs(rows(golden@), outputs_of(inferences@)),
                tally.count_err2 == wrong_bits(rows(golden@), outputs_of(inferences@)),
                forall|j: int|
                    0 <= j < k ==> {
                        let e = (#[trigger] inferences@[j]).error;
                        &&& e.valid(network@.population(), inputs@.len())
                        &&& e.err_type == err_type
                        &&& err_comps@.contains(e.err_comp)
                    },
                forall|o: spec_fn(FloatOp) -> u64, j: int|
                    computes(*fpu, o) && 0 <= j < k ==> rows(inferences@[j].outputs@)
                        == #[trigger] trace(network@, rows(inputs@), inferences@[j].error, o),
            decreases num_inferences - k,
        {
            let error: ConfErr = match ConfErr::new_from_main(
                network,
                err_type,
                err_comps,
                inputs.len(),
                rng,
            ) {
                Ok(error) => error,
                Err(e) => {
                    return Err(CampaignError::Fault(e));
                },
            };
            let mut work: Network = network.duplicate();
            let outputs: Vec<Vec<u8>> = match work.simulation(inputs, &error, fpu) {
                Ok(outputs) => outputs,
                Err(e) => {
                    return Err(CampaignError::Shape(e));
                },
            };
            let ghost before = inferences@;
            let ghost emitted = rows(outputs@);
            proof {
                assert forall|t: int| 0 <= t < emitted.len() implies (#[trigger] emitted[t]).len()
                    == width by {
                    assert(emitted[t] == outputs@[t]@);
                }
                lemma_cells_of_rectangle(emitted, width as nat, emitted.len());
                assert(covers(rows(golden@), emitted)) by {
                    assert forall|t: int| 0 <= t < emitted.len() implies (#[trigger] emitted[t]).len()
                        <= rows(golden@)[t].len() by {
                        assert(rows(golden@)[t] == golden@[t]@);
                    }
                }
                lemma_mismatches_bounded(rows(golden@), emitted, emitted.len());
                assert((k + 1) * per_run == k * per_run + per_run) by (nonlinear_arith);
                assert((k + 1) * per_run <= num_inferences * per_run) by (nonlinear_arith)
                    requires
                        k + 1 <= num_inferences,
                ;
            }
            let taken: bool = tally.compare(&golden, &outputs);
            if !taken {
                return Err(CampaignError::TooManyValues);
            }
            inferences.push(Inference { error, outputs });
            proof {
                let runs = outputs_of(inferences@);
                assert(runs.drop_last() =~= outputs_of(before));
                assert(runs.last() == emitted);
            }
            k = k + 1;
        }
        Ok(Campaign { golden, inferences, tally })
    }
}

} // verus!
