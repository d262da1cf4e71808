//! The description of one injected fault.

use vstd::prelude::*;
use rand::rngs::StdRng;
use crate::network::Network;
use crate::random::draw_below;

verus! {

/// Why a fault descriptor was refused.
#[derive(Clone, Copy, Debug, PartialEq, Eq, Structural)]
pub enum FaultError {
    /// The fault names a neuron that the network does not have.
    NoSuchNeuron,
    /// The fault names a bit that a word does not have.
    NoSuchBit,
    /// A bit flip is to happen at an instant that the run does not have.
    NoSuchInstant,
    /// There is no component to choose from.
    NoComponent,
}

/// What a fault does to the bit it strikes.
#[derive(Clone, Copy, Debug, PartialEq, Eq, Structural)]
pub enum Type {
    /// No fault at all.
    NoError,
    /// The bit reads 0 for the whole run.
    Stuck0,
    /// The bit reads 1 for the whole run.
    Stuck1,
    /// The bit is inverted at one instant.
    BitFlip,
}

/// The part of a neuron that a fault strikes: one of its stored quantities,
/// or one of its two arithmetic operations.
#[derive(Clone, Copy, Debug, PartialEq, Eq, Structural)]
pub enum ErrorComponent {
    Threshold,
    VRest,
    VMem,
    VReset,
    Weights,
    Multiplier,
    Adder,
}

/// One fault: what it does, where, and when. It is fixed for a whole run.
#[derive(Clone, Copy, Debug, PartialEq, Eq, Structural)]
pub struct ConfErr {
    /// The neuron that is struck.
    pub id_neuron: usize,
    /// What happens to the struck bit.
    pub err_type: Type,
    /// The part of the neuron that is struck.
    pub err_comp: ErrorComponent,
    /// Which weight is struck, counted through the weights towards the
    /// preceding layer and then through those within the layer, and taken
    /// modulo their number.
    pub w_pos: usize,
    /// The struck bit; bit 0 is the least significant.
    pub n_bit: u8,
    /// The instant at which a bit flip happens.
    pub t_start: i32,
}

impl ConfErr {
    /// Whether the fault is at work in neuron `id` at instant `time`: a stuck
    /// bit at every instant, a flipped bit at its own instant only.
    pub open spec fn strikes(self, id: usize, time: i32) -> bool {
        self.id_neuron == id && ((self.err_type == Type::BitFlip && self.t_start == time)
            || self.err_type == Type::Stuck0 || self.err_type == Type::Stuck1)
    }

    /// Whether the fault sits in an arithmetic operation rather than in a
    /// stored quantity.
    pub open spec fn in_arithmetic(self) -> bool {
        self.err_comp == ErrorComponent::Adder || self.err_comp == ErrorComponent::Multiplier
    }

    /// The fault fits a network of `population` neurons and a run of
    /// `n_inputs` instants: it names a neuron and a bit that exist, and a bit
    /// flip happens within the run.
    pub open spec fn valid(self, population: nat, n_inputs: nat) -> bool {
        &&& self.id_neuron < population
        &&& self.n_bit < 64
        &&& self.err_type == Type::BitFlip ==> 0 <= self.t_start < n_inputs
    }

    /// Describes a fault for a network of `population` neurons and a run of
    /// `n_inputs` instants, or says why there can be no such fault.
    pub fn new(
        id_neuron: usize,
        err_type: Type,
        err_comp: ErrorComponent,
        w_pos: usize,
        n_bit: u8,
        t_start: i32,
        population: usize,
        n_inputs: usize,
    ) -> (r: Result<ConfErr, FaultError>)
        ensures
            match r {
                Ok(e) => {
                    &&& e == (ConfErr { id_neuron, err_type, err_comp, w_pos, n_bit, t_start })
                    &&& e.valid(population as nat, n_inputs as nat)
                },
                Err(FaultError::NoSuchNeuron) => id_neuron >= population,
                Err(FaultError::NoSuchBit) => id_neuron < population && n_bit >= 64,
                Err(FaultError::NoSuchInstant) => {
                    &&& id_neuron < population
                    &&& n_bit < 64
                    &&& err_type == Type::BitFlip
                    &&& !(0 <= t_start < n_inputs)
                },
                Err(FaultError::NoComponent) => false,
            },
    {
        if id_neuron >= population {
            return Err(FaultError::NoSuchNeuron);
        }
        if n_bit >= 64 {
            return Err(FaultError::NoSuchBit);
        }
        if err_type == Type::BitFlip {
            if t_start < 0 {
                return Err(FaultError::NoSuchInstant);
            }
            if t_start as usize >= n_inputs {
                return Err(FaultError::NoSuchInstant);
            }
        }
        Ok(ConfErr { id_neuron, err_type, err_comp, w_pos, n_bit, t_start })
    }

    /// Draws a fault of kind `err_type` for one run of `n_inputs` instants:
    /// the neuron among all those of the network, the component among
    /// `err_comps`, the bit among the 64 of a word, and, for a bit flip, the
    /// instant among those of the run. Any other fault happens from instant 0.
    ///
    /// There is no such fault if there is no component to choose from, or if
    /// a bit is to flip in a run without instants or with more than can be
    /// numbered.
    pub fn new_from_main(
        network: &Network,
        err_type: Type,
        err_comps: &Vec<ErrorComponent>,
        n_inputs: usize,
        rng: &mut StdRng,
    ) -> (r: Result<ConfErr, FaultError>)
        requires
            network.wf(),
        ensures
            match r {
                Ok(e) => {
                    &&& err_comps@.len() > 0
                    &&& err_type == Type::BitFlip ==> 0 < n_inputs <= i32::MAX
                    &&& e.valid(network@.population(), n_inputs as nat)
                    &&& e.err_type == err_type
                    &&& err_comps@.contains(e.err_comp)
                    &&& err_type != Type::BitFlip ==> e.t_start == 0
                },
                Err(FaultError::NoComponent) => err_comps@.len() == 0,
                Err(FaultError::NoSuchInstant) => {
                    &&& err_comps@.len() > 0
                    &&& err_type == Type::BitFlip
                    &&& (n_inputs == 0 || n_inputs > i32::MAX)
                },
                Err(_) => false,
            },
    {
        if err_comps.len() == 0 {
            return Err(FaultError::NoComponent);
        }
        if err_type == Type::BitFlip && (n_inputs == 0 || n_inputs > 0x7FFF_FFFF) {
            return Err(FaultError::NoSuchInstant);
        }
        let population: usize = network.population();
        let id_neuron: usize = draw_below(rng, population);
        let chosen: usize = draw_below(rng, err_comps.len());
        let err_comp: ErrorComponent = err_comps[chosen];
        let w_pos: usize = draw_below(rng, usize::MAX);
        let n_bit: u8 = draw_below(rng, 64) as u8;
        let t_start: i32 = if err_type == Type::BitFlip {
            draw_below(rng, n_inputs) as i32
        } else {
            0
        };
        ConfErr::new(id_neuron, err_type, err_comp, w_pos, n_bit, t_start, population, n_inputs)
    }

    /// A descriptor of no fault.
    pub open spec fn absent() -> ConfErr {
        ConfErr {
            id_neuron: 0,
            err_type: Type::NoError,
            err_comp: ErrorComponent::Adder,
            w_pos: 0,
            n_bit: 0,
            t_start: 0,
        }
    }

    /// The descriptor of a run without faults.
    pub fn none() -> (e: ConfErr)
        ensures
            e == ConfErr::absent(),
    {
        ConfErr {
            id_neuron: 0,
            err_type: Type::NoError,
            err_comp: ErrorComponent::Adder,
            w_pos: 0,
            n_bit: 0,
            t_start: 0,
        }
    }
}

} // verus!
