//! Spiking neural networks of leaky integrate-and-fire neurons whose
//! arithmetic can be struck by hardware faults, and the measures that tell
//! how far the faults disturb the network's output.
//!
//! Every real quantity is held as the 64-bit word of its IEEE-754 binary64
//! encoding, so that a fault is a change of one bit of a word. The library
//! does no floating-point arithmetic itself: sums, products, quotients and
//! exponentials are asked of a unit that the caller hands in.

pub mod campaign;
pub mod errors;
pub mod layer;
pub mod network;
pub mod neuron;
pub mod random;
pub mod resilience;
pub mod unit;
pub mod word;

pub use crate::neuron::lif;
pub use crate::random::gen_inputs;
pub use crate::resilience::{compute_differences1, compute_differences2};
