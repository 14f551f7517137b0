//! A stream of status bytes drawn at random from a table of one hundred slots.
//!
//! Each slot stands for a probability of one percent. A table is laid out from a
//! list of [`StatInit`] entries, every entry claiming as many consecutive slots
//! as its percentage says; slots that no entry claims hold zero. Sampling picks
//! one slot uniformly at random and returns the byte stored there, so a value
//! that occupies `n` slots is returned with probability `n / 100`.
//!
//! The intended use is the simulation of unreliable conditions: lost messages,
//! garbled messages, dropped connections and the like.

pub mod distribution;
pub mod sampler;
pub mod source;
pub mod table;

pub use sampler::RandStat;
pub use sampler::RandStatOverflowError;

pub use table::StatInit;
pub use table::SLOTS;
