//! The random source: the thread-local generator of the `rand` crate.
//!
//! Nothing in this file is proved. Each item states what the rest of the
//! library takes for granted about `rand`, which is very little: a draw may be
//! any `usize`.

use rand::Rng;
use vstd::prelude::*;

verus! {

/// `rand::rngs::ThreadRng`, a handle to the generator of the current thread.
/// The library only carries such a handle from `rand::thread_rng` to
/// [`draw_usize`]; it never looks inside.
#[verifier::external_type_specification]
#[verifier::external_body]
pub struct ExThreadRng(rand::rngs::ThreadRng);

/// `rand::thread_rng` returns a handle to the lazily seeded generator of the
/// current thread. Nothing is claimed of the handle. The call has no argument,
/// so no precondition can rule out its one failure: it panics if the operating
/// system cannot supply a seed.
pub assume_specification[ rand::thread_rng ]() -> (rng: rand::rngs::ThreadRng)
;

/// `Rng::gen::<usize>` on the thread-local generator: the next pseudo-random
/// `usize`. Nothing is claimed of the value drawn, nor of the generator
/// afterwards. The generator reseeds itself from the operating system from time
/// to time and panics if that fails.
#[verifier::external_body]
pub(crate) fn draw_usize(rng: &mut rand::rngs::ThreadRng) -> usize {
    rng.gen::<usize>()
}

} // verus!
