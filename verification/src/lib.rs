//! Integrated-information quantities for small binary networks.
//!
//! A network of `n` binary elements is described by one link function per
//! element; the joint dynamics are a 2^n x 2^n transition probability
//! matrix (TPM). Because every built-in link function returns a
//! probability in {0, 1/2, 1}, every TPM entry produced by the builder is
//! an integer multiple of 1/2^n. This library therefore represents such
//! matrices by their integer numerators over a common power-of-two
//! denominator, which lets every construction and marginalisation be
//! stated and proved exactly. The floating-point earth-mover searches
//! that consume these tables live outside the verified core.

use vstd::prelude::*;

pub mod bitwise;
pub mod basis;
pub mod partition;
pub mod sif;
pub mod link_fn;
pub mod tpm;
pub mod repertoire;
pub mod mechanism;

verus! {

/// Width of the machine word that holds a joint network state: a network
/// may not have more elements than this.
pub const STATE_BITS: usize = 64;

} // verus!
