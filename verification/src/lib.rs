//! An anonymous-token issuance scheme built on a verifiable oblivious
//! pseudo-random function over the Ristretto prime-order group.
//!
//! A client creates a [`voprf::Token`], blinds it, and sends the
//! [`voprf::BlindedToken`] to a server.  The server signs it with its
//! [`voprf::SigningKey`] and proves, with one [`dleq::BatchDLEQProof`] per
//! batch, that every signature used the same secret key.  The client checks
//! the proof and unblinds, obtaining [`voprf::UnblindedToken`]s; either side
//! can then derive a per-token MAC key and authenticate redemption messages.
//!
//! Group and scalar arithmetic, hashing and randomness come from outside
//! libraries through a small set of trusted wrappers; everything layered on
//! top of those wrappers is verified.

pub mod bytes;
pub mod errors;
pub mod group;
pub mod hashing;
pub mod rng;
pub mod voprf;
pub mod dleq;
pub mod encoding;
