//! Fiat-Shamir transcript of a PLONK verifier that runs on Plutus, the
//! encodings of the scalars and points that go through it, and the traces that
//! prover and verifier keep of a batch of proofs.

pub mod blake2b;
pub mod curve;
pub mod encoding;
pub mod error;
pub mod laws;
pub mod plutus_transcript;
pub mod point;
pub mod reader;
pub mod scalar;
pub mod traces;

pub use error::ReadError;
pub use plutus_transcript::PlutusBlake2b;
pub use point::G1Projective;
pub use scalar::Fq;
pub use traces::{ProverTrace, VerifierTrace};
