//! Accumulation-based Blake2b-256 transcript for verifiers on Plutus.
//!
//! Absorbing appends to the transcript data. Squeezing hashes all of the data
//! with one keyless Blake2b-256 call and appends the digest, so that the next
//! squeeze hashes something else:
//!
//! ```text
//! challenge_bytes = blake2b_256(transcript_data)
//! transcript_data = transcript_data ++ challenge_bytes
//! ```

use blake2b_simd::Params;
use vstd::prelude::*;
use vstd::slice::slice_to_vec;

use crate::blake2b::{hash_from, initial_chain, output_bytes};

verus! {

/// The number of bytes of a digest.
pub const DIGEST_BYTES: usize = 32;

/// The BLAKE2b hash of all of `data`, without a key and with 32 bytes of
/// output.
pub open spec fn blake2b_256_digest(data: Seq<u8>) -> Seq<u8> {
    output_bytes(hash_from(initial_chain(), data, 0))
}

/// Keyless Blake2b-256 hash of `data`: `finalize` of a `blake2b_simd::State`
/// that was made from `Params` with nothing set but the length of the hash, and
/// was updated with `data` once. Claimed: the digest is that of BLAKE2b over
/// all bytes of `data`, for data of every length.
#[verifier::external_body]
fn blake2b_256(data: &[u8]) -> (digest: [u8; 32])
    ensures
        digest@ == blake2b_256_digest(data@),
{
    let mut out = [0u8; 32];
    let hash = Params::new().hash_length(out.len()).to_state().update(data).finalize();
    out.copy_from_slice(hash.as_bytes());
    out
}

/// Accumulation-based transcript over Blake2b-256.
#[derive(Debug)]
pub struct PlutusBlake2b {
    transcript_data: Vec<u8>,
}

impl View for PlutusBlake2b {
    type V = Seq<u8>;

    /// All bytes that the transcript has accumulated, oldest first.
    closed spec fn view(&self) -> Seq<u8> {
        self.transcript_data@
    }
}

impl Clone for PlutusBlake2b {
    /// A second transcript that has accumulated the same bytes.
    fn clone(&self) -> (copy: PlutusBlake2b)
        ensures
            copy@ == self@,
    {
        PlutusBlake2b { transcript_data: slice_to_vec(self.transcript_data.as_slice()) }
    }
}

impl PlutusBlake2b {
    /// A transcript that has accumulated nothing.
    pub fn init() -> (transcript: PlutusBlake2b)
        ensures
            transcript@ == Seq::<u8>::empty(),
    {
        PlutusBlake2b { transcript_data: Vec::new() }
    }

    /// Appends `input` to the transcript.
    pub fn absorb(&mut self, input: &Vec<u8>)
        ensures
            final(self)@ == old(self)@ + input@,
    {
        self.transcript_data.extend_from_slice(input.as_slice());
        assert(self@ =~= old(self)@ + input@);
    }

    /// The Blake2b-256 digest of the whole transcript, which is then appended
    /// to the transcript.
    pub fn squeeze(&mut self) -> (output: Vec<u8>)
        ensures
            output@ == blake2b_256_digest(old(self)@),
            output@.len() == DIGEST_BYTES,
            final(self)@ == old(self)@ + output@,
    {
        let digest: [u8; 32] = blake2b_256(self.transcript_data.as_slice());
        self.feed_back(&digest)
    }

    /// Appends `digest` to the transcript and hands its bytes out: what a
    /// squeeze does with the digest of the transcript.
    pub fn feed_back(&mut self, digest: &[u8; 32]) -> (output: Vec<u8>)
        ensures
            output@ == digest@,
            final(self)@ == old(self)@ + digest@,
    {
        self.transcript_data.extend_from_slice(digest.as_slice());
        assert(self@ =~= old(self)@ + digest@);
        slice_to_vec(digest.as_slice())
    }
}

} // verus!
