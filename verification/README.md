# plutus_transcript

The Fiat-Shamir transcript of a PLONK verifier that runs on Plutus, verified
with Verus. On chain a challenge costs one `blake2b_256` call:

```text
challenge_bytes = blake2b_256(transcript_data)
transcript_data = transcript_data ++ challenge_bytes
```

- `src/plutus_transcript.rs`: the transcript, `PlutusBlake2b`.
- `src/scalar.rs`, `src/point.rs`: the scalars and points of BLS12-381 that go
  through it, with their encodings; `src/encoding.rs` and `src/reader.rs` are
  what they rest on, `src/error.rs` says why a read failed.
- `src/traces.rs`: what prover and verifier keep of a batch of proofs.
- `src/laws.rs`: what holds of the whole: the transcript only grows, no two
  squeezes hash the same bytes, and what was written is read back.
- `app/`: byte streams, and the elements of `midnight_curves`.

Blake2b comes from `blake2b_simd`, field and group arithmetic from
`midnight_curves`. Four functions make those calls, and their contracts are
stated without proof: `blake2b_256`, `scalar_from_repr`,
`scalar_from_uniform_bytes` and `point_from_bytes`.
