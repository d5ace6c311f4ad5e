[package]
name = "plutus_transcript"
version = "0.1.0"
edition = "2021"
publish = false

[dependencies]
blake2b_simd = "=1.0.5"
ff = "=0.13.1"
group = "=0.13.0"
midnight-curves = "=0.3.1"
