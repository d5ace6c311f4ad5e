use ff::{Field, PrimeField};
use plutus_transcript::{Fq, PlutusBlake2b, ReadError};

const MODULUS: [u8; 32] = [
    0x01, 0x00, 0x00, 0x00, 0xff, 0xff, 0xff, 0xff, 0xfe, 0x5b, 0xfe, 0xff, 0x02, 0xa4, 0xbd, 0x53,
    0x05, 0xd8, 0xa1, 0x09, 0x08, 0xd8, 0x39, 0x33, 0x48, 0x7d, 0x9d, 0x29, 0x53, 0xa7, 0xed, 0x73,
];

fn read_all(bytes: &[u8]) -> Result<Fq, ReadError> {
    let mut buffer: &[u8] = bytes;
    Fq::read(&mut buffer)
}

fn at_least(a: &[u8; 32], b: &[u8; 32]) -> bool {
    for i in (0..32).rev() {
        if a[i] != b[i] {
            return a[i] > b[i];
        }
    }
    true
}

/// Reduction of a 32-byte number by repeated subtraction.
fn reduced(mut bytes: [u8; 32]) -> [u8; 32] {
    while at_least(&bytes, &MODULUS) {
        let mut borrow = 0i32;
        for i in 0..32 {
            let mut digit = bytes[i] as i32 - MODULUS[i] as i32 - borrow;
            borrow = 0;
            if digit < 0 {
                digit += 256;
                borrow = 1;
            }
            bytes[i] = digit as u8;
        }
    }
    bytes
}

#[test]
fn scalars_below_the_modulus_are_read() {
    let mut largest = MODULUS;
    largest[0] = 0;
    for bytes in [[0u8; 32], [1u8; 32], largest] {
        let scalar = read_all(&bytes).unwrap();
        assert_eq!(scalar.to_bytes(), bytes.to_vec());
        assert_eq!(scalar.to_input(), bytes.to_vec());
    }
}

#[test]
fn scalars_from_the_modulus_on_are_refused() {
    let mut above = MODULUS;
    above[0] = 2;
    for bytes in [MODULUS, above, [0xff; 32]] {
        assert_eq!(read_all(&bytes), Err(ReadError::InvalidScalar));
    }
}

#[test]
fn scalar_encoding_is_little_endian() {
    let mut bytes = [0u8; 32];
    bytes[0] = 0x34;
    bytes[1] = 0x12;
    let element = midnight_curves::Fq::from(0x1234u64);
    assert_eq!(element.to_repr(), bytes);
    assert_eq!(read_all(&element.to_repr()).unwrap().to_bytes(), bytes.to_vec());
}

#[test]
fn scalar_encoding_is_that_of_the_field() {
    let mut element = midnight_curves::Fq::from(7u64);
    for _ in 0..200 {
        let scalar = read_all(&element.to_repr()).unwrap();
        assert_eq!(scalar.to_bytes(), element.to_repr().to_vec());
        element = element.square() + midnight_curves::Fq::from(3u64);
    }
}

#[test]
fn short_buffer_is_used_up() {
    let bytes = [0u8; 31];
    let mut buffer: &[u8] = &bytes;
    assert_eq!(Fq::read(&mut buffer), Err(ReadError::UnexpectedEof));
    assert!(buffer.is_empty());
    assert_eq!(Fq::read(&mut buffer), Err(ReadError::UnexpectedEof));
}

#[test]
fn read_moves_past_the_encoding() {
    let mut bytes = [5u8; 32].to_vec();
    bytes.extend_from_slice(&[9, 8, 7]);
    let mut buffer: &[u8] = &bytes;
    let scalar = Fq::read(&mut buffer).unwrap();
    assert_eq!(scalar.to_bytes(), vec![5u8; 32]);
    assert_eq!(buffer, &[9, 8, 7]);
}

#[test]
fn read_moves_past_a_refused_encoding() {
    let mut bytes = MODULUS.to_vec();
    bytes.extend_from_slice(&[1u8; 32]);
    let mut buffer: &[u8] = &bytes;
    assert_eq!(Fq::read(&mut buffer), Err(ReadError::InvalidScalar));
    assert_eq!(Fq::read(&mut buffer).unwrap().to_bytes(), vec![1u8; 32]);
    assert!(buffer.is_empty());
}

#[test]
fn sample_keeps_small_digests() {
    let mut digest = vec![0u8; 32];
    digest[3] = 77;
    assert_eq!(Fq::sample(digest.clone()).to_bytes(), digest);
}

#[test]
fn sample_reduces_large_digests() {
    assert_eq!(Fq::sample(MODULUS.to_vec()).to_bytes(), vec![0u8; 32]);
    assert_eq!(
        Fq::sample(vec![0xff; 32]).to_bytes(),
        vec![
            0xfd, 0xff, 0xff, 0xff, 0x01, 0x00, 0x00, 0x00, 0x02, 0x48, 0x03, 0x00, 0xfa, 0xb7,
            0x84, 0x58, 0xf5, 0x4f, 0xbc, 0xec, 0xef, 0x4f, 0x8c, 0x99, 0x6f, 0x05, 0xc5, 0xac,
            0x59, 0xb1, 0x24, 0x18
        ]
    );
}

#[test]
fn sample_reduces_every_digest() {
    let mut transcript = PlutusBlake2b::init();
    for _ in 0..1000 {
        let output = transcript.squeeze();
        let mut digest = [0u8; 32];
        digest.copy_from_slice(&output);
        assert_eq!(Fq::sample(output).to_bytes(), reduced(digest).to_vec());
        digest[31] = 0xff;
        digest[30] = 0xff;
        assert_eq!(Fq::sample(digest.to_vec()).to_bytes(), reduced(digest).to_vec());
    }
}

#[test]
fn distinct_scalars_leave_distinct_transcripts() {
    let mut one = PlutusBlake2b::init();
    one.absorb(&read_all(&[1u8; 32]).unwrap().to_input());
    let mut other = PlutusBlake2b::init();
    other.absorb(&read_all(&[2u8; 32]).unwrap().to_input());
    assert_ne!(one.squeeze(), other.squeeze());
}
