use group::{Group, GroupEncoding};
use plutus_transcript::reader::read_exact;
use plutus_transcript::{Fq, G1Projective, PlutusBlake2b, ReadError};

const GENERATOR: [u8; 48] = [
    0x97, 0xf1, 0xd3, 0xa7, 0x31, 0x97, 0xd7, 0x94, 0x26, 0x95, 0x63, 0x8c, 0x4f, 0xa9, 0xac, 0x0f,
    0xc3, 0x68, 0x8c, 0x4f, 0x97, 0x74, 0xb9, 0x05, 0xa1, 0x4e, 0x3a, 0x3f, 0x17, 0x1b, 0xac, 0x58,
    0x6c, 0x55, 0xe8, 0x3f, 0xf9, 0x7a, 0x1a, 0xef, 0xfb, 0x3a, 0xf0, 0x0a, 0xdb, 0x22, 0xc6, 0xbb,
];

/// The characteristic of the base field, most significant byte first.
const BASE_MODULUS: [u8; 48] = [
    0x1a, 0x01, 0x11, 0xea, 0x39, 0x7f, 0xe6, 0x9a, 0x4b, 0x1b, 0xa7, 0xb6, 0x43, 0x4b, 0xac, 0xd7,
    0x64, 0x77, 0x4b, 0x84, 0xf3, 0x85, 0x12, 0xbf, 0x67, 0x30, 0xd2, 0xa0, 0xf6, 0xb0, 0xf6, 0x24,
    0x1e, 0xab, 0xff, 0xfe, 0xb1, 0x53, 0xff, 0xff, 0xb9, 0xfe, 0xff, 0xff, 0xff, 0xff, 0xaa, 0xab,
];

fn read_all(bytes: &[u8]) -> Result<G1Projective, ReadError> {
    let mut buffer: &[u8] = bytes;
    G1Projective::read(&mut buffer)
}

fn encoded(point: &midnight_curves::G1Projective) -> Vec<u8> {
    <midnight_curves::G1Projective as GroupEncoding>::to_bytes(point).as_ref().to_vec()
}

#[test]
fn generator_is_read() {
    let point = read_all(&GENERATOR).unwrap();
    assert_eq!(point.to_bytes(), GENERATOR.to_vec());
    assert_eq!(point.to_input(), GENERATOR.to_vec());
    assert_eq!(encoded(&midnight_curves::G1Projective::generator()), GENERATOR.to_vec());
}

#[test]
fn identity_is_read() {
    let mut bytes = [0u8; 48];
    bytes[0] = 0xc0;
    assert_eq!(read_all(&bytes).unwrap().to_bytes(), bytes.to_vec());
    assert_eq!(encoded(&midnight_curves::G1Projective::identity()), bytes.to_vec());
}

#[test]
fn point_encoding_is_that_of_the_group() {
    let generator = midnight_curves::G1Projective::generator();
    let mut point = generator;
    for _ in 0..200 {
        let bytes = encoded(&point);
        let read = read_all(&bytes).unwrap();
        assert_eq!(read.to_bytes(), bytes);
        let negated = encoded(&-point);
        assert_ne!(negated, bytes);
        assert_eq!(read_all(&negated).unwrap().to_bytes(), negated);
        point = point + point + generator;
    }
}

#[test]
fn bytes_without_the_compression_flag_are_refused() {
    assert_eq!(read_all(&[0u8; 48]), Err(ReadError::InvalidPoint));
    let mut bytes = GENERATOR;
    bytes[0] &= 0x7f;
    assert_eq!(read_all(&bytes), Err(ReadError::InvalidPoint));
}

#[test]
fn second_encodings_of_the_identity_are_refused() {
    let mut signed = [0u8; 48];
    signed[0] = 0xe0;
    assert_eq!(read_all(&signed), Err(ReadError::InvalidPoint));
    let mut trailing = [0u8; 48];
    trailing[0] = 0xc0;
    trailing[47] = 1;
    assert_eq!(read_all(&trailing), Err(ReadError::InvalidPoint));
}

#[test]
fn coordinates_off_the_curve_are_refused() {
    let mut bytes = [0u8; 48];
    bytes[0] = 0x80;
    bytes[47] = 1;
    assert_eq!(read_all(&bytes), Err(ReadError::InvalidPoint));
}

#[test]
fn points_outside_the_subgroup_are_refused() {
    let mut bytes = [0u8; 48];
    bytes[0] = 0x80;
    bytes[47] = 4;
    assert_eq!(read_all(&bytes), Err(ReadError::InvalidPoint));
    bytes[47] = 0;
    assert_eq!(read_all(&bytes), Err(ReadError::InvalidPoint));
}

#[test]
fn unreduced_coordinates_are_refused() {
    let generator = midnight_curves::G1Projective::generator();
    let mut point = generator;
    let mut tried = 0;
    for _ in 0..200 {
        let mut bytes = encoded(&point);
        let flags = bytes[0] & 0xe0;
        bytes[0] &= 0x1f;
        if bytes[0] < 5 {
            let mut carry = 0u16;
            for i in (0..48).rev() {
                let digit = bytes[i] as u16 + BASE_MODULUS[i] as u16 + carry;
                bytes[i] = (digit % 256) as u8;
                carry = digit / 256;
            }
            bytes[0] |= flags;
            assert_eq!(read_all(&bytes), Err(ReadError::InvalidPoint));
            tried += 1;
        }
        point = point + generator;
    }
    assert!(tried > 0);
}

#[test]
fn identity_is_read_from_the_front() {
    let mut bytes = vec![0u8; 50];
    bytes[0] = 0xc0;
    bytes[48] = 0x11;
    bytes[49] = 0x22;
    let mut buffer: &[u8] = &bytes;
    assert_eq!(G1Projective::read(&mut buffer).unwrap().to_input(), bytes[..48].to_vec());
    assert_eq!(buffer, &[0x11, 0x22]);
}

#[test]
fn written_points_have_the_compression_flag() {
    let generator = midnight_curves::G1Projective::generator();
    let mut point = generator;
    for _ in 0..50 {
        let written = read_all(&encoded(&point)).unwrap().to_bytes();
        assert_eq!(written.len(), 48);
        assert!(written[0] >= 0x80 && written[0] < 0xc0);
        point = point + generator;
    }
}

#[test]
fn short_point_buffer_is_used_up() {
    let mut buffer: &[u8] = &GENERATOR[..47];
    assert_eq!(G1Projective::read(&mut buffer), Err(ReadError::UnexpectedEof));
    assert!(buffer.is_empty());
}

#[test]
fn read_moves_past_a_refused_point() {
    let mut bytes = vec![0u8; 48];
    bytes.extend_from_slice(&GENERATOR);
    bytes.push(3);
    let mut buffer: &[u8] = &bytes;
    assert_eq!(G1Projective::read(&mut buffer), Err(ReadError::InvalidPoint));
    assert_eq!(G1Projective::read(&mut buffer).unwrap().to_bytes(), GENERATOR.to_vec());
    assert_eq!(buffer, &[3]);
}

#[test]
fn decoding_decides_the_outcome_of_a_read() {
    let point = read_all(&GENERATOR).unwrap();
    assert_eq!(G1Projective::from_decoded(Some(point)), Ok(point));
    assert_eq!(G1Projective::from_decoded(None), Err(ReadError::InvalidPoint));
}

#[test]
fn written_proof_is_read_back() {
    let point = read_all(&GENERATOR).unwrap();
    let scalar = Fq::sample(vec![0xab; 32]);
    let mut prover = PlutusBlake2b::init();
    let mut proof: Vec<u8> = vec![];
    prover.absorb(&point.to_input());
    proof.extend_from_slice(&point.to_bytes());
    prover.absorb(&scalar.to_input());
    proof.extend_from_slice(&scalar.to_bytes());

    let mut verifier = PlutusBlake2b::init();
    let mut buffer: &[u8] = &proof;
    let read_point = G1Projective::read(&mut buffer).unwrap();
    verifier.absorb(&read_point.to_input());
    let read_scalar = Fq::read(&mut buffer).unwrap();
    verifier.absorb(&read_scalar.to_input());
    assert!(buffer.is_empty());
    assert_eq!(read_point, point);
    assert_eq!(read_scalar, scalar);
    assert_eq!(verifier.squeeze(), prover.squeeze());
}

#[test]
fn fixed_lengths_are_taken_off_the_front() {
    let bytes = [1u8, 2, 3, 4, 5];
    let mut buffer: &[u8] = &bytes;
    assert_eq!(read_exact::<2>(&mut buffer), Ok([1, 2]));
    assert_eq!(read_exact::<0>(&mut buffer), Ok([]));
    assert_eq!(read_exact::<3>(&mut buffer), Ok([3, 4, 5]));
    assert_eq!(read_exact::<1>(&mut buffer), Err(ReadError::UnexpectedEof));
}

#[test]
fn errors_say_what_was_wrong() {
    assert_eq!(
        read_all(&[0u8; 48]).unwrap_err().message(),
        "Invalid BLS12-381 point encoding in proof"
    );
    let mut buffer: &[u8] = &[0xff; 32];
    assert_eq!(
        Fq::read(&mut buffer).unwrap_err().message(),
        "Invalid BLS12-381 scalar encoding in proof"
    );
    assert_eq!(read_all(&[]).unwrap_err().message(), "failed to fill whole buffer");
}
