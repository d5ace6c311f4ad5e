use plutus_transcript::{Fq, PlutusBlake2b};

const DIGEST_OF_NOTHING: [u8; 32] = [
    0x0e, 0x57, 0x51, 0xc0, 0x26, 0xe5, 0x43, 0xb2, 0xe8, 0xab, 0x2e, 0xb0, 0x60, 0x99, 0xda, 0xa1,
    0xd1, 0xe5, 0xdf, 0x47, 0x77, 0x8f, 0x77, 0x87, 0xfa, 0xab, 0x45, 0xcd, 0xf1, 0x2f, 0xe3, 0xa8,
];

const DIGEST_OF_THAT: [u8; 32] = [
    0x7c, 0x09, 0xf7, 0xc4, 0xd7, 0x6a, 0xce, 0x86, 0xe1, 0xa7, 0xe1, 0xc7, 0xdc, 0x0a, 0x0c, 0x7e,
    0xdc, 0xaa, 0x8b, 0x28, 0x49, 0x49, 0x32, 0x00, 0x81, 0x13, 0x19, 0x76, 0xa8, 0x77, 0x60, 0xc3,
];

const DIGEST_OF_ABC: [u8; 32] = [
    0xbd, 0xdd, 0x81, 0x3c, 0x63, 0x42, 0x39, 0x72, 0x31, 0x71, 0xef, 0x3f, 0xee, 0x98, 0x57, 0x9b,
    0x94, 0x96, 0x4e, 0x3b, 0xb1, 0xcb, 0x3e, 0x42, 0x72, 0x62, 0xc8, 0xc0, 0x68, 0xd5, 0x23, 0x19,
];

#[test]
fn fresh_transcript_hashes_nothing() {
    let mut transcript = PlutusBlake2b::init();
    assert_eq!(transcript.squeeze(), DIGEST_OF_NOTHING.to_vec());
}

#[test]
fn second_squeeze_hashes_the_first_digest() {
    let mut transcript = PlutusBlake2b::init();
    let first = transcript.squeeze();
    let second = transcript.squeeze();
    assert_eq!(first, DIGEST_OF_NOTHING.to_vec());
    assert_eq!(second, DIGEST_OF_THAT.to_vec());
}

#[test]
fn absorbed_bytes_are_hashed() {
    let mut transcript = PlutusBlake2b::init();
    transcript.absorb(&b"abc".to_vec());
    assert_eq!(transcript.squeeze(), DIGEST_OF_ABC.to_vec());
}

#[test]
fn challenges_are_fed_back_before_later_input() {
    let mut transcript = PlutusBlake2b::init();
    transcript.absorb(&b"abc".to_vec());
    transcript.squeeze();
    transcript.absorb(&b"def".to_vec());
    let challenge = transcript.squeeze();

    let mut data = b"abc".to_vec();
    data.extend_from_slice(&DIGEST_OF_ABC);
    data.extend_from_slice(b"def");
    let mut flat = PlutusBlake2b::init();
    flat.absorb(&data);
    assert_eq!(challenge, flat.squeeze());
}

#[test]
fn absorbing_in_parts_is_absorbing_joined() {
    let mut parts = PlutusBlake2b::init();
    parts.absorb(&b"a".to_vec());
    parts.absorb(&vec![]);
    parts.absorb(&b"bc".to_vec());
    assert_eq!(parts.squeeze(), DIGEST_OF_ABC.to_vec());
}

#[test]
fn order_of_absorption_matters() {
    let mut one = PlutusBlake2b::init();
    one.absorb(&b"a".to_vec());
    one.absorb(&b"b".to_vec());
    let mut other = PlutusBlake2b::init();
    other.absorb(&b"b".to_vec());
    other.absorb(&b"a".to_vec());
    assert_ne!(one.squeeze(), other.squeeze());
}

#[test]
fn many_squeezes_differ() {
    let mut transcript = PlutusBlake2b::init();
    let mut seen: Vec<Vec<u8>> = vec![];
    for _ in 0..100 {
        let output = transcript.squeeze();
        assert_eq!(output.len(), 32);
        assert!(!seen.contains(&output));
        seen.push(output);
    }
}

#[test]
fn clone_goes_its_own_way() {
    let mut original = PlutusBlake2b::init();
    original.absorb(&b"ab".to_vec());
    let mut copy = original.clone();
    copy.absorb(&b"c".to_vec());
    assert_eq!(copy.squeeze(), DIGEST_OF_ABC.to_vec());
    original.absorb(&b"c".to_vec());
    assert_eq!(original.squeeze(), DIGEST_OF_ABC.to_vec());
    assert_eq!(copy.squeeze(), original.squeeze());
}

#[test]
fn feed_back_appends_what_it_hands_out() {
    let mut transcript = PlutusBlake2b::init();
    assert_eq!(transcript.feed_back(&DIGEST_OF_NOTHING), DIGEST_OF_NOTHING.to_vec());
    assert_eq!(transcript.squeeze(), DIGEST_OF_THAT.to_vec());
}

#[test]
fn squeezed_digest_becomes_a_scalar() {
    let mut transcript = PlutusBlake2b::init();
    let challenge = Fq::sample(transcript.squeeze());
    assert_eq!(
        challenge.to_bytes(),
        vec![
            0x0d, 0x57, 0x51, 0xc0, 0x27, 0xe5, 0x43, 0xb2, 0xe9, 0x4f, 0x30, 0xb0, 0x5d, 0xf5,
            0x1c, 0x4e, 0xcc, 0x0d, 0x3e, 0x3e, 0x6f, 0xb7, 0x3d, 0x54, 0xb2, 0x2e, 0xa8, 0xa3,
            0x9e, 0x88, 0xf5, 0x34
        ]
    );
}
