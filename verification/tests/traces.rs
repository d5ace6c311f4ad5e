use std::marker::PhantomData;

use plutus_transcript::traces::{
    Coeff, LagrangeCoeff, Polynomial, PolynomialCommitmentScheme, ProverArguments,
};
use plutus_transcript::{Fq, G1Projective, ProverTrace, VerifierTrace};

#[derive(Debug)]
struct Scheme;

impl PolynomialCommitmentScheme<Fq> for Scheme {
    type Commitment = G1Projective;
    type Vanishing = G1Projective;
    type Lookup = (G1Projective, G1Projective);
    type Trashcan = G1Projective;
    type Permutation = Vec<G1Projective>;
}

impl ProverArguments<Fq> for Scheme {
    type Vanishing = u8;
    type Lookup = u8;
    type Trashcan = u8;
    type Permutation = u8;
}

fn scalar(byte: u8) -> Fq {
    Fq::sample(vec![byte; 32])
}

fn identity() -> G1Projective {
    let mut bytes = [0u8; 48];
    bytes[0] = 0xc0;
    let mut buffer: &[u8] = &bytes;
    G1Projective::read(&mut buffer).unwrap()
}

fn verifier_trace(
    advice: usize,
    lookups: usize,
    trashcans: usize,
    permutations: usize,
) -> Option<VerifierTrace<Fq, Scheme>> {
    let point = identity();
    VerifierTrace::new(
        vec![vec![point, point]; advice],
        point,
        vec![vec![(point, point)]; lookups],
        vec![vec![]; trashcans],
        vec![vec![point]; permutations],
        vec![scalar(6), scalar(7)],
        scalar(1),
        scalar(2),
        scalar(3),
        scalar(4),
        scalar(5),
    )
}

fn polys<B>(count: usize) -> Vec<Vec<Polynomial<Fq, B>>> {
    let mut all = vec![];
    for _ in 0..count {
        all.push(vec![Polynomial { values: vec![scalar(9)], basis: PhantomData }]);
    }
    all
}

fn prover_trace(sizes: [usize; 6]) -> Option<ProverTrace<Fq, Scheme>> {
    ProverTrace::new(
        polys::<Coeff>(sizes[0]),
        polys::<Coeff>(sizes[1]),
        polys::<LagrangeCoeff>(sizes[2]),
        0,
        vec![vec![1, 2]; sizes[3]],
        vec![vec![]; sizes[4]],
        vec![3; sizes[5]],
        vec![],
        scalar(1),
        scalar(2),
        scalar(3),
        scalar(4),
        scalar(5),
    )
}

#[test]
fn verifier_trace_gives_its_parts() {
    let trace = verifier_trace(3, 3, 3, 3).unwrap();
    assert_eq!(trace.beta(), scalar(1));
    assert_eq!(trace.gamma(), scalar(2));
    assert_eq!(trace.theta(), scalar(3));
    assert_eq!(trace.trash_challenge(), scalar(4));
    assert_eq!(trace.y(), scalar(5));
    assert_eq!(trace.challenges(), &[scalar(6), scalar(7)]);
    let point = identity();
    assert_eq!(trace.advice_commitments(), &[vec![point, point], vec![point, point], vec![
        point, point
    ]]);
    assert_eq!(trace.num_proofs(), 3);
}

#[test]
fn verifier_trace_of_no_proofs() {
    let trace = verifier_trace(0, 0, 0, 0).unwrap();
    assert_eq!(trace.num_proofs(), 0);
    assert!(trace.advice_commitments().is_empty());
}

#[test]
fn verifier_trace_parts_are_for_the_same_proofs() {
    assert!(verifier_trace(1, 2, 2, 2).is_none());
    assert!(verifier_trace(2, 1, 2, 2).is_none());
    assert!(verifier_trace(2, 2, 3, 2).is_none());
    assert!(verifier_trace(2, 2, 2, 0).is_none());
}

#[test]
fn prover_trace_parts_are_for_the_same_proofs() {
    assert_eq!(prover_trace([2; 6]).unwrap().num_proofs(), 2);
    for i in 0..6 {
        let mut sizes = [2usize; 6];
        sizes[i] = 1;
        assert!(prover_trace(sizes).is_none());
    }
}
