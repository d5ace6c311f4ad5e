//! Traces of a batch of proofs that are made or checked together.

use std::marker::PhantomData;

use vstd::prelude::*;

verus! {

/// The basis of a polynomial that is given by its coefficients.
#[derive(Clone, Copy, Debug)]
pub struct Coeff;

/// The basis of a polynomial that is given by its values on the domain.
#[derive(Clone, Copy, Debug)]
pub struct LagrangeCoeff;

/// A polynomial over `F` in the basis `B`.
#[derive(Debug)]
pub struct Polynomial<F, B> {
    pub values: Vec<F>,
    pub basis: PhantomData<B>,
}

/// What the prover keeps of each argument, over `F`.
pub trait ProverArguments<F>: Sized {
    /// What is kept of the vanishing argument.
    type Vanishing;

    /// What is kept of a lookup argument.
    type Lookup;

    /// What is kept of a trashcan argument.
    type Trashcan;

    /// What is kept of the permutation argument of one proof.
    type Permutation;
}

/// Prover's trace of a set of proofs. The vectors that hold something for each
/// proof all have the same length.
#[allow(dead_code)]
#[derive(Debug)]
pub struct ProverTrace<F, A: ProverArguments<F>> {
    advice_polys: Vec<Vec<Polynomial<F, Coeff>>>,
    instance_polys: Vec<Vec<Polynomial<F, Coeff>>>,
    instance_values: Vec<Vec<Polynomial<F, LagrangeCoeff>>>,
    vanishing: A::Vanishing,
    lookups: Vec<Vec<A::Lookup>>,
    trashcans: Vec<Vec<A::Trashcan>>,
    permutations: Vec<A::Permutation>,
    challenges: Vec<F>,
    beta: F,
    gamma: F,
    theta: F,
    trash_challenge: F,
    y: F,
}

/// What a `ProverTrace` holds.
#[verifier::ext_equal]
pub struct ProverTraceView<F, A: ProverArguments<F>> {
    pub advice_polys: Seq<Vec<Polynomial<F, Coeff>>>,
    pub instance_polys: Seq<Vec<Polynomial<F, Coeff>>>,
    pub instance_values: Seq<Vec<Polynomial<F, LagrangeCoeff>>>,
    pub vanishing: A::Vanishing,
    pub lookups: Seq<Vec<A::Lookup>>,
    pub trashcans: Seq<Vec<A::Trashcan>>,
    pub permutations: Seq<A::Permutation>,
    pub challenges: Seq<F>,
    pub beta: F,
    pub gamma: F,
    pub theta: F,
    pub trash_challenge: F,
    pub y: F,
}

impl<F, A: ProverArguments<F>> ProverTraceView<F, A> {
    /// Whether every vector that holds something for each proof has `proofs`
    /// entries.
    pub open spec fn is_for(self, proofs: nat) -> bool {
        &&& self.advice_polys.len() == proofs
        &&& self.instance_polys.len() == proofs
        &&& self.instance_values.len() == proofs
        &&& self.lookups.len() == proofs
        &&& self.trashcans.len() == proofs
        &&& self.permutations.len() == proofs
    }
}

impl<F, A: ProverArguments<F>> View for ProverTrace<F, A> {
    type V = ProverTraceView<F, A>;

    closed spec fn view(&self) -> ProverTraceView<F, A> {
        ProverTraceView {
            advice_polys: self.advice_polys@,
            instance_polys: self.instance_polys@,
            instance_values: self.instance_values@,
            vanishing: self.vanishing,
            lookups: self.lookups@,
            trashcans: self.trashcans@,
            permutations: self.permutations@,
            challenges: self.challenges@,
            beta: self.beta,
            gamma: self.gamma,
            theta: self.theta,
            trash_challenge: self.trash_challenge,
            y: self.y,
        }
    }
}

impl<F, A: ProverArguments<F>> ProverTrace<F, A> {
    #[verifier::type_invariant]
    closed spec fn inv(self) -> bool {
        self@.is_for(self.advice_polys@.len())
    }

    /// A trace of these parts, if they are for the same number of proofs.
    pub fn new(
        advice_polys: Vec<Vec<Polynomial<F, Coeff>>>,
        instance_polys: Vec<Vec<Polynomial<F, Coeff>>>,
        instance_values: Vec<Vec<Polynomial<F, LagrangeCoeff>>>,
        vanishing: A::Vanishing,
        lookups: Vec<Vec<A::Lookup>>,
        trashcans: Vec<Vec<A::Trashcan>>,
        permutations: Vec<A::Permutation>,
        challenges: Vec<F>,
        beta: F,
        gamma: F,
        theta: F,
        trash_challenge: F,
        y: F,
    ) -> (trace: Option<Self>)
        ensures
            ({
                let parts = ProverTraceView::<F, A> {
                    advice_polys: advice_polys@,
                    instance_polys: instance_polys@,
                    instance_values: instance_values@,
                    vanishing,
                    lookups: lookups@,
                    trashcans: trashcans@,
                    permutations: permutations@,
                    challenges: challenges@,
                    beta,
                    gamma,
                    theta,
                    trash_challenge,
                    y,
                };
                &&& trace is Some <==> parts.is_for(advice_polys@.len())
                &&& trace is Some <==> {
                    &&& instance_polys@.len() == advice_polys@.len()
                    &&& instance_values@.len() == advice_polys@.len()
                    &&& lookups@.len() == advice_polys@.len()
                    &&& trashcans@.len() == advice_polys@.len()
                    &&& permutations@.len() == advice_polys@.len()
                }
                &&& trace matches Some(t) ==> t@ == parts
            }),
    {
        let proofs: usize = advice_polys.len();
        if instance_polys.len() != proofs || instance_values.len() != proofs || lookups.len()
            != proofs || trashcans.len() != proofs || permutations.len() != proofs {
            return None;
        }
        Some(
            ProverTrace {
                advice_polys,
                instance_polys,
                instance_values,
                vanishing,
                lookups,
                trashcans,
                permutations,
                challenges,
                beta,
                gamma,
                theta,
                trash_challenge,
                y,
            },
        )
    }

    /// The number of proofs that the trace is of.
    pub fn num_proofs(&self) -> (proofs: usize)
        ensures
            self@.is_for(proofs as nat),
            proofs == self@.advice_polys.len(),
            proofs == self@.instance_polys.len(),
            proofs == self@.instance_values.len(),
            proofs == self@.lookups.len(),
            proofs == self@.trashcans.len(),
            proofs == self@.permutations.len(),
    {
        proof {
            use_type_invariant(self);
        }
        self.advice_polys.len()
    }
}

/// The types that a commitment scheme over `F` brings: a commitment, and what
/// the verifier keeps of each argument.
pub trait PolynomialCommitmentScheme<F>: Sized {
    /// A commitment to a polynomial.
    type Commitment;

    /// What is kept of the vanishing argument.
    type Vanishing;

    /// What is kept of a lookup argument.
    type Lookup;

    /// What is kept of a trashcan argument.
    type Trashcan;

    /// What is kept of the permutation argument of one proof.
    type Permutation;
}

/// Verifier's trace of a set of proofs. The vectors that hold something for
/// each proof all have the same length.
#[allow(dead_code)]
#[derive(Debug)]
pub struct VerifierTrace<F, PCS: PolynomialCommitmentScheme<F>> {
    advice_commitments: Vec<Vec<PCS::Commitment>>,
    vanishing: PCS::Vanishing,
    lookups: Vec<Vec<PCS::Lookup>>,
    trashcans: Vec<Vec<PCS::Trashcan>>,
    permutations: Vec<PCS::Permutation>,
    challenges: Vec<F>,
    beta: F,
    gamma: F,
    theta: F,
    trash_challenge: F,
    y: F,
}

/// What a `VerifierTrace` holds.
#[verifier::ext_equal]
pub struct VerifierTraceView<F, PCS: PolynomialCommitmentScheme<F>> {
    pub advice_commitments: Seq<Vec<PCS::Commitment>>,
    pub vanishing: PCS::Vanishing,
    pub lookups: Seq<Vec<PCS::Lookup>>,
    pub trashcans: Seq<Vec<PCS::Trashcan>>,
    pub permutations: Seq<PCS::Permutation>,
    pub challenges: Seq<F>,
    pub beta: F,
    pub gamma: F,
    pub theta: F,
    pub trash_challenge: F,
    pub y: F,
}

impl<F, PCS: PolynomialCommitmentScheme<F>> VerifierTraceView<F, PCS> {
    /// Whether every vector that holds something for each proof has `proofs`
    /// entries.
    pub open spec fn is_for(self, proofs: nat) -> bool {
        &&& self.advice_commitments.len() == proofs
        &&& self.lookups.len() == proofs
        &&& self.trashcans.len() == proofs
        &&& self.permutations.len() == proofs
    }
}

impl<F, PCS: PolynomialCommitmentScheme<F>> View for VerifierTrace<F, PCS> {
    type V = VerifierTraceView<F, PCS>;

    closed spec fn view(&self) -> VerifierTraceView<F, PCS> {
        VerifierTraceView {
            advice_commitments: self.advice_commitments@,
            vanishing: self.vanishing,
            lookups: self.lookups@,
            trashcans: self.trashcans@,
            permutations: self.permutations@,
            challenges: self.challenges@,
            beta: self.beta,
            gamma: self.gamma,
            theta: self.theta,
            trash_challenge: self.trash_challenge,
            y: self.y,
        }
    }
}

impl<F, PCS: PolynomialCommitmentScheme<F>> VerifierTrace<F, PCS> {
    #[verifier::type_invariant]
    closed spec fn inv(self) -> bool {
        self@.is_for(self.advice_commitments@.len())
    }

    /// A trace of these parts, if they are for the same number of proofs.
    pub fn new(
        advice_commitments: Vec<Vec<PCS::Commitment>>,
        vanishing: PCS::Vanishing,
        lookups: Vec<Vec<PCS::Lookup>>,
        trashcans: Vec<Vec<PCS::Trashcan>>,
        permutations: Vec<PCS::Permutation>,
        challenges: Vec<F>,
        beta: F,
        gamma: F,
        theta: F,
        trash_challenge: F,
        y: F,
    ) -> (trace: Option<Self>)
        ensures
            ({
                let parts = VerifierTraceView::<F, PCS> {
                    advice_commitments: advice_commitments@,
                    vanishing,
                    lookups: lookups@,
                    trashcans: trashcans@,
                    permutations: permutations@,
                    challenges: challenges@,
                    beta,
                    gamma,
                    theta,
                    trash_challenge,
                    y,
                };
                &&& trace is Some <==> parts.is_for(advice_commitments@.len())
                &&& trace is Some <==> {
                    &&& lookups@.len() == advice_commitments@.len()
                    &&& trashcans@.len() == advice_commitments@.len()
                    &&& permutations@.len() == advice_commitments@.len()
                }
                &&& trace matches Some(t) ==> t@ == parts
            }),
    {
        let proofs: usize = advice_commitments.len();
        if lookups.len() != proofs || trashcans.len() != proofs || permutations.len() != proofs {
            return None;
        }
        Some(
            VerifierTrace {
                advice_commitments,
                vanishing,
                lookups,
                trashcans,
                permutations,
                challenges,
                beta,
                gamma,
                theta,
                trash_challenge,
                y,
            },
        )
    }

    /// The number of proofs that the trace is of.
    pub fn num_proofs(&self) -> (proofs: usize)
        ensures
            self@.is_for(proofs as nat),
            proofs == self@.advice_commitments.len(),
            proofs == self@.lookups.len(),
            proofs == self@.trashcans.len(),
            proofs == self@.permutations.len(),
    {
        proof {
            use_type_invariant(self);
        }
        self.advice_commitments.len()
    }

    /// Phase-based user-defined challenges squeezed during advice absorption.
    pub fn challenges(&self) -> (challenges: &[F])
        ensures
            challenges@ == self@.challenges,
    {
        self.challenges.as_slice()
    }

    /// Advice polynomial commitments read from the proof, grouped by proof
    /// index.
    pub fn advice_commitments(&self) -> (commitments: &[Vec<PCS::Commitment>])
        ensures
            commitments@ == self@.advice_commitments,
            self@.is_for(commitments@.len()),
    {
        proof {
            use_type_invariant(self);
        }
        self.advice_commitments.as_slice()
    }
}

impl<F: Copy, PCS: PolynomialCommitmentScheme<F>> VerifierTrace<F, PCS> {
    /// Fiat-Shamir challenge for lookup column independence.
    pub fn theta(&self) -> (theta: F)
        ensures
            theta == self@.theta,
    {
        self.theta
    }

    /// Fiat-Shamir challenge for permutation/lookup product arguments (first).
    pub fn beta(&self) -> (beta: F)
        ensures
            beta == self@.beta,
    {
        self.beta
    }

    /// Fiat-Shamir challenge for permutation/lookup product arguments (second).
    pub fn gamma(&self) -> (gamma: F)
        ensures
            gamma == self@.gamma,
    {
        self.gamma
    }

    /// Fiat-Shamir challenge that keeps custom gates linearly independent.
    pub fn y(&self) -> (y: F)
        ensures
            y == self@.y,
    {
        self.y
    }

    /// Fiat-Shamir challenge for the trashcan argument.
    pub fn trash_challenge(&self) -> (trash_challenge: F)
        ensures
            trash_challenge == self@.trash_challenge,
    {
        self.trash_challenge
    }
}

/// A prover's trace is for `proofs` proofs exactly where each of the six
/// vectors that hold something for each proof has `proofs` entries.
pub proof fn law_prover_trace_sizes<F, A: ProverArguments<F>>(
    trace: ProverTraceView<F, A>,
    proofs: nat,
)
    ensures
        trace.is_for(proofs) <==> (trace.advice_polys.len() == proofs
            && trace.instance_polys.len() == proofs && trace.instance_values.len() == proofs
            && trace.lookups.len() == proofs && trace.trashcans.len() == proofs
            && trace.permutations.len() == proofs),
{
}

/// A verifier's trace is for `proofs` proofs exactly where each of the four
/// vectors that hold something for each proof has `proofs` entries.
pub proof fn law_verifier_trace_sizes<F, PCS: PolynomialCommitmentScheme<F>>(
    trace: VerifierTraceView<F, PCS>,
    proofs: nat,
)
    ensures
        trace.is_for(proofs) <==> (trace.advice_commitments.len() == proofs
            && trace.lookups.len() == proofs && trace.trashcans.len() == proofs
            && trace.permutations.len() == proofs),
{
}

} // verus!
