//! Scalars of BLS12-381 as a transcript takes them in and gives them out.

use ff::{FromUniformBytes, PrimeField};
use vstd::prelude::*;
use vstd::slice::slice_to_vec;

use crate::encoding::{
    le_bytes, le_value, lemma_bytes_of_value, lemma_value_of_zero_extended,
    lemma_value_tells_bytes_apart, same_bytes,
};
use crate::error::ReadError;
use crate::reader::read_exact;

verus! {

/// The number of bytes of an encoded scalar.
pub const SCALAR_BYTES: usize = 32;

/// The order of the scalar field of BLS12-381.
pub open spec fn scalar_modulus() -> nat {
    0x73eda753299d7d483339d80809a1d80553bda402fffe5bfeffffffff00000001nat
}

/// What reading one scalar from the front of `buffer` gives, and what is left
/// of the buffer afterwards.
pub open spec fn scalar_read(buffer: Seq<u8>) -> (Result<nat, ReadError>, Seq<u8>) {
    if buffer.len() < SCALAR_BYTES {
        (Err(ReadError::UnexpectedEof), Seq::empty())
    } else {
        let value = le_value(buffer.take(SCALAR_BYTES as int));
        let rest = buffer.skip(SCALAR_BYTES as int);
        if value < scalar_modulus() {
            (Ok(value), rest)
        } else {
            (Err(ReadError::InvalidScalar), rest)
        }
    }
}

/// A scalar of BLS12-381, held as its canonical encoding: 32 bytes, least
/// significant byte first, that stand for a number below the modulus.
#[derive(Clone, Copy, Debug, Eq)]
pub struct Fq {
    repr: [u8; 32],
}

/// `PrimeField::from_repr` of `midnight_curves::Fq`, the element handed on as
/// its `to_repr`. Claimed: it accepts exactly the little-endian encodings of
/// the numbers below the modulus, and the element's representation is the one
/// that it was made from.
#[verifier::external_body]
fn scalar_from_repr(bytes: [u8; 32]) -> (repr: Option<[u8; 32]>)
    ensures
        repr is Some <==> le_value(bytes@) < scalar_modulus(),
        repr matches Some(out) ==> out@ == bytes@,
{
    let element: Option<midnight_curves::Fq> = midnight_curves::Fq::from_repr(bytes).into();
    element.map(|element| element.to_repr())
}

/// `FromUniformBytes::from_uniform_bytes` of `midnight_curves::Fq`, the
/// element handed on as its `to_repr`. Claimed: the element is the
/// little-endian number of the bytes, reduced by the modulus, and its
/// representation is the little-endian encoding of that remainder.
#[verifier::external_body]
fn scalar_from_uniform_bytes(bytes: &[u8; 64]) -> (repr: [u8; 32])
    ensures
        le_value(repr@) == le_value(bytes@) % scalar_modulus(),
{
    midnight_curves::Fq::from_uniform_bytes(bytes).to_repr()
}

impl View for Fq {
    type V = nat;

    /// The number that the scalar is.
    closed spec fn view(&self) -> nat {
        le_value(self.repr@)
    }
}

impl PartialEq for Fq {
    /// Whether both are the same number.
    fn eq(&self, other: &Fq) -> (equal: bool) {
        proof {
            if self@ == other@ {
                lemma_value_tells_bytes_apart(self.repr@, other.repr@);
            }
        }
        same_bytes(self.repr.as_slice(), other.repr.as_slice())
    }
}

impl vstd::std_specs::cmp::PartialEqSpecImpl for Fq {
    open spec fn obeys_eq_spec() -> bool {
        true
    }

    open spec fn eq_spec(&self, other: &Fq) -> bool {
        self@ == other@
    }
}

/// A scalar is determined by its number: there are no two scalars with the
/// same one.
pub proof fn law_scalar_is_its_number(a: Fq, b: Fq)
    ensures
        a@ == b@ <==> a == b,
{
    if a@ == b@ {
        lemma_value_tells_bytes_apart(a.repr@, b.repr@);
        assert(a.repr =~= b.repr);
    }
}

impl Fq {
    #[verifier::type_invariant]
    closed spec fn inv(self) -> bool {
        le_value(self.repr@) < scalar_modulus()
    }

    /// The bytes that a transcript absorbs for the scalar: its canonical
    /// encoding.
    pub fn to_input(&self) -> (input: Vec<u8>)
        ensures
            input@ == le_bytes(self@, SCALAR_BYTES as nat),
            input@.len() == SCALAR_BYTES,
            self@ < scalar_modulus(),
    {
        proof {
            use_type_invariant(self);
            lemma_bytes_of_value(self.repr@);
        }
        slice_to_vec(self.repr.as_slice())
    }

    /// The bytes that a proof holds for the scalar: its canonical encoding.
    pub fn to_bytes(&self) -> (bytes: Vec<u8>)
        ensures
            bytes@ == le_bytes(self@, SCALAR_BYTES as nat),
            bytes@.len() == SCALAR_BYTES,
            self@ < scalar_modulus(),
    {
        proof {
            use_type_invariant(self);
            lemma_bytes_of_value(self.repr@);
        }
        slice_to_vec(self.repr.as_slice())
    }

    /// Reads one scalar from the front of `buffer` and moves the buffer past
    /// its encoding. A buffer that is too short is used up.
    pub fn read(buffer: &mut &[u8]) -> (result: Result<Fq, ReadError>)
        ensures
            match result {
                Ok(scalar) => scalar_read(old(buffer)@).0 == Ok::<nat, ReadError>(scalar@),
                Err(error) => scalar_read(old(buffer)@).0 == Err::<nat, ReadError>(error),
            },
            final(buffer)@ == scalar_read(old(buffer)@).1,
    {
        let bytes: [u8; 32] = match read_exact::<32>(buffer) {
            Ok(bytes) => bytes,
            Err(error) => return Err(error),
        };
        match scalar_from_repr(bytes) {
            Some(repr) => Ok(Fq { repr }),
            None => Err(ReadError::InvalidScalar),
        }
    }

    /// The challenge that a squeezed digest stands for: the digest as a
    /// little-endian number, reduced by the modulus.
    pub fn sample(hash_output: Vec<u8>) -> (challenge: Fq)
        requires
            hash_output@.len() == SCALAR_BYTES,
        ensures
            challenge@ == le_value(hash_output@) % scalar_modulus(),
    {
        let mut bytes: [u8; 64] = [0u8; 64];
        let mut i: usize = 0;
        while i < SCALAR_BYTES
            invariant
                i <= SCALAR_BYTES == hash_output@.len(),
                bytes@.take(i as int) == hash_output@.take(i as int),
                forall|j: int| i <= j < 64 ==> bytes@[j] == 0,
            decreases SCALAR_BYTES - i,
        {
            bytes[i] = hash_output[i];
            i += 1;
        }
        proof {
            let zeros = bytes@.skip(SCALAR_BYTES as int);
            assert(bytes@ =~= hash_output@ + zeros) by {
                assert(hash_output@.take(SCALAR_BYTES as int) =~= hash_output@);
            }
            lemma_value_of_zero_extended(hash_output@, zeros);
        }
        let repr: [u8; 32] = scalar_from_uniform_bytes(&bytes);
        Fq { repr }
    }
}

} // verus!
