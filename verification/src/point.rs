//! Points of BLS12-381 as a transcript takes them in.

use group::GroupEncoding;
use vstd::prelude::*;
use vstd::slice::slice_to_vec;

use crate::curve::{base_modulus, in_subgroup, on_curve, CurvePoint};
use crate::encoding::{le_value, same_bytes};
use crate::error::ReadError;
use crate::reader::read_exact;

verus! {

/// The number of bytes of a compressed point.
pub const POINT_BYTES: usize = 48;

/// The number that `bytes` stands for, most significant byte first.
pub open spec fn be_value(bytes: Seq<u8>) -> nat {
    le_value(bytes.reverse())
}

/// The first coordinate in a compressed encoding: the number that is left when
/// the three flags at its top are cleared.
pub open spec fn encoded_coordinate(bytes: Seq<u8>) -> nat {
    be_value(bytes.update(0, (bytes[0] % 32) as u8))
}

/// Whether `bytes` is the compressed encoding of a point of the group: 48
/// bytes with the flag for compression that are the encoding of the identity,
/// or hold the first coordinate of a point of the subgroup and a flag that
/// tells which of the two second coordinates is meant, the greater one or the
/// lesser one.
pub open spec fn encodes_point(bytes: Seq<u8>) -> bool {
    &&& bytes.len() == POINT_BYTES
    &&& bytes[0] >= 0x80
    &&& if bytes[0] >= 0xc0 {
        bytes == identity_encoding()
    } else {
        let x = encoded_coordinate(bytes);
        exists|y: nat|
            {
                &&& #[trigger] on_curve(x, y)
                &&& bytes[0] >= 0xa0 <==> 2 * y > base_modulus()
                &&& in_subgroup(CurvePoint::Affine { x, y })
            }
    }
}

/// The compressed encoding of the identity: the flags for compression and for
/// the point at infinity, and nothing else.
pub open spec fn identity_encoding() -> Seq<u8> {
    Seq::new(POINT_BYTES as nat, |i: int| if i == 0 { 0xc0u8 } else { 0u8 })
}

/// Whether `bytes` has the form of a compressed encoding: its length, the flag
/// for compression, and the flag for the point at infinity on the identity
/// alone.
pub open spec fn has_compressed_form(bytes: Seq<u8>) -> bool {
    &&& bytes.len() == POINT_BYTES
    &&& bytes[0] >= 0x80
    &&& bytes[0] >= 0xc0 ==> bytes == identity_encoding()
}

/// What reading one point from the front of `buffer` gives, as its encoding,
/// and what is left of the buffer afterwards.
pub open spec fn point_read(buffer: Seq<u8>) -> (Result<Seq<u8>, ReadError>, Seq<u8>) {
    if buffer.len() < POINT_BYTES {
        (Err(ReadError::UnexpectedEof), Seq::empty())
    } else {
        let encoding = buffer.take(POINT_BYTES as int);
        let rest = buffer.skip(POINT_BYTES as int);
        if encodes_point(encoding) {
            (Ok(encoding), rest)
        } else {
            (Err(ReadError::InvalidPoint), rest)
        }
    }
}

/// A point of the group G1 of BLS12-381, held as its compressed encoding.
#[derive(Clone, Copy, Debug, Eq)]
pub struct G1Projective {
    encoding: [u8; 48],
}

/// `GroupEncoding::from_bytes` of `midnight_curves::G1Projective`, the point
/// handed on as its `to_bytes`. Claimed: it accepts exactly the compressed
/// encodings of the points of the group. There is none without the flag for
/// compression, and with the flag for the point at infinity only that of the
/// identity. A point has no encoding but the one that it was decoded from: the
/// flag bits and the coordinate are checked to be the ones that compressing the
/// point writes.
#[verifier::external_body]
fn point_from_bytes(bytes: &[u8; 48]) -> (encoding: Option<[u8; 48]>)
    ensures
        encoding is Some <==> encodes_point(bytes@),
        encoding is Some ==> bytes@[0] >= 0x80,
        bytes@[0] >= 0xc0 ==> (encoding is Some <==> bytes@ == identity_encoding()),
        encoding matches Some(out) ==> out@ == bytes@,
{
    let mut repr = <midnight_curves::G1Projective as GroupEncoding>::Repr::default();
    repr.as_mut().copy_from_slice(bytes);
    let point: Option<midnight_curves::G1Projective> =
        midnight_curves::G1Projective::from_bytes(&repr).into();
    point.map(
        |point|
            {
                let mut out = [0u8; 48];
                out.copy_from_slice(point.to_bytes().as_ref());
                out
            },
    )
}

impl View for G1Projective {
    type V = Seq<u8>;

    /// The compressed encoding of the point.
    closed spec fn view(&self) -> Seq<u8> {
        self.encoding@
    }
}

impl PartialEq for G1Projective {
    /// Whether both have the same encoding.
    fn eq(&self, other: &G1Projective) -> (equal: bool) {
        same_bytes(self.encoding.as_slice(), other.encoding.as_slice())
    }
}

impl vstd::std_specs::cmp::PartialEqSpecImpl for G1Projective {
    open spec fn obeys_eq_spec() -> bool {
        true
    }

    open spec fn eq_spec(&self, other: &G1Projective) -> bool {
        self@ == other@
    }
}

/// A point is determined by its encoding: there are no two points with the
/// same one.
pub proof fn law_point_is_its_encoding(p: G1Projective, q: G1Projective)
    ensures
        p@ == q@ <==> p == q,
{
    if p@ == q@ {
        assert(p.encoding =~= q.encoding);
    }
}

impl G1Projective {
    #[verifier::type_invariant]
    closed spec fn inv(self) -> bool {
        &&& encodes_point(self.encoding@)
        &&& has_compressed_form(self.encoding@)
    }

    /// The bytes that a transcript absorbs for the point: its compressed
    /// encoding.
    pub fn to_input(&self) -> (input: Vec<u8>)
        ensures
            input@ == self@,
            input@.len() == POINT_BYTES,
            encodes_point(self@),
            has_compressed_form(self@),
    {
        proof {
            use_type_invariant(self);
        }
        slice_to_vec(self.encoding.as_slice())
    }

    /// The bytes that a proof holds for the point: its compressed encoding.
    pub fn to_bytes(&self) -> (bytes: Vec<u8>)
        ensures
            bytes@ == self@,
            bytes@.len() == POINT_BYTES,
            encodes_point(self@),
            has_compressed_form(self@),
    {
        proof {
            use_type_invariant(self);
        }
        slice_to_vec(self.encoding.as_slice())
    }

    /// Reads one point from the front of `buffer` and moves the buffer past
    /// its encoding. A buffer that is too short is used up.
    pub fn read(buffer: &mut &[u8]) -> (result: Result<G1Projective, ReadError>)
        ensures
            match result {
                Ok(point) => point_read(old(buffer)@).0 == Ok::<Seq<u8>, ReadError>(point@),
                Err(error) => point_read(old(buffer)@).0 == Err::<Seq<u8>, ReadError>(error),
            },
            final(buffer)@ == point_read(old(buffer)@).1,
            old(buffer)@.len() >= POINT_BYTES && !has_compressed_form(
                old(buffer)@.take(POINT_BYTES as int),
            ) ==> result == Err::<G1Projective, ReadError>(ReadError::InvalidPoint),
            identity_encoding().is_prefix_of(old(buffer)@) ==> result is Ok,
    {
        let bytes: [u8; 48] = match read_exact::<48>(buffer) {
            Ok(bytes) => bytes,
            Err(error) => return Err(error),
        };
        let decoded: Option<G1Projective> = match point_from_bytes(&bytes) {
            Some(encoding) => Some(G1Projective { encoding }),
            None => None,
        };
        G1Projective::from_decoded(decoded)
    }

    /// The outcome of a read, given what decoding found in the bytes.
    pub fn from_decoded(decoded: Option<G1Projective>) -> (result: Result<G1Projective, ReadError>)
        ensures
            result == match decoded {
                Some(point) => Ok::<G1Projective, ReadError>(point),
                None => Err::<G1Projective, ReadError>(ReadError::InvalidPoint),
            },
    {
        match decoded {
            Some(point) => Ok(point),
            None => Err(ReadError::InvalidPoint),
        }
    }
}

} // verus!
