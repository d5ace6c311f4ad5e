//! What holds of the library as a whole, over the models that the contracts of
//! its functions speak of.

use vstd::arithmetic::div_mod::lemma_div_denominator;
use vstd::arithmetic::power::{lemma_pow0, lemma_pow_positive, pow};
use vstd::prelude::*;

use crate::blake2b::{
    chain_over, compress, hash_from, initial_chain, initialization_vector, lemma_hash_continues,
    lemma_output_len, low_word, mix_rounds, output_bytes, padded_block, BLOCK_BYTES,
};
use crate::curve::{
    base_modulus, field_quotient, in_subgroup, is_quotient, on_curve, point_multiple, point_sum,
    CurvePoint,
};
use crate::encoding::{
    le_bytes, le_capacity, le_value, lemma_bytes_of_value, lemma_le_bytes_len,
    lemma_value_of_bytes,
};
use crate::error::ReadError;
use crate::plutus_transcript::{blake2b_256_digest, DIGEST_BYTES};
use crate::point::{
    encoded_coordinate, encodes_point, has_compressed_form, identity_encoding, point_read,
    POINT_BYTES,
};
use crate::scalar::{scalar_modulus, scalar_read, SCALAR_BYTES};

verus! {

/// One call on a transcript.
pub enum TranscriptOp {
    /// `absorb` of `input`.
    Absorb { input: Seq<u8> },
    /// `squeeze`.
    Squeeze,
}

/// What a transcript has accumulated after `op`, where it had accumulated
/// `data` before.
pub open spec fn transcript_step(data: Seq<u8>, op: TranscriptOp) -> Seq<u8> {
    match op {
        TranscriptOp::Absorb { input } => data + input,
        TranscriptOp::Squeeze => data + blake2b_256_digest(data),
    }
}

/// What a transcript has accumulated after all of `ops`, in order.
pub open spec fn transcript_after(data: Seq<u8>, ops: Seq<TranscriptOp>) -> Seq<u8>
    decreases ops.len(),
{
    if ops.len() == 0 {
        data
    } else {
        transcript_step(transcript_after(data, ops.drop_last()), ops.last())
    }
}

/// A digest has 32 bytes, whatever it is the digest of.
pub proof fn law_digest_has_fixed_length(data: Seq<u8>)
    ensures
        blake2b_256_digest(data).len() == DIGEST_BYTES,
{
    lemma_output_len(hash_from(initial_chain(), data, 0));
}

/// A transcript only grows: what it has accumulated after the first `i` calls
/// stays at the front of what it has accumulated after any later call.
pub proof fn law_transcript_only_grows(data: Seq<u8>, ops: Seq<TranscriptOp>, i: int, j: int)
    requires
        0 <= i <= j <= ops.len(),
    ensures
        transcript_after(data, ops.take(i)).is_prefix_of(transcript_after(data, ops.take(j))),
    decreases j - i,
{
    if i < j {
        law_transcript_only_grows(data, ops, i, j - 1);
        assert(ops.take(j).drop_last() =~= ops.take(j - 1));
    }
}

/// Every challenge stays in the transcript: the digest that a squeeze gives
/// out stands, after any later call, right behind the bytes that it is the
/// digest of.
pub proof fn law_challenge_is_fed_back(data: Seq<u8>, ops: Seq<TranscriptOp>, i: int, j: int)
    requires
        0 <= i < j <= ops.len(),
        ops[i] is Squeeze,
    ensures
        ({
            let hashed = transcript_after(data, ops.take(i));
            (hashed + blake2b_256_digest(hashed)).is_prefix_of(
                transcript_after(data, ops.take(j)),
            )
        }),
{
    law_transcript_only_grows(data, ops, i + 1, j);
    assert(ops.take(i + 1).drop_last() =~= ops.take(i));
}

/// No two squeezes of one transcript hash the same bytes, whatever is absorbed
/// between them, nothing included. So two of its challenges can only be equal
/// where the hash function collides.
pub proof fn law_squeezes_hash_distinct_data(data: Seq<u8>, ops: Seq<TranscriptOp>, i: int, j: int)
    requires
        0 <= i < j < ops.len(),
        ops[i] is Squeeze,
        ops[j] is Squeeze,
    ensures
        transcript_after(data, ops.take(i)).len() + DIGEST_BYTES <= transcript_after(
            data,
            ops.take(j),
        ).len(),
        transcript_after(data, ops.take(i)) != transcript_after(data, ops.take(j)),
{
    law_challenge_is_fed_back(data, ops, i, j);
    law_digest_has_fixed_length(transcript_after(data, ops.take(i)));
}

/// The inputs of all `Absorb` calls among `ops`, joined in order.
pub open spec fn joined_inputs(ops: Seq<TranscriptOp>) -> Seq<u8>
    decreases ops.len(),
{
    if ops.len() == 0 {
        Seq::empty()
    } else {
        match ops.last() {
            TranscriptOp::Absorb { input } => joined_inputs(ops.drop_last()) + input,
            TranscriptOp::Squeeze => joined_inputs(ops.drop_last()),
        }
    }
}

/// A transcript keeps no trace of how its input was cut: absorbing any inputs
/// in turn appends them joined, as absorbing them joined does.
pub proof fn law_absorbing_in_parts(data: Seq<u8>, ops: Seq<TranscriptOp>)
    requires
        forall|i: int| 0 <= i < ops.len() ==> #[trigger] ops[i] is Absorb,
    ensures
        transcript_after(data, ops) == data + joined_inputs(ops),
        transcript_after(data, ops) == transcript_step(
            data,
            TranscriptOp::Absorb { input: joined_inputs(ops) },
        ),
    decreases ops.len(),
{
    if ops.len() == 0 {
        assert(data + joined_inputs(ops) =~= data);
    } else {
        let earlier = ops.drop_last();
        assert forall|i: int| 0 <= i < earlier.len() implies #[trigger] earlier[i] is Absorb by {
            assert(earlier[i] == ops[i]);
        }
        law_absorbing_in_parts(data, earlier);
        assert(ops[ops.len() - 1] is Absorb);
        let input = ops.last()->input;
        assert((data + joined_inputs(earlier)) + input =~= data + (joined_inputs(earlier)
            + input));
    }
}

/// Reading gives back a scalar that was written, and leaves what was written
/// behind it.
pub proof fn law_written_scalar_is_read_back(value: nat, rest: Seq<u8>)
    requires
        value < scalar_modulus(),
    ensures
        scalar_read(le_bytes(value, SCALAR_BYTES as nat) + rest) == (
            Ok::<nat, ReadError>(value),
            rest,
        ),
{
    let written = le_bytes(value, SCALAR_BYTES as nat);
    lemma_le_bytes_len(value, SCALAR_BYTES as nat);
    lemma_modulus_fits();
    lemma_value_of_bytes(value, SCALAR_BYTES as nat);
    assert((written + rest).take(SCALAR_BYTES as int) =~= written);
    assert((written + rest).skip(SCALAR_BYTES as int) =~= rest);
}

/// A scalar has one encoding: writing a scalar that was read gives back the
/// bytes that it was read from.
pub proof fn law_read_scalar_is_written_back(buffer: Seq<u8>)
    ensures
        scalar_read(buffer).0 matches Ok(value) ==> value < scalar_modulus() && le_bytes(
            value,
            SCALAR_BYTES as nat,
        ) + scalar_read(buffer).1 == buffer,
{
    if buffer.len() >= SCALAR_BYTES {
        let front = buffer.take(SCALAR_BYTES as int);
        lemma_bytes_of_value(front);
        assert(front + buffer.skip(SCALAR_BYTES as int) =~= buffer);
    }
}

/// Distinct scalars leave distinct transcripts.
pub proof fn law_absorbed_scalars_are_told_apart(data: Seq<u8>, a: nat, b: nat)
    requires
        a < scalar_modulus(),
        b < scalar_modulus(),
        a != b,
    ensures
        transcript_step(
            data,
            TranscriptOp::Absorb { input: le_bytes(a, SCALAR_BYTES as nat) },
        ) != transcript_step(
            data,
            TranscriptOp::Absorb { input: le_bytes(b, SCALAR_BYTES as nat) },
        ),
{
    let input_a = le_bytes(a, SCALAR_BYTES as nat);
    let input_b = le_bytes(b, SCALAR_BYTES as nat);
    lemma_modulus_fits();
    lemma_value_of_bytes(a, SCALAR_BYTES as nat);
    lemma_value_of_bytes(b, SCALAR_BYTES as nat);
    assert((data + input_a).skip(data.len() as int) =~= input_a);
    assert((data + input_b).skip(data.len() as int) =~= input_b);
}

/// Reading gives back a point that was written, and leaves what was written
/// behind it. Bytes of the right length that encode no point are passed over.
pub proof fn law_written_point_is_read_back(encoding: Seq<u8>, rest: Seq<u8>)
    requires
        encoding.len() == POINT_BYTES,
    ensures
        encodes_point(encoding) ==> point_read(encoding + rest) == (
            Ok::<Seq<u8>, ReadError>(encoding),
            rest,
        ),
        !encodes_point(encoding) ==> point_read(encoding + rest) == (
            Err::<Seq<u8>, ReadError>(ReadError::InvalidPoint),
            rest,
        ),
{
    assert((encoding + rest).take(POINT_BYTES as int) =~= encoding);
    assert((encoding + rest).skip(POINT_BYTES as int) =~= rest);
}

/// A point has one encoding: writing a point that was read gives back the
/// bytes that it was read from.
pub proof fn law_read_point_is_written_back(buffer: Seq<u8>)
    ensures
        point_read(buffer).0 matches Ok(encoding) ==> encodes_point(encoding) && encoding.len()
            == POINT_BYTES && encoding + point_read(buffer).1 == buffer,
{
    if buffer.len() >= POINT_BYTES {
        assert(buffer.take(POINT_BYTES as int) + buffer.skip(POINT_BYTES as int) =~= buffer);
    }
}

/// A value that a prover writes into a proof.
pub enum ProofValue {
    /// A scalar, by the number that it is.
    Scalar { value: nat },
    /// A point, by its compressed encoding.
    Point { encoding: Seq<u8> },
}

impl ProofValue {
    /// Whether there is such a scalar or such a point.
    pub open spec fn is_well_formed(self) -> bool {
        match self {
            ProofValue::Scalar { value } => value < scalar_modulus(),
            ProofValue::Point { encoding } => encoding.len() == POINT_BYTES && encodes_point(
                encoding,
            ),
        }
    }

    /// The bytes that stand for the value, in a proof and in a transcript.
    pub open spec fn bytes(self) -> Seq<u8> {
        match self {
            ProofValue::Scalar { value } => le_bytes(value, SCALAR_BYTES as nat),
            ProofValue::Point { encoding } => encoding,
        }
    }

    /// Whether reading a value of this kind from `buffer` gives this value.
    pub open spec fn is_read_from(self, buffer: Seq<u8>) -> bool {
        match self {
            ProofValue::Scalar { value } => scalar_read(buffer).0 == Ok::<nat, ReadError>(value),
            ProofValue::Point { encoding } => point_read(buffer).0 == Ok::<Seq<u8>, ReadError>(
                encoding,
            ),
        }
    }

    /// What reading a value of this kind leaves of `buffer`.
    pub open spec fn rest_of(self, buffer: Seq<u8>) -> Seq<u8> {
        match self {
            ProofValue::Scalar { .. } => scalar_read(buffer).1,
            ProofValue::Point { .. } => point_read(buffer).1,
        }
    }
}

/// The proof that holds `values`, in order.
pub open spec fn proof_bytes(values: Seq<ProofValue>) -> Seq<u8>
    decreases values.len(),
{
    if values.len() == 0 {
        Seq::empty()
    } else {
        values.first().bytes() + proof_bytes(values.drop_first())
    }
}

/// Whether reading values of the kinds of `values` from `buffer`, in order,
/// gives `values` and leaves `rest`.
pub open spec fn are_read_from(values: Seq<ProofValue>, buffer: Seq<u8>, rest: Seq<u8>) -> bool
    decreases values.len(),
{
    if values.len() == 0 {
        buffer == rest
    } else {
        &&& values.first().is_read_from(buffer)
        &&& are_read_from(values.drop_first(), values.first().rest_of(buffer), rest)
    }
}

/// A verifier that knows the kinds of the values reads from a proof the values
/// that the prover wrote, and so absorbs what the prover absorbed.
pub proof fn law_written_proof_is_read_back(values: Seq<ProofValue>, rest: Seq<u8>)
    ensures
        (forall|i: int| 0 <= i < values.len() ==> (#[trigger] values[i]).is_well_formed())
            ==> are_read_from(values, proof_bytes(values) + rest, rest),
    decreases values.len(),
{
    if values.len() == 0 {
        assert(proof_bytes(values) + rest =~= rest);
    } else if forall|i: int| 0 <= i < values.len() ==> (#[trigger] values[i]).is_well_formed() {
        let others = values.drop_first();
        let behind = proof_bytes(others) + rest;
        assert(values[0].is_well_formed());
        assert forall|i: int| 0 <= i < others.len() implies (
        #[trigger] others[i]).is_well_formed() by {
            assert(others[i] == values[i + 1]);
        }
        law_written_proof_is_read_back(others, rest);
        assert(proof_bytes(values) + rest =~= values.first().bytes() + behind);
        match values.first() {
            ProofValue::Scalar { value } => law_written_scalar_is_read_back(value, behind),
            ProofValue::Point { encoding } => law_written_point_is_read_back(encoding, behind),
        }
    }
}

/// The little-endian number of a byte string: a further byte, behind the
/// others, counts as often as the bytes before it can be told apart.
pub proof fn law_little_endian_value(bytes: Seq<u8>, byte: u8)
    ensures
        le_value(Seq::<u8>::empty()) == 0,
        le_value(bytes.push(byte)) == le_value(bytes) + byte * pow(256, bytes.len()),
    decreases bytes.len(),
{
    reveal(pow);
    if bytes.len() == 0 {
        lemma_pow0(256);
        assert(bytes.push(byte).drop_first() =~= bytes);
    } else {
        let rest = bytes.drop_first();
        law_little_endian_value(rest, byte);
        assert(bytes.push(byte).drop_first() =~= rest.push(byte));
        assert(256 * (byte * pow(256, rest.len())) == byte * (256 * pow(256, rest.len())))
            by (nonlinear_arith);
    }
}

/// The little-endian bytes of a number: the digits of the number to the base
/// of 256, the lowest first.
pub proof fn law_little_endian_bytes(value: nat, len: nat, i: nat)
    requires
        i < len,
    ensures
        le_bytes(value, len).len() == len,
        le_bytes(value, len)[i as int] == (value as int / pow(256, i)) % 256,
    decreases len,
{
    reveal(pow);
    lemma_le_bytes_len(value, len);
    if i == 0 {
        lemma_pow0(256);
    } else {
        let before = (i - 1) as nat;
        law_little_endian_bytes(value / 256, (len - 1) as nat, before);
        lemma_pow_positive(256, before);
        lemma_div_denominator(value as int, 256, pow(256, before));
    }
}

/// The two moduli are those of the curve with the parameter
/// `-0xd201000000010000`.
pub proof fn law_moduli_are_of_the_curve()
    ensures
        ({
            let u: int = 0xd201000000010000;
            &&& scalar_modulus() == u * u * u * u - u * u + 1
            &&& 3 * (base_modulus() + u) == (u + 1) * (u + 1) * scalar_modulus()
        }),
{
    let u: int = 0xd201000000010000;
    let r: int = 0x73eda753299d7d483339d80809a1d80553bda402fffe5bfeffffffff00000001int;
    let p: int = 0x1a0111ea397fe69a4b1ba7b6434bacd764774b84f38512bf6730d2a0f6b0f6241eabfffeb153ffffb9feffffffffaaabint;
    assert(u * u * u * u - u * u + 1 == r) by (nonlinear_arith)
        requires
            u == 0xd201000000010000int,
            r == 0x73eda753299d7d483339d80809a1d80553bda402fffe5bfeffffffff00000001int,
    ;
    assert(3 * (p + u) == (u + 1) * (u + 1) * r) by (nonlinear_arith)
        requires
            u == 0xd201000000010000int,
            r == 0x73eda753299d7d483339d80809a1d80553bda402fffe5bfeffffffff00000001int,
            p == 0x1a0111ea397fe69a4b1ba7b6434bacd764774b84f38512bf6730d2a0f6b0f6241eabfffeb153ffffb9feffffffffaaabint,
    ;
}

/// The outcome of reading a scalar, in terms of the bytes that are there: too
/// few, a number below the modulus, or another.
pub proof fn law_scalar_read_outcome(buffer: Seq<u8>)
    ensures
        buffer.len() < 32 ==> scalar_read(buffer) == (
            Err::<nat, ReadError>(ReadError::UnexpectedEof),
            Seq::<u8>::empty(),
        ),
        buffer.len() >= 32 ==> scalar_read(buffer).1 == buffer.subrange(32, buffer.len() as int),
        buffer.len() >= 32 && le_value(buffer.subrange(0, 32)) < scalar_modulus() ==> scalar_read(
            buffer,
        ).0 == Ok::<nat, ReadError>(le_value(buffer.subrange(0, 32))),
        buffer.len() >= 32 && le_value(buffer.subrange(0, 32)) >= scalar_modulus() ==> scalar_read(
            buffer,
        ).0 == Err::<nat, ReadError>(ReadError::InvalidScalar),
{
}

/// The outcome of reading a point, in terms of the bytes that are there: too
/// few, an encoding, or something else.
pub proof fn law_point_read_outcome(buffer: Seq<u8>)
    ensures
        buffer.len() < 48 ==> point_read(buffer) == (
            Err::<Seq<u8>, ReadError>(ReadError::UnexpectedEof),
            Seq::<u8>::empty(),
        ),
        buffer.len() >= 48 ==> point_read(buffer).1 == buffer.subrange(48, buffer.len() as int),
        buffer.len() >= 48 && encodes_point(buffer.subrange(0, 48)) ==> point_read(buffer).0
            == Ok::<Seq<u8>, ReadError>(buffer.subrange(0, 48)),
        buffer.len() >= 48 && !encodes_point(buffer.subrange(0, 48)) ==> point_read(buffer).0
            == Err::<Seq<u8>, ReadError>(ReadError::InvalidPoint),
{
}

/// What a read gives depends on the bytes that it takes, and not on what
/// follows them.
pub proof fn law_read_ignores_what_follows(front: Seq<u8>, one: Seq<u8>, other: Seq<u8>)
    ensures
        front.len() == SCALAR_BYTES ==> scalar_read(front + one).0 == scalar_read(front + other).0,
        front.len() == POINT_BYTES ==> point_read(front + one).0 == point_read(front + other).0,
{
    if front.len() == SCALAR_BYTES || front.len() == POINT_BYTES {
        let len = front.len() as int;
        assert((front + one).take(len) =~= front);
        assert((front + other).take(len) =~= front);
    }
}

/// The bytes that encode a point, told by the arithmetic of the curve. The
/// identity has the encoding with the two top bits set and no other. Any other
/// point has its first coordinate, most significant byte first, below a flag
/// for compression and a flag that is set where the second coordinate is the
/// greater of the two that fit; the coordinates satisfy the equation of the
/// curve, and the point has the order of the scalars.
pub proof fn law_point_encoding(bytes: Seq<u8>)
    requires
        bytes.len() == 48,
    ensures
        bytes[0] >= 0xc0 ==> (encodes_point(bytes) <==> bytes[0] == 0xc0 && forall|i: int|
            1 <= i < 48 ==> bytes[i] == 0),
        bytes[0] < 0x80 ==> !encodes_point(bytes),
        0x80 <= bytes[0] < 0xc0 ==> (encodes_point(bytes) <==> exists|y: nat|
            is_second_coordinate(bytes, y)),
{
    if bytes[0] >= 0xc0 {
        assert(identity_encoding()[0] == 0xc0);
        assert forall|i: int| 1 <= i < 48 implies identity_encoding()[i] == 0 by {}
        if bytes[0] == 0xc0 && forall|i: int| 1 <= i < 48 ==> bytes[i] == 0 {
            assert(bytes =~= identity_encoding());
        }
    } else if 0x80 <= bytes[0] {
        let x = encoded_coordinate(bytes);
        if encodes_point(bytes) {
            let y = choose|y: nat|
                {
                    &&& #[trigger] on_curve(x, y)
                    &&& bytes[0] >= 0xa0 <==> 2 * y > base_modulus()
                    &&& in_subgroup(CurvePoint::Affine { x, y })
                };
            assert(is_second_coordinate(bytes, y));
        }
        if exists|y: nat| is_second_coordinate(bytes, y) {
            let y = choose|y: nat| is_second_coordinate(bytes, y);
            assert(on_curve(x, y));
        }
    }
}

/// Whether `y` is the second coordinate of a point of prime order whose first
/// coordinate, and which of the two second ones, `bytes` tells.
pub open spec fn is_second_coordinate(bytes: Seq<u8>, y: nat) -> bool {
    let x = le_value(bytes.update(0, (bytes[0] % 32) as u8).reverse());
    let p = base_modulus();
    &&& x < p
    &&& y < p
    &&& (y * y) % p == (x * x * x + 4) % p
    &&& bytes[0] % 64 >= 32 <==> y > p - y
    &&& point_multiple(scalar_modulus(), CurvePoint::Affine { x, y }) is Infinity
}

/// The form of a compressed encoding, byte by byte.
pub proof fn law_compressed_form(bytes: Seq<u8>)
    ensures
        has_compressed_form(bytes) <==> {
            &&& bytes.len() == 48
            &&& bytes[0] >= 0x80
            &&& bytes[0] < 0xc0 || (bytes[0] == 0xc0 && forall|i: int|
                1 <= i < 48 ==> bytes[i] == 0)
        },
        encodes_point(bytes) ==> has_compressed_form(bytes),
{
    if bytes.len() == 48 && bytes[0] >= 0xc0 {
        assert(identity_encoding()[0] == 0xc0);
        assert forall|i: int| 1 <= i < 48 implies identity_encoding()[i] == 0 by {}
        if bytes[0] == 0xc0 && forall|i: int| 1 <= i < 48 ==> bytes[i] == 0 {
            assert(bytes =~= identity_encoding());
        }
    }
}

/// The identity is what it should be: adding it changes nothing, and adding it
/// up any number of times gives it again.
pub proof fn law_infinity_is_the_identity(p: CurvePoint, count: nat)
    ensures
        point_sum(CurvePoint::Infinity, p) == p,
        point_sum(p, CurvePoint::Infinity) == p,
        point_multiple(count, CurvePoint::Infinity) is Infinity,
        point_multiple(1, p) == p,
    decreases count,
{
    reveal_with_fuel(point_multiple, 2);
    if count > 0 {
        law_infinity_is_the_identity(p, (count - 1) as nat);
    }
}

/// Points are added by chord and tangent: opposite points give the identity,
/// and any others the opposite of the third point of the curve on the line
/// through them, for a slope of that line. A multiple is added up one point at
/// a time.
pub proof fn law_chord_and_tangent(x1: nat, y1: nat, x2: nat, y2: nat, rise: int, run: int)
    requires
        rise == if x1 == x2 { (3 * x1 * x1) as int } else { y2 - y1 },
        run == if x1 == x2 { (2 * y1) as int } else { x2 - x1 },
        exists|slope: int| is_quotient(slope, rise, run),
    ensures
        ({
            let m = base_modulus() as int;
            let p = CurvePoint::Affine { x: x1, y: y1 };
            let q = CurvePoint::Affine { x: x2, y: y2 };
            if x1 == x2 && (y1 + y2) as int % m == 0 {
                point_sum(p, q) is Infinity
            } else {
                exists|slope: int|
                    {
                        &&& #[trigger] is_quotient(slope, rise, run)
                        &&& point_sum(p, q) matches CurvePoint::Affine { x, y }
                        &&& x == (slope * slope - x1 - x2) % m
                        &&& y == (slope * (x1 - x) - y1) % m
                    }
            }
        }),
        forall|count: nat, p: CurvePoint|
            #![trigger point_multiple(count, p)]
            point_multiple(count + 1, p) == point_sum(point_multiple(count, p), p),
{
    let slope = field_quotient(rise, run);
    assert(is_quotient(slope, rise, run));
    let m = base_modulus() as int;
    let x = (slope * slope - x1 - x2) % m;
    assert(0 <= x);
    assert(0 <= (slope * (x1 - x) - y1) % m);
}

/// A digest is taken over every byte of the data, in order and once: the whole
/// blocks in front go into the chain value one by one, each with the number of
/// bytes up to its end, and the tail, filled up with zero bytes, goes in last
/// with the length of all of the data. The digest is the front of what comes
/// out.
pub proof fn law_digest_takes_every_byte(front: Seq<u8>, tail: Seq<u8>, block: Seq<u8>)
    requires
        front.len() % 128 == 0,
        0 < tail.len() <= 128 || (tail.len() == 0 && front.len() == 0),
        block.len() == 128,
        forall|i: int| 0 <= i < tail.len() ==> block[i] == tail[i],
        forall|i: int| tail.len() <= i < 128 ==> block[i] == 0,
    ensures
        blake2b_256_digest(front + tail) == output_bytes(
            compress(chain_over(front), block, front.len() + tail.len(), true),
        ),
{
    lemma_hash_continues(front, tail);
    assert(padded_block(tail) =~= block);
}

/// The chain value over whole blocks starts from that of no input, which holds
/// the length of the output and no key, and takes the blocks one by one.
pub proof fn law_chain_takes_every_block(front: Seq<u8>, block: Seq<u8>)
    requires
        block.len() == 128,
    ensures
        chain_over(Seq::empty()) == initialization_vector().update(
            0,
            initialization_vector()[0] ^ 0x0101_0020u64,
        ),
        chain_over(front + block) == compress(
            chain_over(front),
            block,
            front.len() + 128,
            false,
        ),
{
    let both = front + block;
    assert(both.len() - BLOCK_BYTES == front.len());
    assert((front + block).take(front.len() as int) =~= front);
    assert((front + block).skip(front.len() as int) =~= block);
}

/// The compression function: twelve rounds over a work vector of the chain
/// value and the initialization vector, into which the count of bytes and the
/// mark of the last block are mixed, and what they leave folded into the chain
/// value.
pub proof fn law_compression(h: Seq<u64>, words: Seq<u64>, block: Seq<u8>, count: nat, last: bool)
    requires
        h.len() == 8,
        words.len() == 16,
        forall|i: int|
            0 <= i < 16 ==> #[trigger] words[i] == le_value(block.subrange(8 * i, 8 * i + 8)) as u64,
    ensures
        ({
            let iv = initialization_vector();
            let v = mix_rounds(
                h + seq![
                    iv[0],
                    iv[1],
                    iv[2],
                    iv[3],
                    iv[4] ^ low_word(count as int),
                    iv[5] ^ low_word(count as int / 0x1_0000_0000_0000_0000),
                    if last { iv[6] ^ 0xffff_ffff_ffff_ffffu64 } else { iv[6] },
                    iv[7],
                ],
                words,
                12,
            );
            compress(h, block, count, last) == Seq::new(8, |i: int| h[i] ^ v[i] ^ v[i + 8])
        }),
{
    reveal(compress);
    let iv = initialization_vector();
    let taken = Seq::new(16, |i: int| le_value(block.subrange(8 * i, 8 * i + 8)) as u64);
    assert(taken =~= words);
    assert((h + iv).update(12, iv[4] ^ low_word(count as int)).update(
        13,
        iv[5] ^ low_word(count as int / 0x1_0000_0000_0000_0000),
    ).update(14, if last { iv[6] ^ 0xffff_ffff_ffff_ffffu64 } else { iv[6] }) =~= h + seq![
        iv[0],
        iv[1],
        iv[2],
        iv[3],
        iv[4] ^ low_word(count as int),
        iv[5] ^ low_word(count as int / 0x1_0000_0000_0000_0000),
        if last { iv[6] ^ 0xffff_ffff_ffff_ffffu64 } else { iv[6] },
        iv[7],
    ]);
}

/// Every scalar fits in its encoding.
proof fn lemma_modulus_fits()
    ensures
        scalar_modulus() <= le_capacity(SCALAR_BYTES as nat),
{
    reveal_with_fuel(le_capacity, 33);
}

} // verus!
