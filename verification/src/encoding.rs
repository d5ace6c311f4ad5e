//! Natural numbers as little-endian byte strings.

use vstd::arithmetic::div_mod::{
    lemma_fundamental_div_mod, lemma_fundamental_div_mod_converse,
};
use vstd::prelude::*;

verus! {

/// The number that `bytes` stands for, least significant byte first.
pub open spec fn le_value(bytes: Seq<u8>) -> nat
    decreases bytes.len(),
{
    if bytes.len() == 0 {
        0
    } else {
        bytes.first() as nat + 256 * le_value(bytes.drop_first())
    }
}

/// The `len` low bytes of `value`, least significant byte first.
pub open spec fn le_bytes(value: nat, len: nat) -> Seq<u8>
    decreases len,
{
    if len == 0 {
        Seq::empty()
    } else {
        seq![(value % 256) as u8] + le_bytes(value / 256, (len - 1) as nat)
    }
}

/// The number of values that `len` bytes can hold.
pub open spec fn le_capacity(len: nat) -> nat
    decreases len,
{
    if len == 0 {
        1
    } else {
        256 * le_capacity((len - 1) as nat)
    }
}

/// `le_bytes` gives as many bytes as it is asked for.
pub proof fn lemma_le_bytes_len(value: nat, len: nat)
    ensures
        le_bytes(value, len).len() == len,
    decreases len,
{
    if len > 0 {
        lemma_le_bytes_len(value / 256, (len - 1) as nat);
    }
}

/// Decoding undoes encoding, for every number that the bytes can hold.
pub proof fn lemma_value_of_bytes(value: nat, len: nat)
    requires
        value < le_capacity(len),
    ensures
        le_value(le_bytes(value, len)) == value,
    decreases len,
{
    if len > 0 {
        let rest = le_bytes(value / 256, (len - 1) as nat);
        lemma_value_of_bytes(value / 256, (len - 1) as nat);
        assert(le_bytes(value, len).drop_first() =~= rest);
        lemma_fundamental_div_mod(value as int, 256);
    }
}

/// Encoding undoes decoding, for every byte string.
pub proof fn lemma_bytes_of_value(bytes: Seq<u8>)
    ensures
        le_bytes(le_value(bytes), bytes.len()) == bytes,
    decreases bytes.len(),
{
    if bytes.len() > 0 {
        let rest = bytes.drop_first();
        let value = le_value(bytes);
        lemma_bytes_of_value(rest);
        lemma_fundamental_div_mod_converse(
            value as int,
            256,
            le_value(rest) as int,
            bytes.first() as int,
        );
        assert(le_bytes(value, bytes.len()) =~= bytes);
    } else {
        assert(le_bytes(le_value(bytes), bytes.len()) =~= bytes);
    }
}

/// Zero bytes at the most significant end leave the value as it is.
pub proof fn lemma_value_of_zero_extended(bytes: Seq<u8>, zeros: Seq<u8>)
    requires
        forall|i: int| 0 <= i < zeros.len() ==> zeros[i] == 0,
    ensures
        le_value(bytes + zeros) == le_value(bytes),
    decreases bytes.len(), zeros.len(),
{
    if bytes.len() > 0 {
        lemma_value_of_zero_extended(bytes.drop_first(), zeros);
        assert((bytes + zeros).drop_first() =~= bytes.drop_first() + zeros);
    } else if zeros.len() > 0 {
        lemma_value_of_zero_extended(bytes, zeros.drop_first());
        assert((bytes + zeros).drop_first() =~= bytes + zeros.drop_first());
    }
}

/// Byte strings of one length that stand for the same number are the same.
pub proof fn lemma_value_tells_bytes_apart(a: Seq<u8>, b: Seq<u8>)
    requires
        a.len() == b.len(),
        le_value(a) == le_value(b),
    ensures
        a == b,
{
    lemma_bytes_of_value(a);
    lemma_bytes_of_value(b);
}

/// Whether two byte strings are the same.
pub fn same_bytes(a: &[u8], b: &[u8]) -> (same: bool)
    ensures
        same <==> a@ == b@,
{
    if a.len() != b.len() {
        return false;
    }
    let len: usize = a.len();
    let mut i: usize = 0;
    while i < len
        invariant
            i <= len == a@.len() == b@.len(),
            forall|j: int| 0 <= j < i ==> a@[j] == b@[j],
        decreases len - i,
    {
        if a[i] != b[i] {
            return false;
        }
        i += 1;
    }
    assert(a@ =~= b@);
    true
}

} // verus!
