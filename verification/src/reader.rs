//! Taking encodings of a fixed length off the front of a buffer.

use vstd::prelude::*;
use vstd::slice::slice_subrange;

use crate::error::ReadError;

verus! {

/// Takes `N` bytes off the front of `buffer`. A buffer that is too short is
/// used up.
pub fn read_exact<const N: usize>(buffer: &mut &[u8]) -> (result: Result<[u8; N], ReadError>)
    ensures
        match result {
            Ok(bytes) => {
                &&& old(buffer)@.len() >= N
                &&& bytes@ == old(buffer)@.take(N as int)
                &&& final(buffer)@ == old(buffer)@.skip(N as int)
            },
            Err(error) => {
                &&& old(buffer)@.len() < N
                &&& error == ReadError::UnexpectedEof
                &&& final(buffer)@ == Seq::<u8>::empty()
            },
        },
{
    let all: &[u8] = *buffer;
    let len: usize = all.len();
    if len < N {
        *buffer = slice_subrange(all, len, len);
        return Err(ReadError::UnexpectedEof);
    }
    let mut bytes: [u8; N] = [0u8; N];
    let mut i: usize = 0;
    while i < N
        invariant
            i <= N <= all@.len(),
            bytes@.take(i as int) == all@.take(i as int),
        decreases N - i,
    {
        bytes[i] = all[i];
        i += 1;
    }
    assert(bytes@ =~= all@.take(N as int));
    *buffer = slice_subrange(all, N, len);
    Ok(bytes)
}

} // verus!
