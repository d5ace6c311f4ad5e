//! The hash function BLAKE2b, without a key and with 32 bytes of output.

use vstd::prelude::*;

use crate::encoding::{le_bytes, le_value, lemma_le_bytes_len};

verus! {

/// The number of bytes of a block of input.
pub const BLOCK_BYTES: usize = 128;

/// The initialization vector.
pub open spec fn initialization_vector() -> Seq<u64> {
    seq![
        0x6a09e667f3bcc908u64,
        0xbb67ae8584caa73bu64,
        0x3c6ef372fe94f82bu64,
        0xa54ff53a5f1d36f1u64,
        0x510e527fade682d1u64,
        0x9b05688c2b3e6c1fu64,
        0x1f83d9abfb41bd6bu64,
        0x5be0cd19137e2179u64,
    ]
}

/// The order in which round `round` takes the words of a block.
pub open spec fn message_schedule(round: nat) -> Seq<int> {
    if round % 10 == 0 {
        seq![0int, 1, 2, 3, 4, 5, 6, 7, 8, 9, 10, 11, 12, 13, 14, 15]
    } else if round % 10 == 1 {
        seq![14int, 10, 4, 8, 9, 15, 13, 6, 1, 12, 0, 2, 11, 7, 5, 3]
    } else if round % 10 == 2 {
        seq![11int, 8, 12, 0, 5, 2, 15, 13, 10, 14, 3, 6, 7, 1, 9, 4]
    } else if round % 10 == 3 {
        seq![7int, 9, 3, 1, 13, 12, 11, 14, 2, 6, 5, 10, 4, 0, 15, 8]
    } else if round % 10 == 4 {
        seq![9int, 0, 5, 7, 2, 4, 10, 15, 14, 1, 11, 12, 6, 8, 3, 13]
    } else if round % 10 == 5 {
        seq![2int, 12, 6, 10, 0, 11, 8, 3, 4, 13, 7, 5, 15, 14, 1, 9]
    } else if round % 10 == 6 {
        seq![12int, 5, 1, 15, 14, 13, 4, 10, 0, 7, 6, 3, 9, 2, 8, 11]
    } else if round % 10 == 7 {
        seq![13int, 11, 7, 14, 12, 1, 3, 9, 5, 0, 15, 4, 8, 6, 2, 10]
    } else if round % 10 == 8 {
        seq![6int, 15, 14, 9, 11, 3, 0, 8, 12, 2, 13, 7, 1, 4, 10, 5]
    } else {
        seq![10int, 2, 8, 4, 7, 6, 1, 5, 15, 11, 9, 14, 3, 12, 13, 0]
    }
}

/// The low word of a sum.
pub open spec fn low_word(value: int) -> u64 {
    (value % 0x1_0000_0000_0000_0000) as u64
}

/// `word`, rotated to the right by `count` bits, from 1 to 63.
pub open spec fn rotate_right(word: u64, count: u64) -> u64 {
    (word >> count) | (word << ((64 - count) as u64))
}

/// The mixing function G on words `a`, `b`, `c` and `d` of the work vector.
#[verifier::opaque]
pub open spec fn mix(v: Seq<u64>, a: int, b: int, c: int, d: int, x: u64, y: u64) -> Seq<u64> {
    let a1 = low_word(v[a] + v[b] + x);
    let d1 = rotate_right(v[d] ^ a1, 32);
    let c1 = low_word(v[c] + d1);
    let b1 = rotate_right(v[b] ^ c1, 24);
    let a2 = low_word(a1 + b1 + y);
    let d2 = rotate_right(d1 ^ a2, 16);
    let c2 = low_word(c1 + d2);
    let b2 = rotate_right(b1 ^ c2, 63);
    v.update(a, a2).update(b, b2).update(c, c2).update(d, d2)
}

/// One round: the columns of the work vector, then its diagonals.
#[verifier::opaque]
pub open spec fn mix_round(v: Seq<u64>, words: Seq<u64>, s: Seq<int>) -> Seq<u64> {
    let v1 = mix(v, 0, 4, 8, 12, words[s[0]], words[s[1]]);
    let v2 = mix(v1, 1, 5, 9, 13, words[s[2]], words[s[3]]);
    let v3 = mix(v2, 2, 6, 10, 14, words[s[4]], words[s[5]]);
    let v4 = mix(v3, 3, 7, 11, 15, words[s[6]], words[s[7]]);
    let v5 = mix(v4, 0, 5, 10, 15, words[s[8]], words[s[9]]);
    let v6 = mix(v5, 1, 6, 11, 12, words[s[10]], words[s[11]]);
    let v7 = mix(v6, 2, 7, 8, 13, words[s[12]], words[s[13]]);
    mix(v7, 3, 4, 9, 14, words[s[14]], words[s[15]])
}

/// The first `rounds` rounds.
pub open spec fn mix_rounds(v: Seq<u64>, words: Seq<u64>, rounds: nat) -> Seq<u64>
    decreases rounds,
{
    if rounds == 0 {
        v
    } else {
        let last = (rounds - 1) as nat;
        mix_round(mix_rounds(v, words, last), words, message_schedule(last))
    }
}

/// The compression function F: the chain value after `block`, where `count`
/// bytes of input have been taken, those of the block included.
#[verifier::opaque]
pub open spec fn compress(h: Seq<u64>, block: Seq<u8>, count: nat, last: bool) -> Seq<u64> {
    let iv = initialization_vector();
    let words = Seq::new(
        16,
        |i: int| le_value(block.subrange(8 * i, 8 * i + 8)) as u64,
    );
    let start = (h + iv).update(12, iv[4] ^ low_word(count as int)).update(
        13,
        iv[5] ^ low_word(count as int / 0x1_0000_0000_0000_0000),
    ).update(14, if last { iv[6] ^ 0xffff_ffff_ffff_ffffu64 } else { iv[6] });
    let v = mix_rounds(start, words, 12);
    Seq::new(8, |i: int| h[i] ^ v[i] ^ v[i + 8])
}

/// `data`, filled up to a block with zero bytes.
pub open spec fn padded_block(data: Seq<u8>) -> Seq<u8> {
    Seq::new(BLOCK_BYTES as nat, |i: int| if i < data.len() { data[i] } else { 0u8 })
}

/// The chain value before any input: no key, 32 bytes of output, fan-out and
/// depth of one.
pub open spec fn initial_chain() -> Seq<u64> {
    initialization_vector().update(0, initialization_vector()[0] ^ 0x0101_0020u64)
}

/// The last chain value, where `data` is what is left of the input and `count`
/// bytes have been taken before it.
pub open spec fn hash_from(h: Seq<u64>, data: Seq<u8>, count: nat) -> Seq<u64>
    decreases data.len(),
{
    let block = BLOCK_BYTES as nat;
    if data.len() <= block {
        compress(h, padded_block(data), count + data.len(), true)
    } else {
        hash_from(
            compress(h, data.take(block as int), count + block, false),
            data.skip(block as int),
            count + block,
        )
    }
}

/// The 32 bytes of output that a last chain value gives.
pub open spec fn output_bytes(h: Seq<u64>) -> Seq<u8> {
    le_bytes(h[0] as nat, 8) + le_bytes(h[1] as nat, 8) + le_bytes(h[2] as nat, 8) + le_bytes(
        h[3] as nat,
        8,
    )
}

/// There are 32 bytes of output.
pub proof fn lemma_output_len(h: Seq<u64>)
    ensures
        output_bytes(h).len() == 32,
{
    lemma_le_bytes_len(h[0] as nat, 8);
    lemma_le_bytes_len(h[1] as nat, 8);
    lemma_le_bytes_len(h[2] as nat, 8);
    lemma_le_bytes_len(h[3] as nat, 8);
}

/// The chain value after the whole blocks of `blocks`, none of them the last.
pub open spec fn chain_over(blocks: Seq<u8>) -> Seq<u64>
    decreases blocks.len(),
{
    if blocks.len() < BLOCK_BYTES {
        initial_chain()
    } else {
        let before = blocks.len() - BLOCK_BYTES;
        compress(chain_over(blocks.take(before)), blocks.skip(before), blocks.len(), false)
    }
}

/// Hashing goes on from the chain value of the blocks that were taken.
pub proof fn lemma_hash_continues(front: Seq<u8>, tail: Seq<u8>)
    requires
        front.len() % (BLOCK_BYTES as nat) == 0,
        tail.len() > 0 || front.len() == 0,
    ensures
        hash_from(initial_chain(), front + tail, 0) == hash_from(
            chain_over(front),
            tail,
            front.len(),
        ),
    decreases front.len(),
{
    if front.len() == 0 {
        assert(front + tail =~= tail);
    } else {
        let before = front.len() - BLOCK_BYTES;
        let block = front.skip(before);
        lemma_hash_continues(front.take(before), block + tail);
        assert(front.take(before) + (block + tail) =~= front + tail);
        assert((block + tail).take(BLOCK_BYTES as int) =~= block);
        assert((block + tail).skip(BLOCK_BYTES as int) =~= tail);
    }
}

} // verus!
