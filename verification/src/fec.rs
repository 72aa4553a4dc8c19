//! Forward error correction interfaces, plus a Hamming(7,4) single-error-
//! correcting block code.
//!
//! The code is modelled by `codeword` (4 data bits to 7 coded bits) and
//! `decode_word` (7 received bits to 4 data bits); `hamming_encode` and
//! `hamming_decode` apply them block by block. The laws at the end of the file
//! are the reason the code exists: decoding undoes encoding, and still does so
//! when any one bit of each codeword has been flipped.

use vstd::prelude::*;

use crate::bits::{lemma_padded_shape, pad_to_multiple, padded};

verus! {

/// Encodes a bitstream by adding redundancy for error correction.
pub trait Encoder {
    /// Number of data bits consumed per codeword.
    fn data_bits(&self) -> usize;

    /// Number of coded bits produced per codeword.
    fn code_bits(&self) -> usize;

    /// Encode `bits` into codewords. If `bits.len()` is not a multiple of
    /// `data_bits`, the final block is padded with `false` bits. (A slice of
    /// one-byte `bool`s never holds more than `isize::MAX` elements.)
    fn encode(&self, bits: &[bool]) -> Vec<bool>
        requires
            bits@.len() <= isize::MAX,
    ;
}

/// Recovers data bits from (possibly corrupted) codewords.
pub trait Decoder {
    /// Decode `bits` (a multiple of the codeword length) back into data bits,
    /// correcting errors where the code's distance allows.
    fn decode(&self, bits: &[bool]) -> Vec<bool>;
}

/// Hamming(7,4): 4 data bits -> 7 coded bits, corrects any single-bit error
/// per codeword. Bit positions are 1-indexed per the classical construction
/// (`p1 p2 d1 p3 d2 d3 d4`), with parity covering positions `{1,3,5,7}`,
/// `{2,3,6,7}`, and `{4,5,6,7}` respectively.
#[derive(Debug, Clone, Copy, Default)]
pub struct Hamming74;

/// The codeword `p1 p2 d1 p3 d2 d3 d4` of four data bits.
pub open spec fn codeword(d1: bool, d2: bool, d3: bool, d4: bool) -> Seq<bool> {
    let p1 = d1 ^ d2 ^ d4;
    let p2 = d1 ^ d3 ^ d4;
    let p3 = d2 ^ d3 ^ d4;
    seq![p1, p2, d1, p3, d2, d3, d4]
}

/// The codeword of data block `j` (bits `4j .. 4j+4`) of `data`.
pub open spec fn block_codeword(data: Seq<bool>, j: int) -> Seq<bool> {
    codeword(data[4 * j], data[4 * j + 1], data[4 * j + 2], data[4 * j + 3])
}

/// The codewords of the first `k` data blocks of `data`, concatenated.
pub open spec fn encode_blocks(data: Seq<bool>, k: nat) -> Seq<bool>
    decreases k,
{
    if k == 0 {
        seq![]
    } else {
        encode_blocks(data, (k - 1) as nat) + block_codeword(data, k - 1)
    }
}

/// The Hamming(7,4) encoding of a bitstream: pad to whole blocks, then
/// concatenate the codewords of the blocks.
pub open spec fn hamming_encode(bits: Seq<bool>) -> Seq<bool> {
    encode_blocks(padded(bits, 4), padded(bits, 4).len() / 4)
}

/// The syndrome of a 7-bit word: 0 for a codeword, otherwise the 1-indexed
/// position of a single flipped bit.
pub open spec fn syndrome(c: Seq<bool>) -> int {
    let s1 = c[0] ^ c[2] ^ c[4] ^ c[6];
    let s2 = c[1] ^ c[2] ^ c[5] ^ c[6];
    let s3 = c[3] ^ c[4] ^ c[5] ^ c[6];
    (if s1 { 1int } else { 0int }) + (if s2 { 2int } else { 0int }) + (if s3 { 4int } else { 0int })
}

/// The word with the bit its syndrome points at flipped back.
pub open spec fn corrected(c: Seq<bool>) -> Seq<bool> {
    let s = syndrome(c);
    if s == 0 {
        c
    } else {
        c.update(s - 1, !c[s - 1])
    }
}

/// The four data bits recovered from a 7-bit received word.
#[verifier::opaque]
pub open spec fn decode_word(c: Seq<bool>) -> Seq<bool> {
    let w = corrected(c);
    seq![w[2], w[4], w[5], w[6]]
}

/// The data bits of the first `k` whole 7-bit words of `code`.
pub open spec fn decode_blocks(code: Seq<bool>, k: nat) -> Seq<bool>
    decreases k,
{
    if k == 0 {
        seq![]
    } else {
        decode_blocks(code, (k - 1) as nat) + decode_word(code.subrange(7 * (k - 1), 7 * (k as int)))
    }
}

/// The Hamming(7,4) decoding of a received stream: every whole 7-bit word is
/// corrected and decoded; a trailing partial word is ignored.
pub open spec fn hamming_decode(code: Seq<bool>) -> Seq<bool> {
    decode_blocks(code, code.len() / 7)
}

proof fn lemma_encode_blocks_len(data: Seq<bool>, k: nat)
    ensures
        encode_blocks(data, k).len() == 7 * k,
    decreases k,
{
    if k > 0 {
        lemma_encode_blocks_len(data, (k - 1) as nat);
    }
}

proof fn lemma_decode_blocks_len(code: Seq<bool>, k: nat)
    ensures
        decode_blocks(code, k).len() == 4 * k,
    decreases k,
{
    reveal(decode_word);
    if k > 0 {
        lemma_decode_blocks_len(code, (k - 1) as nat);
    }
}

/// Law: the length of an encoding is 7 bits for every started 4-bit block.
pub proof fn lemma_encode_len(bits: Seq<bool>)
    ensures
        hamming_encode(bits).len() == 7 * (padded(bits, 4).len() / 4),
        padded(bits, 4).len() % 4 == 0,
{
    lemma_padded_shape(bits, 4);
    lemma_encode_blocks_len(padded(bits, 4), padded(bits, 4).len() / 4);
}

/// Law: decoding yields 4 data bits for every whole 7-bit word received.
pub proof fn lemma_decode_len(code: Seq<bool>)
    ensures
        hamming_decode(code).len() == 4 * (code.len() / 7),
{
    lemma_decode_blocks_len(code, code.len() / 7);
}

/// Law: a codeword with no errors decodes to its data bits.
pub proof fn lemma_decode_codeword(d1: bool, d2: bool, d3: bool, d4: bool)
    ensures
        decode_word(codeword(d1, d2, d3, d4)) == seq![d1, d2, d3, d4],
{
    reveal(decode_word);
    let c = codeword(d1, d2, d3, d4);
    assert(syndrome(c) == 0);
    assert(decode_word(c) =~= seq![d1, d2, d3, d4]);
}

/// Law: a codeword with any one bit flipped still decodes to its data bits.
pub proof fn lemma_decode_single_flip(d1: bool, d2: bool, d3: bool, d4: bool, i: int)
    requires
        0 <= i < 7,
    ensures
        decode_word(codeword(d1, d2, d3, d4).update(i, !codeword(d1, d2, d3, d4)[i])) == seq![
            d1,
            d2,
            d3,
            d4,
        ],
{
    reveal(decode_word);
    let c = codeword(d1, d2, d3, d4);
    let e = c.update(i, !c[i]);
    assert(syndrome(e) == i + 1);
    assert(corrected(e) =~= c);
    assert(decode_word(e) =~= seq![d1, d2, d3, d4]);
}

/// Whether `e` differs from `c` in at most one position.
pub open spec fn at_most_one_flip(c: Seq<bool>, e: Seq<bool>) -> bool {
    &&& e.len() == c.len()
    &&& forall|i: int, j: int|
        0 <= i < j < c.len() ==> !(#[trigger] e[i] != c[i] && #[trigger] e[j] != c[j])
}

/// Law: any 7-bit word within one bit flip of a codeword decodes to that
/// codeword's data bits.
pub proof fn lemma_decode_near_codeword(d1: bool, d2: bool, d3: bool, d4: bool, e: Seq<bool>)
    requires
        at_most_one_flip(codeword(d1, d2, d3, d4), e),
    ensures
        decode_word(e) == seq![d1, d2, d3, d4],
{
    let c = codeword(d1, d2, d3, d4);
    if e =~= c {
        lemma_decode_codeword(d1, d2, d3, d4);
    } else {
        let i = choose|i: int| 0 <= i < 7 && e[i] != c[i];
        assert forall|j: int| 0 <= j < 7 && j != i implies e[j] == c[j] by {
            if j < i {
                assert(!(e[j] != c[j] && e[i] != c[i]));
            } else {
                assert(!(e[i] != c[i] && e[j] != c[j]));
            }
        }
        assert(e =~= c.update(i, !c[i]));
        lemma_decode_single_flip(d1, d2, d3, d4, i);
    }
}

proof fn lemma_encode_blocks_block(data: Seq<bool>, k: nat, j: int)
    requires
        0 <= j < k,
    ensures
        encode_blocks(data, k).subrange(7 * j, 7 * j + 7) == block_codeword(data, j),
    decreases k,
{
    lemma_encode_blocks_len(data, (k - 1) as nat);
    let prev = encode_blocks(data, (k - 1) as nat);
    let cur = encode_blocks(data, k);
    if j == k - 1 {
        assert(cur.subrange(7 * j, 7 * j + 7) =~= block_codeword(data, j));
    } else {
        lemma_encode_blocks_block(data, (k - 1) as nat, j);
        lemma_encode_blocks_len(data, k);
        assert(cur.subrange(7 * j, 7 * j + 7) =~= prev.subrange(7 * j, 7 * j + 7));
    }
}

/// Whether `received` differs from `sent` (of the same length) in at most one
/// position inside each 7-bit codeword.
pub open spec fn at_most_one_flip_per_word(sent: Seq<bool>, received: Seq<bool>) -> bool {
    &&& received.len() == sent.len()
    &&& forall|j: int|
        0 <= j < sent.len() / 7 ==> at_most_one_flip(
            #[trigger] sent.subrange(7 * j, 7 * j + 7),
            received.subrange(7 * j, 7 * j + 7),
        )
}

proof fn lemma_flip_per_word_at(sent: Seq<bool>, received: Seq<bool>, j: int)
    requires
        0 <= j < sent.len() / 7,
        at_most_one_flip_per_word(sent, received),
    ensures
        at_most_one_flip(sent.subrange(7 * j, 7 * j + 7), received.subrange(7 * j, 7 * j + 7)),
{
}

proof fn lemma_decode_near_block(data: Seq<bool>, j: int, e: Seq<bool>)
    requires
        0 <= j,
        4 * j + 4 <= data.len(),
        at_most_one_flip(block_codeword(data, j), e),
    ensures
        decode_word(e) == data.subrange(4 * j, 4 * j + 4),
{
    lemma_decode_near_codeword(data[4 * j], data[4 * j + 1], data[4 * j + 2], data[4 * j + 3], e);
    assert(data.subrange(4 * j, 4 * j + 4) =~= seq![
        data[4 * j],
        data[4 * j + 1],
        data[4 * j + 2],
        data[4 * j + 3],
    ]);
}

proof fn lemma_word_of_encoding(data: Seq<bool>, received: Seq<bool>, m: nat, j: int)
    requires
        0 <= j < m,
        4 * m <= data.len(),
        at_most_one_flip_per_word(encode_blocks(data, m), received),
    ensures
        decode_word(received.subrange(7 * j, 7 * j + 7)) == data.subrange(4 * j, 4 * j + 4),
{
    let sent = encode_blocks(data, m);
    lemma_encode_blocks_len(data, m);
    lemma_encode_blocks_block(data, m, j);
    assert(sent.len() / 7 == m) by (nonlinear_arith)
        requires
            sent.len() == 7 * m,
    ;
    lemma_flip_per_word_at(sent, received, j);
    lemma_decode_near_block(data, j, received.subrange(7 * j, 7 * j + 7));
}

proof fn lemma_decode_blocks_prefix(data: Seq<bool>, received: Seq<bool>, k: nat, m: nat)
    requires
        k <= m,
        4 * m <= data.len(),
        at_most_one_flip_per_word(encode_blocks(data, m), received),
    ensures
        decode_blocks(received, k) == data.take(4 * (k as int)),
    decreases k,
{
    if k > 0 {
        lemma_decode_blocks_prefix(data, received, (k - 1) as nat, m);
        let j = k - 1;
        lemma_word_of_encoding(data, received, m, j);
        let prev = decode_blocks(received, (k - 1) as nat);
        assert(prev == data.take(4 * j));
        assert(decode_blocks(received, k) == prev + decode_word(
            received.subrange(7 * j, 7 * j + 7),
        ));
        assert(data.take(4 * (k as int)) =~= data.take(4 * j) + data.subrange(4 * j, 4 * j + 4));
    } else {
        assert(data.take(0) =~= seq![]);
    }
}

/// Law (single-error correction): if the received stream differs from the
/// encoding of `bits` in at most one bit per codeword, decoding recovers the
/// padded data bits exactly.
pub proof fn lemma_corrects_single_errors(bits: Seq<bool>, received: Seq<bool>)
    requires
        at_most_one_flip_per_word(hamming_encode(bits), received),
    ensures
        hamming_decode(received) == padded(bits, 4),
        hamming_decode(received).take(bits.len() as int) == bits,
{
    let data = padded(bits, 4);
    let m = data.len() / 4;
    lemma_encode_len(bits);
    assert(received.len() / 7 == m) by (nonlinear_arith)
        requires
            received.len() == 7 * m,
    ;
    assert(4 * m == data.len()) by (nonlinear_arith)
        requires
            data.len() % 4 == 0,
            m == data.len() / 4,
    ;
    lemma_decode_blocks_prefix(data, received, m, m);
    assert(data.take(4 * (m as int)) =~= data);
    lemma_padded_shape(bits, 4);
}

/// Law (round trip): decoding an error-free encoding gives back the data bits,
/// followed only by the `false` padding of the last block.
pub proof fn lemma_round_trip(bits: Seq<bool>)
    ensures
        hamming_decode(hamming_encode(bits)) == padded(bits, 4),
        hamming_decode(hamming_encode(bits)).take(bits.len() as int) == bits,
{
    let c = hamming_encode(bits);
    assert forall|j: int| 0 <= j < c.len() / 7 implies at_most_one_flip(
        #[trigger] c.subrange(7 * j, 7 * j + 7),
        c.subrange(7 * j, 7 * j + 7),
    ) by {}
    lemma_corrects_single_errors(bits, c);
}

/// Law (code layout): for every started 4-bit block `j` of `bits` (bits past
/// the end read as `false`), the seven coded bits of block `j` are
/// `d1^d2^d4, d1^d3^d4, d1, d2^d3^d4, d2, d3, d4`, in that order: data bits
/// sit at 1-indexed positions 3, 5, 6 and 7 and the parity bits at 1, 2, 4.
/// The encoding holds 7 bits for each started block.
pub proof fn lemma_encode_layout(bits: Seq<bool>, j: int)
    requires
        0 <= j,
        4 * j < bits.len(),
    ensures
        hamming_encode(bits).len() == 7 * ((bits.len() + 3) / 4),
        ({
            let d1 = bits[4 * j];
            let d2 = if 4 * j + 1 < bits.len() { bits[4 * j + 1] } else { false };
            let d3 = if 4 * j + 2 < bits.len() { bits[4 * j + 2] } else { false };
            let d4 = if 4 * j + 3 < bits.len() { bits[4 * j + 3] } else { false };
            let c = hamming_encode(bits);
            &&& c[7 * j] == (d1 ^ d2 ^ d4)
            &&& c[7 * j + 1] == (d1 ^ d3 ^ d4)
            &&& c[7 * j + 2] == d1
            &&& c[7 * j + 3] == (d2 ^ d3 ^ d4)
            &&& c[7 * j + 4] == d2
            &&& c[7 * j + 5] == d3
            &&& c[7 * j + 6] == d4
        }),
{
    let data = padded(bits, 4);
    let m = data.len() / 4;
    lemma_padded_shape(bits, 4);
    lemma_encode_len(bits);
    assert(4 * m == data.len() && m == (bits.len() + 3) / 4) by (nonlinear_arith)
        requires
            data.len() % 4 == 0,
            m == data.len() / 4,
            bits.len() <= data.len() < bits.len() + 4,
    ;
    assert(j < m);
    lemma_encode_blocks_block(data, m, j);
    let c = hamming_encode(bits);
    let w = c.subrange(7 * j, 7 * j + 7);
    assert forall|t: int| 0 <= t < 4 implies #[trigger] data[4 * j + t] == (if 4 * j + t
        < bits.len() {
        bits[4 * j + t]
    } else {
        false
    }) by {
        if 4 * j + t < bits.len() {
            assert(data.take(bits.len() as int)[4 * j + t] == data[4 * j + t]);
        }
    }
    assert(c[7 * j] == w[0]);
    assert(c[7 * j + 1] == w[1]);
    assert(c[7 * j + 2] == w[2]);
    assert(c[7 * j + 3] == w[3]);
    assert(c[7 * j + 4] == w[4]);
    assert(c[7 * j + 5] == w[5]);
    assert(c[7 * j + 6] == w[6]);
    assert(data[4 * j + 0] == data[4 * j]);
}

proof fn lemma_decode_blocks_block(code: Seq<bool>, k: nat, j: int)
    requires
        0 <= j < k,
    ensures
        decode_blocks(code, k).subrange(4 * j, 4 * j + 4) == decode_word(
            code.subrange(7 * j, 7 * j + 7),
        ),
    decreases k,
{
    reveal(decode_word);
    lemma_decode_blocks_len(code, (k - 1) as nat);
    lemma_decode_blocks_len(code, k);
    let prev = decode_blocks(code, (k - 1) as nat);
    let cur = decode_blocks(code, k);
    if j == k - 1 {
        assert(cur.subrange(4 * j, 4 * j + 4) =~= decode_word(code.subrange(7 * j, 7 * j + 7)));
    } else {
        lemma_decode_blocks_block(code, (k - 1) as nat, j);
        assert(cur.subrange(4 * j, 4 * j + 4) =~= prev.subrange(4 * j, 4 * j + 4));
    }
}

/// Law (decoding layout): wherever whole word `j` of a received stream is
/// within one bit flip of `d1^d2^d4, d1^d3^d4, d1, d2^d3^d4, d2, d3, d4`,
/// data bits `4j .. 4j+4` of the decoding are `d1, d2, d3, d4`.
pub proof fn lemma_decode_layout(
    code: Seq<bool>,
    j: int,
    d1: bool,
    d2: bool,
    d3: bool,
    d4: bool,
)
    requires
        0 <= j,
        7 * j + 7 <= code.len(),
        at_most_one_flip(
            seq![d1 ^ d2 ^ d4, d1 ^ d3 ^ d4, d1, d2 ^ d3 ^ d4, d2, d3, d4],
            code.subrange(7 * j, 7 * j + 7),
        ),
    ensures
        hamming_decode(code).len() == 4 * (code.len() / 7),
        hamming_decode(code).subrange(4 * j, 4 * j + 4) == seq![d1, d2, d3, d4],
{
    lemma_decode_len(code);
    assert(j < code.len() / 7) by (nonlinear_arith)
        requires
            0 <= j,
            7 * j + 7 <= code.len(),
    ;
    lemma_decode_blocks_block(code, code.len() / 7, j);
    assert(codeword(d1, d2, d3, d4) =~= seq![d1 ^ d2 ^ d4, d1 ^ d3 ^ d4, d1, d2 ^ d3 ^ d4, d2, d3, d4]);
    lemma_decode_near_codeword(d1, d2, d3, d4, code.subrange(7 * j, 7 * j + 7));
}

impl Encoder for Hamming74 {
    fn data_bits(&self) -> (n: usize)
        ensures
            n == 4,
    {
        4
    }

    fn code_bits(&self) -> (n: usize)
        ensures
            n == 7,
    {
        7
    }

    fn encode(&self, bits: &[bool]) -> (out: Vec<bool>)
        ensures
            out@ == hamming_encode(bits@),
    {
        let padded_bits = pad_to_multiple(bits, 4);
        proof {
            lemma_padded_shape(bits@, 4);
        }
        let blocks: usize = padded_bits.len() / 4;
        proof {
            vstd::arithmetic::div_mod::lemma_fundamental_div_mod(padded_bits@.len() as int, 4);
        }
        let mut out: Vec<bool> = Vec::new();
        let mut k: usize = 0;
        while k < blocks
            invariant
                k <= blocks,
                blocks == padded_bits@.len() / 4,
                4 * blocks == padded_bits@.len(),
                padded_bits@.len() <= usize::MAX,
                padded_bits@ == padded(bits@, 4),
                out@ == encode_blocks(padded_bits@, k as nat),
            decreases blocks - k,
        {
            let d1 = padded_bits[4 * k];
            let d2 = padded_bits[4 * k + 1];
            let d3 = padded_bits[4 * k + 2];
            let d4 = padded_bits[4 * k + 3];
            let p1 = d1 ^ d2 ^ d4;
            let p2 = d1 ^ d3 ^ d4;
            let p3 = d2 ^ d3 ^ d4;
            out.push(p1);
            out.push(p2);
            out.push(d1);
            out.push(p3);
            out.push(d2);
            out.push(d3);
            out.push(d4);
            k = k + 1;
            assert(out@ =~= encode_blocks(padded_bits@, k as nat));
        }
        out
    }
}

proof fn lemma_decode_blocks_push(code: Seq<bool>, k: nat, prev: Seq<bool>, w: Seq<bool>)
    requires
        prev == decode_blocks(code, k),
        w == decode_word(code.subrange(7 * (k as int), 7 * (k as int) + 7)),
    ensures
        prev + w == decode_blocks(code, k + 1),
{
}

/// Correct and decode the 7-bit word starting at `base`.
fn decode_word_at(bits: &[bool], base: usize) -> (r: (bool, bool, bool, bool))
    requires
        base + 7 <= bits@.len(),
    ensures
        seq![r.0, r.1, r.2, r.3] == decode_word(bits@.subrange(base as int, base + 7)),
{
    // 1-indexed working copy: pos[0] is unused padding.
    let mut pos: [bool; 8] = [
        false,
        bits[base],
        bits[base + 1],
        bits[base + 2],
        bits[base + 3],
        bits[base + 4],
        bits[base + 5],
        bits[base + 6],
    ];
    let ghost c = bits@.subrange(base as int, base + 7);
    assert(pos@.skip(1) =~= c);
    let s1 = pos[1] ^ pos[3] ^ pos[5] ^ pos[7];
    let s2 = pos[2] ^ pos[3] ^ pos[6] ^ pos[7];
    let s3 = pos[4] ^ pos[5] ^ pos[6] ^ pos[7];
    let syn: usize = (if s1 {
        1
    } else {
        0
    }) + (if s2 {
        2
    } else {
        0
    }) + (if s3 {
        4
    } else {
        0
    });
    assert(syn == syndrome(c));
    if syn != 0 {
        let flipped = !pos[syn];
        pos.set(syn, flipped);
    }
    assert(pos@.skip(1) =~= corrected(c));
    proof {
        reveal(decode_word);
    }
    (pos[3], pos[5], pos[6], pos[7])
}

impl Decoder for Hamming74 {
    #[verifier::spinoff_prover]
    fn decode(&self, bits: &[bool]) -> (out: Vec<bool>)
        ensures
            out@ == hamming_decode(bits@),
    {
        let words: usize = bits.len() / 7;
        proof {
            vstd::arithmetic::div_mod::lemma_fundamental_div_mod(bits@.len() as int, 7);
        }
        let mut out: Vec<bool> = Vec::new();
        let mut k: usize = 0;
        while k < words
            invariant
                k <= words,
                words == bits@.len() / 7,
                7 * words <= bits@.len(),
                bits@.len() <= usize::MAX,
                out@ == decode_blocks(bits@, k as nat),
            decreases words - k,
        {
            let (a, b, c, d) = decode_word_at(bits, 7 * k);
            let ghost prev = out@;
            let ghost w = seq![a, b, c, d];
            out.push(a);
            out.push(b);
            out.push(c);
            out.push(d);
            proof {
                assert(out@ =~= prev + w);
                lemma_decode_blocks_push(bits@, k as nat, prev, w);
            }
            k = k + 1;
        }
        out
    }
}

} // verus!
