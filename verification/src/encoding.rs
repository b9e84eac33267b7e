//! Little-endian encodings of unbounded naturals as bytes and as 32-bit
//! words, and the conversions between the two that the executor borrows from
//! `sp1_primitives`.
use vstd::arithmetic::power2::*;
use sp1_primitives::consts::{bytes_to_words_le, words_to_bytes_le_vec, WORD_SIZE};
use vstd::prelude::*;

verus! {

/// The natural number that a little-endian byte string denotes.
pub open spec fn bytes_value(b: Seq<u8>) -> nat
    decreases b.len(),
{
    if b.len() == 0 {
        0
    } else {
        b[0] as nat + 256 * bytes_value(b.skip(1))
    }
}

/// The natural number that a little-endian sequence of 32-bit words denotes.
pub open spec fn words_value(w: Seq<u32>) -> nat
    decreases w.len(),
{
    if w.len() == 0 {
        0
    } else {
        w[0] as nat + 0x1_0000_0000 * words_value(w.skip(1))
    }
}

/// The word whose little-endian bytes are `b0`, `b1`, `b2`, `b3`.
pub open spec fn word_from_le_bytes(b0: u8, b1: u8, b2: u8, b3: u8) -> u32 {
    (b0 as u32) | ((b1 as u32) << 8u32) | ((b2 as u32) << 16u32) | ((b3 as u32) << 24u32)
}

/// Byte `k` (0 being the least significant) of the word `w`.
pub open spec fn word_byte(w: u32, k: int) -> u8 {
    ((w >> ((8 * k) as u32)) & 0xffu32) as u8
}

/// The words laid out as little-endian bytes, four per word.
pub open spec fn le_bytes_of_words(ws: Seq<u32>) -> Seq<u8> {
    Seq::new(4 * ws.len(), |i: int| word_byte(ws[i / 4], i % 4))
}

/// The bytes read as little-endian words, four bytes per word.
pub open spec fn words_of_le_bytes(bs: Seq<u8>) -> Seq<u32> {
    Seq::new(
        bs.len() / 4,
        |i: int| word_from_le_bytes(bs[4 * i], bs[4 * i + 1], bs[4 * i + 2], bs[4 * i + 3]),
    )
}

proof fn lemma_word_bytes_roundtrip(w: u32)
    ensures
        word_from_le_bytes(word_byte(w, 0), word_byte(w, 1), word_byte(w, 2), word_byte(w, 3))
            == w,
        w as nat == word_byte(w, 0) as nat + 256 * (word_byte(w, 1) as nat) + 65536 * (word_byte(
            w,
            2,
        ) as nat) + 16777216 * (word_byte(w, 3) as nat),
{
    let b0 = word_byte(w, 0);
    let b1 = word_byte(w, 1);
    let b2 = word_byte(w, 2);
    let b3 = word_byte(w, 3);
    assert(b0 == ((w >> 0u32) & 0xffu32) as u8);
    assert(b1 == ((w >> 8u32) & 0xffu32) as u8);
    assert(b2 == ((w >> 16u32) & 0xffu32) as u8);
    assert(b3 == ((w >> 24u32) & 0xffu32) as u8);
    assert(((((w >> 0u32) & 0xffu32) as u8) as u32) | (((((w >> 8u32) & 0xffu32) as u8) as u32)
        << 8u32) | (((((w >> 16u32) & 0xffu32) as u8) as u32) << 16u32) | (((((w >> 24u32)
        & 0xffu32) as u8) as u32) << 24u32) == w) by (bit_vector);
    assert(w == (((w >> 0u32) & 0xffu32) as u8) + 256 * (((w >> 8u32) & 0xffu32) as u8) + 65536
        * (((w >> 16u32) & 0xffu32) as u8) + 16777216 * (((w >> 24u32) & 0xffu32) as u8))
        by (bit_vector);
}

proof fn lemma_bytes_word_roundtrip(b0: u8, b1: u8, b2: u8, b3: u8)
    ensures
        word_byte(word_from_le_bytes(b0, b1, b2, b3), 0) == b0,
        word_byte(word_from_le_bytes(b0, b1, b2, b3), 1) == b1,
        word_byte(word_from_le_bytes(b0, b1, b2, b3), 2) == b2,
        word_byte(word_from_le_bytes(b0, b1, b2, b3), 3) == b3,
{
    let w = word_from_le_bytes(b0, b1, b2, b3);
    assert(w == (b0 as u32) | ((b1 as u32) << 8u32) | ((b2 as u32) << 16u32) | ((b3 as u32)
        << 24u32));
    assert(((((b0 as u32) | ((b1 as u32) << 8u32) | ((b2 as u32) << 16u32) | ((b3 as u32)
        << 24u32)) >> 0u32) & 0xffu32) as u8 == b0) by (bit_vector);
    assert(((((b0 as u32) | ((b1 as u32) << 8u32) | ((b2 as u32) << 16u32) | ((b3 as u32)
        << 24u32)) >> 8u32) & 0xffu32) as u8 == b1) by (bit_vector);
    assert(((((b0 as u32) | ((b1 as u32) << 8u32) | ((b2 as u32) << 16u32) | ((b3 as u32)
        << 24u32)) >> 16u32) & 0xffu32) as u8 == b2) by (bit_vector);
    assert(((((b0 as u32) | ((b1 as u32) << 8u32) | ((b2 as u32) << 16u32) | ((b3 as u32)
        << 24u32)) >> 24u32) & 0xffu32) as u8 == b3) by (bit_vector);
}


/// One step of `bytes_value` taken at an offset into the string.
proof fn lemma_bytes_value_step(b: Seq<u8>, k: int)
    requires
        0 <= k < b.len(),
    ensures
        bytes_value(b.skip(k)) == b[k] as nat + 256 * bytes_value(b.skip(k + 1)),
{
    assert(b.skip(k).skip(1) =~= b.skip(k + 1));
}

/// Four steps of `bytes_value`: the first word's worth of bytes, then the rest.
proof fn lemma_bytes_value_skip4(b: Seq<u8>)
    requires
        b.len() >= 4,
    ensures
        bytes_value(b) == b[0] as nat + 256 * (b[1] as nat) + 65536 * (b[2] as nat) + 16777216
            * (b[3] as nat) + 0x1_0000_0000 * bytes_value(b.skip(4)),
{
    assert(b.skip(0) =~= b);
    lemma_bytes_value_step(b, 0);
    lemma_bytes_value_step(b, 1);
    lemma_bytes_value_step(b, 2);
    lemma_bytes_value_step(b, 3);
}

/// Reading the little-endian bytes of words back as words gives the words.
pub proof fn lemma_words_bytes_roundtrip(ws: Seq<u32>)
    ensures
        words_of_le_bytes(le_bytes_of_words(ws)) == ws,
{
    let bs = le_bytes_of_words(ws);
    assert forall|i: int| 0 <= i < ws.len() implies #[trigger] words_of_le_bytes(bs)[i]
        == ws[i] by {
        assert((4 * i) / 4 == i && (4 * i) % 4 == 0);
        assert((4 * i + 1) / 4 == i && (4 * i + 1) % 4 == 1);
        assert((4 * i + 2) / 4 == i && (4 * i + 2) % 4 == 2);
        assert((4 * i + 3) / 4 == i && (4 * i + 3) % 4 == 3);
        lemma_word_bytes_roundtrip(ws[i]);
    }
    assert(words_of_le_bytes(bs) =~= ws);
}

/// Laying the words read from a byte string back out as bytes gives the
/// string, when its length is a whole number of words.
pub proof fn lemma_bytes_words_roundtrip(bs: Seq<u8>)
    requires
        bs.len() % 4 == 0,
    ensures
        le_bytes_of_words(words_of_le_bytes(bs)) == bs,
{
    let ws = words_of_le_bytes(bs);
    assert forall|j: int| 0 <= j < bs.len() implies #[trigger] le_bytes_of_words(ws)[j]
        == bs[j] by {
        let i = j / 4;
        let k = j % 4;
        assert(j == 4 * i + k && 0 <= k < 4);
        lemma_bytes_word_roundtrip(bs[4 * i], bs[4 * i + 1], bs[4 * i + 2], bs[4 * i + 3]);
    }
    assert(le_bytes_of_words(ws) =~= bs);
}

/// Laying words out as little-endian bytes keeps the number they denote.
pub proof fn lemma_le_bytes_of_words_value(ws: Seq<u32>)
    ensures
        bytes_value(le_bytes_of_words(ws)) == words_value(ws),
    decreases ws.len(),
{
    let bs = le_bytes_of_words(ws);
    if ws.len() == 0 {
        assert(bs.len() == 0);
    } else {
        lemma_le_bytes_of_words_value(ws.skip(1));
        assert(bs.skip(4) =~= le_bytes_of_words(ws.skip(1))) by {
            assert forall|j: int| 0 <= j < bs.len() - 4 implies #[trigger] bs.skip(4)[j]
                == le_bytes_of_words(ws.skip(1))[j] by {
                assert((j + 4) / 4 == j / 4 + 1 && (j + 4) % 4 == j % 4);
            }
        }
        lemma_bytes_value_skip4(bs);
        assert(bs[0] == word_byte(ws[0], 0));
        assert(bs[1] == word_byte(ws[0], 1));
        assert(bs[2] == word_byte(ws[0], 2));
        assert(bs[3] == word_byte(ws[0], 3));
        lemma_word_bytes_roundtrip(ws[0]);
    }
}

/// Reading little-endian bytes as words keeps the number they denote.
pub proof fn lemma_words_of_le_bytes_value(bs: Seq<u8>)
    requires
        bs.len() % 4 == 0,
    ensures
        words_value(words_of_le_bytes(bs)) == bytes_value(bs),
{
    lemma_bytes_words_roundtrip(bs);
    lemma_le_bytes_of_words_value(words_of_le_bytes(bs));
}


/// Word sequences of one length that denote the same number are the same:
/// a fixed number of words pins the words down by their value.
pub proof fn lemma_words_value_injective(a: Seq<u32>, b: Seq<u32>)
    requires
        a.len() == b.len(),
        words_value(a) == words_value(b),
    ensures
        a == b,
    decreases a.len(),
{
    if a.len() > 0 {
        let d: int = 0x1_0000_0000;
        let qa = words_value(a.skip(1)) as int;
        let qb = words_value(b.skip(1)) as int;
        assert(d * qa == qa * d && d * qb == qb * d) by (nonlinear_arith);
        vstd::arithmetic::div_mod::lemma_fundamental_div_mod_converse(
            words_value(a) as int,
            d,
            qa,
            a[0] as int,
        );
        vstd::arithmetic::div_mod::lemma_fundamental_div_mod_converse(
            words_value(b) as int,
            d,
            qb,
            b[0] as int,
        );
        lemma_words_value_injective(a.skip(1), b.skip(1));
        assert forall|i: int| 0 <= i < a.len() implies a[i] == b[i] by {
            if i > 0 {
                assert(a.skip(1)[i - 1] == b.skip(1)[i - 1]);
            }
        }
        assert(a =~= b);
    } else {
        assert(a =~= b);
    }
}

/// A string of zero bytes denotes zero.
proof fn lemma_zero_bytes_value(b: Seq<u8>)
    requires
        forall|i: int| 0 <= i < b.len() ==> b[i] == 0,
    ensures
        bytes_value(b) == 0,
    decreases b.len(),
{
    if b.len() > 0 {
        lemma_zero_bytes_value(b.skip(1));
    }
}

/// A byte string splits at any offset `k` into its low part and its high part
/// scaled by `2^(8k)`.
pub proof fn lemma_bytes_value_split(b: Seq<u8>, k: int)
    requires
        0 <= k <= b.len(),
    ensures
        bytes_value(b) == bytes_value(b.take(k)) + pow2((8 * k) as nat) * bytes_value(b.skip(k)),
    decreases k,
{
    if k == 0 {
        assert(b.take(0) =~= Seq::<u8>::empty());
        assert(b.skip(0) =~= b);
        lemma2_to64();
    } else {
        let t = b.skip(1);
        lemma_bytes_value_split(t, k - 1);
        assert(b.take(k).skip(1) =~= t.take(k - 1));
        assert(t.skip(k - 1) =~= b.skip(k));
        assert(b.take(k)[0] == b[0]);
        let p = pow2((8 * (k - 1)) as nat);
        let h = bytes_value(b.skip(k));
        assert(pow2((8 * k) as nat) == 256 * p) by {
            lemma_pow2_adds(8, (8 * (k - 1)) as nat);
            lemma2_to64();
        }
        assert(256 * (p * h) == (256 * p) * h) by {
            vstd::arithmetic::mul::lemma_mul_is_associative(256, p as int, h as int);
        }
    }
}

/// A byte string of length `n` denotes a number below `2^(8n)`.
pub proof fn lemma_bytes_value_bound(b: Seq<u8>)
    ensures
        bytes_value(b) < pow2((8 * b.len()) as nat),
    decreases b.len(),
{
    lemma2_to64();
    if b.len() > 0 {
        lemma_bytes_value_bound(b.skip(1));
        lemma_pow2_adds(8, (8 * (b.len() - 1)) as nat);
    }
}

/// A sequence of `n` words denotes a number below `2^(32n)`.
pub proof fn lemma_words_value_bound(ws: Seq<u32>)
    ensures
        words_value(ws) < pow2((32 * ws.len()) as nat),
{
    lemma_le_bytes_of_words_value(ws);
    lemma_bytes_value_bound(le_bytes_of_words(ws));
}

/// Appending zero bytes to a byte string keeps the number it denotes.
pub proof fn lemma_zero_extension_value(short: Seq<u8>, long: Seq<u8>)
    requires
        short.len() <= long.len(),
        long.take(short.len() as int) == short,
        forall|i: int| short.len() <= i < long.len() ==> long[i] == 0,
    ensures
        bytes_value(long) == bytes_value(short),
{
    lemma_bytes_value_split(long, short.len() as int);
    lemma_zero_bytes_value(long.skip(short.len() as int));
}

/// Without high zero bytes, a byte string whose number is below `2^(8k)`
/// has at most `k` bytes.
pub proof fn lemma_minimal_len_bound(b: Seq<u8>, k: nat)
    requires
        is_minimal_le(b),
        k >= 1,
        bytes_value(b) < pow2(8 * k),
    ensures
        b.len() <= k,
{
    let n = b.len() as int;
    if n > k {
        lemma_bytes_value_split(b, n - 1);
        let tail = b.skip(n - 1);
        assert(tail.skip(1).len() == 0);
        assert(bytes_value(tail) == b[n - 1] as nat + 256 * bytes_value(tail.skip(1)));
        assert(bytes_value(tail) >= 1);
        let p = pow2((8 * (n - 1)) as nat);
        let v = bytes_value(tail);
        assert(p * v >= p) by (nonlinear_arith)
            requires
                v >= 1,
        ;
        if 8 * k < 8 * (n - 1) {
            lemma_pow2_strictly_increases(8 * k, (8 * (n - 1)) as nat);
        }
    }
}

/// The shape of the little-endian byte strings that `BigUint::to_bytes_le`
/// produces: at least one byte, and no high zero byte unless the string is
/// the single byte of zero.
pub open spec fn is_minimal_le(b: Seq<u8>) -> bool {
    b.len() >= 1 && (b.len() == 1 || b[b.len() - 1] != 0)
}


/// Widens a little-endian byte string to `len` bytes with high zero bytes,
/// which keeps the number that it denotes.
pub fn zero_extend_le(bytes: &mut Vec<u8>, len: usize)
    requires
        old(bytes)@.len() <= len,
    ensures
        final(bytes)@.len() == len,
        final(bytes)@.take(old(bytes)@.len() as int) == old(bytes)@,
        forall|i: int| old(bytes)@.len() <= i < len ==> final(bytes)@[i] == 0,
        bytes_value(final(bytes)@) == bytes_value(old(bytes)@),
{
    let ghost short = bytes@;
    bytes.resize(len, 0u8);
    proof {
        assert(bytes@.take(short.len() as int) =~= short);
        assert forall|i: int| short.len() <= i < len implies bytes@[i] == 0 by {
            assert(cloned(0u8, bytes@[i]));
        }
        lemma_zero_extension_value(short, bytes@);
    }
}

/// `sp1_primitives::consts::WORD_SIZE`, the number of bytes in a word,
/// which that crate defines as 4.
#[verifier::external_body]
pub(crate) fn word_size() -> (n: usize)
    ensures
        n == 4,
{
    WORD_SIZE
}

/// `sp1_primitives::consts::words_to_bytes_le_vec`: trusted to lay each word
/// out as its four little-endian bytes, in order.
#[verifier::external_body]
pub(crate) fn words_to_le_bytes(words: &[u32]) -> (bytes: Vec<u8>)
    ensures
        bytes@ == le_bytes_of_words(words@),
{
    words_to_bytes_le_vec(words)
}

/// `sp1_primitives::consts::bytes_to_words_le::<W>`: trusted to read each
/// group of four bytes as a little-endian word. The input must hold exactly
/// `W` words' worth of bytes (the function asserts it, and a shorter input
/// makes it panic).
#[verifier::external_body]
pub(crate) fn le_bytes_to_words<const W: usize>(bytes: &[u8]) -> (words: [u32; W])
    requires
        bytes@.len() == 4 * W,
    ensures
        words@ == words_of_le_bytes(bytes@),
{
    bytes_to_words_le::<W>(bytes)
}

} // verus!
