//! The 256 x 2048-bit multiplication syscall: the product of a 256-bit and a
//! 2048-bit number, split into its low 2048 bits and its high 256 bits.
use crate::biguint::{biguint_div_rem, biguint_mul, biguint_shl};
use crate::encoding::{
    bytes_value, le_bytes_to_words, lemma_le_bytes_of_words_value, lemma_minimal_len_bound,
    lemma_words_of_le_bytes_value, lemma_words_value_bound, zero_extend_le,
    words_to_le_bytes, words_value,
};
use vstd::arithmetic::power2::*;
use vstd::prelude::*;

verus! {

const U256_NUM_WORDS: usize = 8;

const U2048_NUM_WORDS: usize = 64;

const U256_NUM_BYTES: usize = U256_NUM_WORDS * 4;

const U2048_NUM_BYTES: usize = U2048_NUM_WORDS * 4;

/// The syscall that multiplies a 256-bit number by a 2048-bit number.
pub struct U256xU2048MulSyscall;

impl U256xU2048MulSyscall {
    /// The cycles that the syscall takes beyond the instruction itself: one,
    /// so that its writes fall on a later clock than its reads.
    pub fn num_extra_cycles(&self) -> (n: u32)
        ensures
            n == 1,
    {
        1
    }
}

/// The product of the 256-bit operand `a` and the 2048-bit operand `b`, as the
/// low 2048 bits (64 words) and the high 256 bits (8 words), each little-endian.
pub fn u256x2048_mul(a: &[u32; 8], b: &[u32; 64]) -> (lo_hi: ([u32; 64], [u32; 8]))
    ensures
        words_value(lo_hi.0@) == (words_value(a@) * words_value(b@)) % pow2(2048),
        words_value(lo_hi.1@) == (words_value(a@) * words_value(b@)) / pow2(2048),
        words_value(lo_hi.0@) + pow2(2048) * words_value(lo_hi.1@) == words_value(a@)
            * words_value(b@),
{
    let a_bytes = words_to_le_bytes(a.as_slice());
    let b_bytes = words_to_le_bytes(b.as_slice());
    proof {
        lemma_le_bytes_of_words_value(a@);
        lemma_le_bytes_of_words_value(b@);
    }
    let result = biguint_mul(a_bytes.as_slice(), b_bytes.as_slice());

    let one: Vec<u8> = vec![1u8];
    proof {
        reveal_with_fuel(bytes_value, 2);
        assert(one@.skip(1).len() == 0);
        assert(bytes_value(one@) == 1);
    }
    let two_to_2048 = biguint_shl(one.as_slice(), 2048);
    proof {
        lemma_pow2_pos(2048);
        assert(bytes_value(two_to_2048@) == 1 * pow2(2048));
    }
    let (hi, lo) = biguint_div_rem(result.as_slice(), two_to_2048.as_slice());

    let ghost product = words_value(a@) * words_value(b@);
    proof {
        let p = pow2(2048);
        vstd::arithmetic::div_mod::lemma_mod_pos_bound(product as int, p as int);
        assert(pow2(8 * 256) == p);
        lemma_minimal_len_bound(lo@, 256);

        let x = words_value(a@);
        let y = words_value(b@);
        let q = pow2(256);
        lemma_words_value_bound(a@);
        lemma_words_value_bound(b@);
        assert(x * y < q * p) by (nonlinear_arith)
            requires
                x < q,
                y < p,
        ;
        vstd::arithmetic::div_mod::lemma_multiply_divide_lt(product as int, p as int, q as int);
        assert(p * q == q * p) by (nonlinear_arith);
        assert(pow2(8 * 32) == q);
        lemma_minimal_len_bound(hi@, 32);
        vstd::arithmetic::div_mod::lemma_fundamental_div_mod(product as int, p as int);
    }

    let mut lo_bytes = lo;
    zero_extend_le(&mut lo_bytes, U2048_NUM_BYTES);
    proof {
        lemma_words_of_le_bytes_value(lo_bytes@);
    }
    let lo_words = le_bytes_to_words::<U2048_NUM_WORDS>(lo_bytes.as_slice());

    let mut hi_bytes = hi;
    zero_extend_le(&mut hi_bytes, U256_NUM_BYTES);
    proof {
        lemma_words_of_le_bytes_value(hi_bytes@);
    }
    let hi_words = le_bytes_to_words::<U256_NUM_WORDS>(hi_bytes.as_slice());

    (lo_words, hi_words)
}

} // verus!
