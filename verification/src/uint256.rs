//! The 256-bit modular multiplication syscall: `x * y mod modulus`, where a
//! zero modulus stands for `2^256`.
use crate::biguint::{biguint_is_zero, biguint_mul, biguint_rem, biguint_shl};
use crate::encoding::{
    bytes_value, le_bytes_to_words, lemma_le_bytes_of_words_value, lemma_minimal_len_bound,
    lemma_words_of_le_bytes_value, lemma_words_value_bound, word_size, words_to_le_bytes, words_value, zero_extend_le,
};
use sp1_curves::edwards::WORDS_FIELD_ELEMENT;
use vstd::arithmetic::power2::*;
use vstd::prelude::*;

verus! {

/// `sp1_curves::edwards::WORDS_FIELD_ELEMENT`, the number of words in a
/// field element of the executor's curves, which that crate defines as the
/// 32 limbs of the Ed25519 base field over 4 bytes per word, that is 8.
#[verifier::external_body]
fn words_field_element() -> (n: usize)
    ensures
        n == 8,
{
    WORDS_FIELD_ELEMENT
}

/// The syscall that multiplies two 256-bit numbers modulo a third.
pub struct Uint256MulSyscall;

impl Uint256MulSyscall {
    /// The cycles that the syscall takes beyond the instruction itself: one,
    /// so that its write falls on a later clock than its reads.
    pub fn num_extra_cycles(&self) -> (n: u32)
        ensures
            n == 1,
    {
        1
    }
}

/// The modulus that the syscall reduces by: the one given, or `2^256` in
/// place of zero.
pub open spec fn effective_modulus(modulus: nat) -> nat {
    if modulus == 0 {
        pow2(256)
    } else {
        modulus
    }
}

/// What the syscall writes back over `x`.
pub open spec fn uint256_mul_mod_value(x: nat, y: nat, modulus: nat) -> nat {
    (x * y) % effective_modulus(modulus)
}

/// The modular product does not depend on the order of its factors.
pub proof fn lemma_uint256_mul_commutes(x: nat, y: nat, modulus: nat)
    ensures
        uint256_mul_mod_value(x, y, modulus) == uint256_mul_mod_value(y, x, modulus),
{
    assert(x * y == y * x) by (nonlinear_arith);
}

/// With a zero modulus the syscall is the wrapping 256-bit product: its
/// result is below `2^256` and differs from `x * y` by a multiple of `2^256`,
/// so it is the low 256 bits of the full product.
pub proof fn lemma_uint256_mul_zero_modulus_wraps(x: nat, y: nat)
    ensures
        uint256_mul_mod_value(x, y, 0) == (x * y) % pow2(256),
        uint256_mul_mod_value(x, y, 0) < pow2(256),
        x * y == ((x * y) / pow2(256)) * pow2(256) + uint256_mul_mod_value(x, y, 0),
{
    lemma_pow2_pos(256);
    vstd::arithmetic::div_mod::lemma_mod_pos_bound((x * y) as int, pow2(256) as int);
    vstd::arithmetic::div_mod::lemma_fundamental_div_mod((x * y) as int, pow2(256) as int);
    assert(pow2(256) * ((x * y) / pow2(256)) == ((x * y) / pow2(256)) * pow2(256))
        by (nonlinear_arith);
}

/// With a zero modulus, multiplying by one gives back every 256-bit number,
/// those with the top bit set among them.
pub proof fn lemma_uint256_mul_zero_modulus_one(x: nat)
    requires
        x < pow2(256),
    ensures
        uint256_mul_mod_value(1, x, 0) == x,
        uint256_mul_mod_value(x, 1, 0) == x,
{
    vstd::arithmetic::div_mod::lemma_small_mod(x, pow2(256));
}

/// With a nonzero modulus the syscall reduces `x * y` by that modulus: the
/// result is below it and differs from `x * y` by a multiple of it.
pub proof fn lemma_uint256_mul_nonzero_modulus(x: nat, y: nat, modulus: nat)
    requires
        modulus != 0,
    ensures
        uint256_mul_mod_value(x, y, modulus) == (x * y) % modulus,
        uint256_mul_mod_value(x, y, modulus) < modulus,
        x * y == ((x * y) / modulus) * modulus + uint256_mul_mod_value(x, y, modulus),
{
    vstd::arithmetic::div_mod::lemma_mod_pos_bound((x * y) as int, modulus as int);
    vstd::arithmetic::div_mod::lemma_fundamental_div_mod((x * y) as int, modulus as int);
    assert(modulus * ((x * y) / modulus) == ((x * y) / modulus) * modulus) by (nonlinear_arith);
}

/// Multiplying by one gives back any number already below the modulus.
pub proof fn lemma_uint256_mul_one(y: nat, modulus: nat)
    requires
        y < effective_modulus(modulus),
    ensures
        uint256_mul_mod_value(1, y, modulus) == y,
{
    vstd::arithmetic::div_mod::lemma_small_mod(y, effective_modulus(modulus));
}

/// The modular product depends on its factors only modulo the modulus, so
/// reducing a factor first leaves it unchanged.
pub proof fn lemma_uint256_mul_reduced_factors(x: nat, y: nat, modulus: nat)
    ensures
        uint256_mul_mod_value(x, y, modulus) == uint256_mul_mod_value(
            x % effective_modulus(modulus),
            y % effective_modulus(modulus),
            modulus,
        ),
{
    let m = effective_modulus(modulus);
    lemma_pow2_pos(256);
    vstd::arithmetic::div_mod::lemma_mul_mod_noop_general(x as int, y as int, m as int);
}

/// The addresses that the syscall reads, given its two arguments: `x` at the
/// first, `y` at the second, and the modulus in the field element right after
/// `y`. Both arguments must be word-aligned (the syscall panics otherwise),
/// and the modulus must lie within the 32-bit address space.
pub fn uint256_mul_operand_ptrs(arg1: u32, arg2: u32) -> (ptrs: (u32, u32, u32))
    requires
        arg1 % 4 == 0,
        arg2 % 4 == 0,
        arg2 + 32 <= u32::MAX,
    ensures
        ptrs == (arg1, arg2, (arg2 + 32) as u32),
{
    let x_ptr = arg1;
    let y_ptr = arg2;
    let words = words_field_element();
    let word_bytes = word_size();
    let field_words = words as u32;
    let field_word_bytes = word_bytes as u32;
    let field_bytes = field_words * field_word_bytes;
    assert(field_bytes == 32) by (nonlinear_arith)
        requires
            field_bytes == field_words * field_word_bytes,
            field_words == 8,
            field_word_bytes == 4,
    ;
    let modulus_ptr = y_ptr + field_bytes;
    (x_ptr, y_ptr, modulus_ptr)
}

/// `x * y` modulo `modulus`, or modulo `2^256` when `modulus` is zero; every
/// number is eight little-endian words.
pub fn uint256_mul(x: &[u32; 8], y: &[u32; 8], modulus: &[u32; 8]) -> (r: [u32; 8])
    ensures
        words_value(r@) == uint256_mul_mod_value(
            words_value(x@),
            words_value(y@),
            words_value(modulus@),
        ),
        words_value(r@) < effective_modulus(words_value(modulus@)),
        words_value(modulus@) == 0 ==> words_value(r@) == (words_value(x@) * words_value(y@))
            % pow2(256),
        words_value(modulus@) != 0 ==> words_value(r@) == (words_value(x@) * words_value(y@))
            % words_value(modulus@),
        words_value(modulus@) != 0 ==> words_value(r@) < words_value(modulus@),
{
    let x_bytes = words_to_le_bytes(x.as_slice());
    let y_bytes = words_to_le_bytes(y.as_slice());
    let modulus_bytes = words_to_le_bytes(modulus.as_slice());
    proof {
        lemma_le_bytes_of_words_value(x@);
        lemma_le_bytes_of_words_value(y@);
        lemma_le_bytes_of_words_value(modulus@);
        lemma_pow2_pos(256);
    }
    let ghost m = effective_modulus(words_value(modulus@));

    let result = if biguint_is_zero(modulus_bytes.as_slice()) {
        let one: Vec<u8> = vec![1u8];
        proof {
            reveal_with_fuel(bytes_value, 2);
            assert(one@.skip(1).len() == 0);
        }
        let two_to_256 = biguint_shl(one.as_slice(), 256);
        assert(bytes_value(two_to_256@) == 1 * pow2(256));
        let product = biguint_mul(x_bytes.as_slice(), y_bytes.as_slice());
        biguint_rem(product.as_slice(), two_to_256.as_slice())
    } else {
        let product = biguint_mul(x_bytes.as_slice(), y_bytes.as_slice());
        biguint_rem(product.as_slice(), modulus_bytes.as_slice())
    };

    proof {
        let v = words_value(x@) * words_value(y@);
        vstd::arithmetic::div_mod::lemma_mod_pos_bound(v as int, m as int);
        lemma_words_value_bound(modulus@);
        assert(pow2(8 * 32) == pow2(256));
        lemma_minimal_len_bound(result@, 32);
    }
    let mut result_bytes = result;
    zero_extend_le(&mut result_bytes, 32);
    proof {
        lemma_words_of_le_bytes_value(result_bytes@);
    }
    le_bytes_to_words::<8>(result_bytes.as_slice())
}

} // verus!
