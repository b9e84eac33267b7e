use precompiles::u256x2048_mul::{u256x2048_mul, U256xU2048MulSyscall};
use precompiles::uint256::{uint256_mul, uint256_mul_operand_ptrs, Uint256MulSyscall};
use precompiles::weierstrass::{
    weierstrass_add_event, CurveKind, EventSink, WeierstrassAddAssignSyscall, WeierstrassAddEvent,
};

const MODULUS: [u32; 8] =
    [0x00000001, 0xffffffff, 0xfffe5bfe, 0x53bda402, 0x09a1d805, 0x3339d808, 0x299d7d48, 0x73eda753];
const R: [u32; 8] =
    [0xfffffffe, 0x00000001, 0x00034802, 0x5884b7fa, 0xecbc4ff5, 0x998c4fef, 0xacc5056f, 0x1824b159];
const INV_R: [u32; 8] =
    [0xfe75c040, 0x13f75b69, 0x09dc705f, 0xab6fca8f, 0x4f77266a, 0x7204078a, 0x30009d57, 0x1bbe8693];
const ONE: [u32; 8] = [1, 0, 0, 0, 0, 0, 0, 0];
const ZERO: [u32; 8] = [0; 8];

fn small(v: u32) -> [u32; 8] {
    [v, 0, 0, 0, 0, 0, 0, 0]
}

#[test]
fn uint256_one_times_value_below_modulus() {
    let b: [u32; 8] =
        [0, 0x00000002, 0xfffe5bfe, 0x53bda402, 0x09a1d805, 0x3339d808, 0x299d7d48, 0x73eda753];
    assert_eq!(uint256_mul(&ONE, &b, &MODULUS), b);
}

#[test]
fn uint256_one_times_r() {
    assert_eq!(uint256_mul(&ONE, &R, &MODULUS), R);
}

#[test]
fn uint256_r_times_its_inverse_is_one() {
    assert_eq!(uint256_mul(&INV_R, &R, &MODULUS), ONE);
    assert_eq!(uint256_mul(&R, &INV_R, &MODULUS), ONE);
}

#[test]
fn uint256_montgomery_round_trip() {
    let a: [u32; 8] = [172325, 12, 12, 12, 12, 12, 12, 34];
    let z = uint256_mul(&R, &a, &MODULUS);
    assert_eq!(
        z,
        [0x0ba64c01, 0x78db1ae9, 0xb757b581, 0x074b33d2, 0x47a3e72c, 0x49a2a9de, 0x7b50c245, 0x678228e4]
    );
    assert_eq!(uint256_mul(&z, &INV_R, &MODULUS), a);
}

#[test]
fn uint256_small_modulus() {
    assert_eq!(uint256_mul(&small(10), &small(10), &small(7)), small(2));
    assert_eq!(uint256_mul(&small(6), &small(7), &small(42)), small(0));
}

#[test]
fn uint256_zero_modulus_wraps_at_2_pow_256() {
    let max = [0xffffffffu32; 8];
    assert_eq!(uint256_mul(&max, &max, &ZERO), ONE);
    assert_eq!(uint256_mul(&small(3), &small(5), &ZERO), small(15));
    let mut top = ZERO;
    top[7] = 0x8000_0000;
    assert_eq!(uint256_mul(&top, &small(2), &ZERO), ZERO);
}

#[test]
fn uint256_zero_factor() {
    assert_eq!(uint256_mul(&ZERO, &R, &MODULUS), ZERO);
    assert_eq!(uint256_mul(&R, &ZERO, &ZERO), ZERO);
}

#[test]
fn uint256_operand_pointers() {
    assert_eq!(uint256_mul_operand_ptrs(4, 8), (4, 8, 40));
    assert_eq!(uint256_mul_operand_ptrs(0x1000, 0x2000), (0x1000, 0x2000, 0x2020));
}

#[test]
fn uint256_extra_cycles() {
    assert_eq!(Uint256MulSyscall.num_extra_cycles(), 1);
}

#[test]
fn u256x2048_small_product() {
    let mut b = [0u32; 64];
    b[0] = 3;
    let (lo, hi) = u256x2048_mul(&small(2), &b);
    let mut expected_lo = [0u32; 64];
    expected_lo[0] = 6;
    assert_eq!(lo, expected_lo);
    assert_eq!(hi, ZERO);
}

#[test]
fn u256x2048_carry_into_high_half() {
    let mut b = [0u32; 64];
    b[63] = 0x8000_0000;
    let (lo, hi) = u256x2048_mul(&small(6), &b);
    assert_eq!(lo, [0u32; 64]);
    assert_eq!(hi, small(3));
}

#[test]
fn u256x2048_maximal_operands() {
    let a = [0xffffffffu32; 8];
    let b = [0xffffffffu32; 64];
    let (lo, hi) = u256x2048_mul(&a, &b);
    let mut expected_lo = [0xffffffffu32; 64];
    expected_lo[0] = 1;
    for w in expected_lo.iter_mut().take(8).skip(1) {
        *w = 0;
    }
    assert_eq!(lo, expected_lo);
    let mut expected_hi = [0xffffffffu32; 8];
    expected_hi[0] = 0xfffffffe;
    assert_eq!(hi, expected_hi);
}

#[test]
fn u256x2048_zero_operand() {
    let b = [0x12345678u32; 64];
    let (lo, hi) = u256x2048_mul(&ZERO, &b);
    assert_eq!(lo, [0u32; 64]);
    assert_eq!(hi, ZERO);
}

#[test]
fn u256x2048_extra_cycles() {
    assert_eq!(U256xU2048MulSyscall.num_extra_cycles(), 1);
}

#[test]
fn weierstrass_events_per_curve() {
    assert_eq!(
        weierstrass_add_event(CurveKind::Secp256k1),
        (WeierstrassAddEvent::Secp256k1Add, EventSink::Context)
    );
    assert_eq!(
        weierstrass_add_event(CurveKind::Bn254),
        (WeierstrassAddEvent::Bn254Add, EventSink::Context)
    );
    assert_eq!(
        weierstrass_add_event(CurveKind::Bls12381),
        (WeierstrassAddEvent::Bls12381Add, EventSink::Context)
    );
    assert_eq!(
        weierstrass_add_event(CurveKind::Secp256r1),
        (WeierstrassAddEvent::Secp256r1Add, EventSink::Record)
    );
}

#[test]
fn weierstrass_extra_cycles() {
    let syscall: WeierstrassAddAssignSyscall<u8> = WeierstrassAddAssignSyscall::new();
    assert_eq!(syscall.num_extra_cycles(), 1);
}

#[test]
fn uint256_factor_order_does_not_matter() {
    let a: [u32; 8] = [172325, 12, 12, 12, 12, 12, 12, 34];
    assert_eq!(uint256_mul(&a, &R, &MODULUS), uint256_mul(&R, &a, &MODULUS));
    assert_eq!(uint256_mul(&a, &INV_R, &ZERO), uint256_mul(&INV_R, &a, &ZERO));
}

#[test]
fn uint256_reducing_a_factor_first_changes_nothing() {
    // 12 = 5 + 7 reduces to 5 modulo 7.
    assert_eq!(uint256_mul(&small(12), &small(9), &small(7)), uint256_mul(&small(5), &small(9), &small(7)));
    assert_eq!(uint256_mul(&small(12), &small(9), &small(7)), small(3));
}
