//! Arithmetic cores of the big-integer precompile syscalls of a RISC-V zkVM
//! executor: the 256-bit modular multiplication, the 256 x 2048-bit
//! multiplication with its split into low and high halves, and the dispatch of
//! Weierstrass point additions to per-curve events.
pub mod encoding;
mod biguint;
pub mod u256x2048_mul;
pub mod uint256;
pub mod weierstrass;
