//! The Weierstrass point-addition syscall: which precompile event an addition
//! on a given curve is recorded as, and where.
use core::marker::PhantomData;
use vstd::prelude::*;

verus! {

/// The curves that the executor's precompiles know of.
#[derive(Clone, Copy, Debug, PartialEq, Eq, Structural)]
pub enum CurveKind {
    Secp256k1,
    Secp256r1,
    Bn254,
    Ed25519,
    Bls12381,
}

/// The precompile events that a Weierstrass addition is recorded as, one per
/// curve in short Weierstrass form.
#[derive(Clone, Copy, Debug, PartialEq, Eq, Structural)]
pub enum WeierstrassAddEvent {
    Secp256k1Add,
    Bn254Add,
    Bls12381Add,
    Secp256r1Add,
}

/// Where an event goes: through the syscall context, or straight into the
/// execution record.
#[derive(Clone, Copy, Debug, PartialEq, Eq, Structural)]
pub enum EventSink {
    Context,
    Record,
}

/// The curves that the addition syscall handles: every one in short
/// Weierstrass form, that is all but Ed25519.
pub open spec fn is_weierstrass_curve(curve: CurveKind) -> bool {
    curve != CurveKind::Ed25519
}

/// The event that an addition on `curve` is recorded as, and its sink.
pub open spec fn weierstrass_add_event_spec(curve: CurveKind) -> (WeierstrassAddEvent, EventSink)
    recommends
        is_weierstrass_curve(curve),
{
    match curve {
        CurveKind::Secp256k1 => (WeierstrassAddEvent::Secp256k1Add, EventSink::Context),
        CurveKind::Bn254 => (WeierstrassAddEvent::Bn254Add, EventSink::Context),
        CurveKind::Bls12381 => (WeierstrassAddEvent::Bls12381Add, EventSink::Context),
        _ => (WeierstrassAddEvent::Secp256r1Add, EventSink::Record),
    }
}

/// The syscall that adds two points of the curve `E` in place.
#[verifier::reject_recursive_types(E)]
pub struct WeierstrassAddAssignSyscall<E> {
    _phantom: PhantomData<E>,
}

impl<E> WeierstrassAddAssignSyscall<E> {
    /// Create a new instance of the [`WeierstrassAddAssignSyscall`], the one
    /// value of its type.
    pub fn new() -> Self {
        Self { _phantom: PhantomData }
    }

    /// The cycles that the syscall takes beyond the instruction itself: one.
    pub fn num_extra_cycles(&self) -> (n: u32)
        ensures
            n == 1,
    {
        1
    }
}

/// The event that an addition on `curve` is recorded as, and where it goes:
/// Secp256k1, Bn254 and Bls12381 through the syscall context, Secp256r1
/// straight into the execution record. The syscall panics on any other curve.
pub fn weierstrass_add_event(curve: CurveKind) -> (r: (WeierstrassAddEvent, EventSink))
    requires
        is_weierstrass_curve(curve),
    ensures
        r == weierstrass_add_event_spec(curve),
{
    match curve {
        CurveKind::Secp256k1 => (WeierstrassAddEvent::Secp256k1Add, EventSink::Context),
        CurveKind::Bn254 => (WeierstrassAddEvent::Bn254Add, EventSink::Context),
        CurveKind::Bls12381 => (WeierstrassAddEvent::Bls12381Add, EventSink::Context),
        CurveKind::Secp256r1 => (WeierstrassAddEvent::Secp256r1Add, EventSink::Record),
        CurveKind::Ed25519 => vstd::pervasive::unreached(),
    }
}

} // verus!
