//! Synchronous N-body stepping over a snapshot of point masses.
//!
//! The library owns the shape of a tick: every subject is pulled by every
//! other particle of the old snapshot (peers are told apart by index, never by
//! value), its velocity is then kicked by the net pull, and its position drifts
//! by the new velocity. The scalar arithmetic itself (distance, force law,
//! drag) is supplied by the caller as closures, so the stepper is proved for
//! every kernel and every scalar type.
use vstd::prelude::*;

pub mod particle;
pub mod stepper;
