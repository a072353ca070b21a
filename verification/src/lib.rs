//! An OpenTracing library with a no-op, a mock and a LightStep tracer.
//!
//! The spans, span contexts, the propagation formats (text map, binary
//! carrier) and the LightStep wire encoding are modelled and verified here.
//! Clocks, randomness, threads and network I/O are reached through small
//! trusted wrappers or left to the surrounding application.

pub mod strmap;
pub mod value;
pub mod context;
pub mod span;
pub mod tracer;
pub mod tracers;
pub mod text;
pub mod wire;
