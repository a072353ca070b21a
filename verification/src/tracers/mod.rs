//! The tracers.

pub mod mock;
pub mod noop;
pub mod lightstep;
