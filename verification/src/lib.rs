//! A verified core for an FMI2 co-simulation wrapper whose slaves run out of
//! process: the status and type model, the handle registry, the length-framed
//! command/reply wire codec, the slave-configuration descriptor, and the
//! process-isolated backend's bookkeeping. The unverifiable rim — the C ABI
//! marshalling, the sockets and the child processes themselves — lives
//! outside this crate and drives it with plain values.

pub mod status;

pub mod registry;

pub mod wire;

pub mod protocol;

pub mod config;

pub mod backend;

pub mod resources;
