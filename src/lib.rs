//! Publishing of live telemetry into the on-screen display of an overlay
//! server through the server's shared memory segment.

pub mod bindings;
pub mod rtss;
pub mod shared_memory;
pub mod text;
pub mod versioned;
