//! The shared ring buffers through which the components of an echo server
//! hand buffer descriptors to each other, and the copy component that moves
//! received packets from the receive multiplexer to a client.

pub mod shared_ringbuffer;
pub mod copy;
