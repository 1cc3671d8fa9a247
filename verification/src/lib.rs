//! Core of a lightweight virtual-machine monitor support library:
//! a guest memory model with bounds-checked typed access, a versioned
//! snapshot engine with a self-describing binary format, and a virtio
//! vsock device model with RX/TX descriptor pumping.

pub mod address;
pub mod codec;
pub mod device_config;
pub mod fault;
pub mod guest_memory;
pub mod mmap;
pub mod pod;
pub mod primitives;
pub mod queue;
pub mod snapshot;
pub mod version_map;
pub mod vsock;
pub mod versioned;
