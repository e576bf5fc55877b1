//! The virtio transport: split virtqueues and the MMIO register file.

pub mod device;
pub mod queue;
