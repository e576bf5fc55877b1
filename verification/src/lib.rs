//! Memory and device-space core of a machine emulator.

pub mod access;
pub mod devices;
pub mod error;
pub mod heap;
pub mod irq;
pub mod memory;
pub mod region;
pub mod space;
pub mod virtio;
