//! Device classes: the framebuffer and the virtio block and console devices.

pub mod display;
pub mod virtio_blk;
pub mod virtio_console;
