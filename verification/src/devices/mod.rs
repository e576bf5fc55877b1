//! Virtual devices.

pub mod armory;

use vstd::prelude::*;

verus! {

/// How a pixel is laid out in a framebuffer.
#[derive(Clone, Copy, Debug, PartialEq, Eq, Structural)]
pub enum PixelFormat {
    RGB565,
    RGB888,
}

impl PixelFormat {
    /// The bytes that a pixel takes.
    pub open spec fn bytes(self) -> u32 {
        match self {
            PixelFormat::RGB565 => 2,
            PixelFormat::RGB888 => 4,
        }
    }

    /// The bytes that a pixel takes.
    pub fn size(&self) -> (n: u32)
        ensures
            n == self.bytes(),
    {
        match self {
            PixelFormat::RGB565 => 2,
            PixelFormat::RGB888 => 4,
        }
    }
}

} // verus!
