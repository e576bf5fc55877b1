//! Heaps and regions, held in one arena and named by handles.
//!
//! A heap grants blocks of its span as root regions. A remap is a view of
//! another region at a base of its own, an IO region hands its accesses to a
//! device. Every heap and region counts its holders; it stays alive while it
//! has a holder or while a live heap or region is built on it.

pub mod fabric;
pub mod model;

pub use self::fabric::{load, store, Fabric, Target};
pub use self::model::{delivered, device_outcome, overwrite, FabricModel, HeapModel, Place};

use crate::memory::MemInfo;
use vstd::prelude::*;

verus! {

/// Handle of a heap of a `Fabric`.
#[derive(Clone, Copy, Debug, PartialEq, Eq, Structural)]
pub struct Heap(pub usize);

/// Handle of a region of a `Fabric`.
#[derive(Clone, Copy, Debug, PartialEq, Eq, Structural)]
pub struct Region(pub usize);

/// What a region is made of.
#[derive(Clone, Copy, Debug, PartialEq, Eq, Structural)]
pub enum Kind {
    /// A block granted by the heap of that index.
    Root { heap: usize },
    /// A view of `size` bytes of the region `target`, from `offset` on.
    Remap { target: usize, offset: u64 },
    /// A window onto the device of that index.
    Io { device: usize },
}

/// A region as the arena records it.
#[derive(Clone, Copy, Debug, PartialEq, Eq, Structural)]
pub struct RegionEntry {
    pub kind: Kind,
    pub info: MemInfo,
    pub holders: u64,
    pub live: bool,
}

} // verus!
