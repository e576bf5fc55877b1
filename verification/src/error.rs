//! Error kinds surfaced by the allocator, the address space and the devices.

use vstd::prelude::*;

verus! {

/// What can go wrong.
#[derive(Debug, PartialEq, Eq)]
pub enum Error {
    /// The heap cannot satisfy the request.
    OutOfSpace,
    /// The address lies outside the region or its backing.
    OutOfRange,
    /// A region of that name is already registered.
    NameExists,
    /// The region intersects one that is already registered.
    Overlap,
    /// The alignment is not a power of two.
    InvalidAlign,
    /// The descriptor chain is longer than the queue or leaves the table.
    MalformedDescriptor,
    /// A device-specific failure of a single request.
    ClientError(String),
    /// A failure of the disk backend.
    IoError(String),
    /// The queue was used before the driver marked it ready.
    NotReady,
}

} // verus!
