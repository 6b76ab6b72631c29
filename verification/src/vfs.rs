//! Plain records and simple nodes of the virtual file system that the hooks
//! sit on.

use vstd::prelude::*;

pub mod structs;
pub mod devices;
pub mod procfs;

verus! {

/// Why a call on a file system node failed.
#[derive(Clone, Copy, Debug, PartialEq, Eq, Structural)]
pub enum VfsError {
    /// An argument violates a documented constraint.
    InvalidInput,
    /// A resource is exhausted.
    NoMemory,
    /// The named entry does not exist.
    NotFound,
    /// The name to create is already present.
    AlreadyExists,
}

} // verus!
