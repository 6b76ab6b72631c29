//! Checks on the arguments of file system calls.

use vstd::prelude::*;
use vstd::string::StringSliceAdditionalSpecFns;

verus! {

/// The number of bytes a path must stay below.
pub const PATH_MAX: usize = 4096;

/// The flag bits that are kept.
pub const FLAG_MASK: u32 = 0xFFFF;

/// Whether `path` can name a file: it is not empty and has fewer than 4096
/// bytes.
pub fn validate_path(path: &str) -> (r: bool)
    ensures
        r == (path@.len() > 0 && path.spec_bytes().len() < PATH_MAX),
{
    !path.is_empty() && path.as_bytes().len() < PATH_MAX
}

/// `flags` without the bits above the low sixteen.
pub fn normalize_flags(flags: u32) -> (r: u32)
    ensures
        r == flags & 0xFFFF,
        r <= 0xFFFF,
{
    assert(flags & 0xFFFF <= 0xFFFF) by (bit_vector);
    flags & FLAG_MASK
}

} // verus!
