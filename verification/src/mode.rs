//! File modes. A mode is absent when the file is not there.
use vstd::prelude::*;

verus! {

/// Nobody's write bit but the owner's counts.
pub open spec fn lacks_write(mode: u32) -> bool {
    mode & 0o200 == 0
}

/// A symbolic link, by its type bits.
pub open spec fn is_link_mode(mode: Option<u32>) -> bool {
    mode matches Some(m) && m & 0o170000 == 0o120000
}

/// Whether the owner cannot write a file with this mode.
pub fn is_path_readonly(mode: Option<u32>) -> (r: bool)
    ensures
        r == (mode matches Some(m) && lacks_write(m)),
{
    match mode {
        Some(m) => m & 0o200 == 0,
        None => false,
    }
}

/// The mode to set so that the owner can write the file: the same mode with
/// the write bit.
pub fn make_writable(mode: Option<u32>) -> (r: Option<u32>)
    ensures
        match (mode, r) {
            (Some(m), Some(w)) => w == m | 0o200 && !lacks_write(w),
            (None, None) => true,
            _ => false,
        },
{
    match mode {
        Some(m) => {
            assert((m | 0o200u32) & 0o200u32 != 0) by (bit_vector);
            Some(m | 0o200)
        },
        None => None,
    }
}

/// The mode to go back to later.
pub fn saved_mode_of(mode: Option<u32>) -> (r: u32)
    ensures
        r == match mode {
            Some(m) => m,
            None => 0o644,
        },
{
    match mode {
        Some(m) => m,
        None => 0o644,
    }
}

/// The mode to set to go back to a saved one, if the file is there.
pub fn restore_mode(current: Option<u32>, saved: u32) -> (r: Option<u32>)
    ensures
        r == match current {
            Some(_) => Some(saved),
            None => None,
        },
{
    match current {
        Some(_) => Some(saved),
        None => None,
    }
}

/// Whether a file has another name.
pub fn nlinks_gt_one(links: Option<u64>) -> (r: bool)
    ensures
        r == (links matches Some(n) && n > 1),
{
    match links {
        Some(n) => n > 1,
        None => false,
    }
}

/// The mode to set for the mode that a git header gives, if the file is there:
/// the permission bits alone.
pub fn apply_git_mode(current: Option<u32>, mode: Option<u32>) -> (r: Option<u32>)
    ensures
        r == match (current, mode) {
            (Some(_), Some(m)) => Some(m & 0o7777),
            _ => None,
        },
{
    match (current, mode) {
        (Some(_), Some(m)) => Some(m & 0o7777),
        _ => None,
    }
}

/// Whether a mode is that of a symbolic link.
pub fn mode_is_link(mode: Option<u32>) -> (r: bool)
    ensures
        r == is_link_mode(mode),
{
    match mode {
        Some(m) => m & 0o170000 == 0o120000,
        None => false,
    }
}

} // verus!
