//! The daemon's rules for its socket: a private parent directory, same-user
//! peers only, and removal of the socket only while it is still the one the
//! daemon bound.
use vstd::prelude::*;

verus! {

/// Permission bits that would give the group or others any access.
pub const SHARED_BITS: u32 = 0o077;

/// Whether the socket's parent may hold it: a directory owned by the daemon's
/// effective user with no access for group or others.
pub fn private_dir_ok(is_dir: bool, dir_uid: u32, euid: u32, mode: u32) -> (r: bool)
    ensures
        r == (is_dir && dir_uid == euid && mode & SHARED_BITS == 0),
{
    is_dir && dir_uid == euid && mode & SHARED_BITS == 0
}

/// Whether a connecting peer is served: only one whose user could be
/// determined and is the daemon's effective user.
pub fn peer_allowed(peer_uid: Option<u32>, euid: u32) -> (r: bool)
    ensures
        r == (peer_uid == Some(euid)),
{
    match peer_uid {
        Some(uid) => uid == euid,
        None => false,
    }
}

/// Whether the path still holds the socket the daemon bound, identified by
/// device and inode; anything else there belongs to someone else.
pub fn still_ours(is_socket: bool, device: u64, inode: u64, bound_device: u64, bound_inode: u64) -> (r:
    bool)
    ensures
        r == (is_socket && device == bound_device && inode == bound_inode),
{
    is_socket && device == bound_device && inode == bound_inode
}

} // verus!
