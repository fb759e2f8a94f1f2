//! The rules for adopting shared memory that a client hands over as a buffer.
use crate::types::{Error, MAX_BUFFER};
use vstd::prelude::*;

verus! {

/// What adopting a shared-memory file as a buffer of `len` bytes gives, from
/// what is known of the file: whether it carries the seals that freeze its
/// size and contents, and, when its metadata could be read, whether it is a
/// regular file and its size. The checks run in this order: the length must
/// be within `1..=MAX_BUFFER`; the seals come before the size, so that a
/// sender cannot race the size check by truncating the file; then the file
/// must be a regular file of exactly `len` bytes.
pub open spec fn shared_file_outcome(len: usize, sealed: bool, metadata: Option<(bool, u64)>) -> Result<
    (),
    Error,
> {
    if len == 0 || len > MAX_BUFFER {
        Err(Error::Invalid)
    } else if !sealed {
        Err(Error::Permission)
    } else {
        match metadata {
            None => Err(Error::Invalid),
            Some((regular, size)) => if !regular || size != len {
                Err(Error::Invalid)
            } else {
                Ok(())
            },
        }
    }
}

/// Checks a shared-memory file before it is mapped.
pub fn shared_file_check(len: usize, sealed: bool, metadata: Option<(bool, u64)>) -> (r: Result<
    (),
    Error,
>)
    ensures
        r == shared_file_outcome(len, sealed, metadata),
{
    if len == 0 || len > MAX_BUFFER {
        return Err(Error::Invalid);
    }
    if !sealed {
        return Err(Error::Permission);
    }
    match metadata {
        None => Err(Error::Invalid),
        Some((regular, size)) => {
            if !regular || size != len as u64 {
                Err(Error::Invalid)
            } else {
                Ok(())
            }
        },
    }
}

} // verus!
