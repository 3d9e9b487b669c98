//! Errors, and the status codes of the C library.

use vstd::prelude::*;

verus! {

/// Success.
pub const EOK: i32 = 0;

/// No such entry.
pub const ENOENT: i32 = 2;

/// The device failed.
pub const EIO: i32 = 5;

/// The operation is not allowed on a directory.
pub const EISDIR: i32 = 21;

/// The directory still has entries.
pub const ENOTEMPTY: i32 = 39;

/// The filesystem cannot be handled.
pub const ENOTSUP: i32 = 95;

/// A status code of the C library, with the call it came from where that is known.
#[derive(Debug, Clone, Copy, PartialEq, Eq)]
pub struct Ext4Error {
    pub code: i32,
    pub context: Option<&'static str>,
}

pub type Ext4Result<T = ()> = Result<T, Ext4Error>;

impl Ext4Error {
    pub fn new(code: i32, context: Option<&'static str>) -> (error: Self)
        ensures
            error == (Ext4Error { code, context }),
    {
        Ext4Error { code, context }
    }
}

/// How an operation can fail.
#[derive(Debug, Clone, Copy, PartialEq, Eq)]
pub enum Failure {
    /// The operation was refused or did not succeed.
    Error(Ext4Error),
    /// Something that always holds of a sound filesystem did not hold. There is no way to go
    /// on from here: the program is expected to stop with this message.
    Broken(&'static str),
}

/// Why a filesystem could not be mounted.
#[derive(Debug, Clone, Copy, PartialEq, Eq)]
pub struct MountError {
    pub error: Ext4Error,
    /// The status of unmounting what had been mounted by then, `EOK` if nothing had been.
    pub unmount: i32,
}

/// The result that a status code of the C library stands for.
pub open spec fn status(code: i32, context: &'static str) -> Ext4Result<()> {
    if code == EOK {
        Ok(())
    } else {
        Err(Ext4Error { code, context: Some(context) })
    }
}

/// Turns a status code of the C library into a result: every code but `EOK` is an error.
pub fn check(code: i32, context: &'static str) -> (result: Ext4Result<()>)
    ensures
        result == status(code, context),
{
    if code == EOK {
        Ok(())
    } else {
        Err(Ext4Error::new(code, Some(context)))
    }
}

} // verus!
