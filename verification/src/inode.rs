//! Inodes as the filesystem sees them.

use vstd::prelude::*;

verus! {

/// Directory entry type codes, as they lie on disk.
pub const EXT4_DE_UNKNOWN: u32 = 0;

pub const EXT4_DE_REG_FILE: u32 = 1;

pub const EXT4_DE_DIR: u32 = 2;

pub const EXT4_DE_CHRDEV: u32 = 3;

pub const EXT4_DE_BLKDEV: u32 = 4;

pub const EXT4_DE_FIFO: u32 = 5;

pub const EXT4_DE_SOCK: u32 = 6;

pub const EXT4_DE_SYMLINK: u32 = 7;

/// What an inode stands for.
#[derive(Debug, Clone, Copy, PartialEq, Eq, Structural)]
pub enum InodeType {
    Unknown,
    Fifo,
    CharacterDevice,
    Directory,
    BlockDevice,
    RegularFile,
    Symlink,
    Socket,
}

/// The directory entry type code of an inode type.
pub open spec fn entry_type(ty: InodeType) -> u32 {
    match ty {
        InodeType::Unknown => EXT4_DE_UNKNOWN,
        InodeType::RegularFile => EXT4_DE_REG_FILE,
        InodeType::Directory => EXT4_DE_DIR,
        InodeType::CharacterDevice => EXT4_DE_CHRDEV,
        InodeType::BlockDevice => EXT4_DE_BLKDEV,
        InodeType::Fifo => EXT4_DE_FIFO,
        InodeType::Socket => EXT4_DE_SOCK,
        InodeType::Symlink => EXT4_DE_SYMLINK,
    }
}

impl InodeType {
    /// The directory entry type code to ask for when an inode of this type is allocated.
    pub fn to_entry_type(self) -> (code: u32)
        ensures
            code == entry_type(self),
    {
        match self {
            InodeType::Fifo => EXT4_DE_FIFO,
            InodeType::CharacterDevice => EXT4_DE_CHRDEV,
            InodeType::Directory => EXT4_DE_DIR,
            InodeType::BlockDevice => EXT4_DE_BLKDEV,
            InodeType::RegularFile => EXT4_DE_REG_FILE,
            InodeType::Symlink => EXT4_DE_SYMLINK,
            InodeType::Socket => EXT4_DE_SOCK,
            InodeType::Unknown => EXT4_DE_UNKNOWN,
        }
    }
}

/// The attributes of an inode.
#[derive(Debug, Clone, Copy)]
pub struct FileAttr {
    pub device: u64,
    pub nlink: u32,
    pub mode: u32,
    pub node_type: InodeType,
    pub uid: u32,
    pub gid: u32,
    pub size: u64,
    pub block_size: u64,
    pub blocks: u64,
    pub atime: core::time::Duration,
    pub mtime: core::time::Duration,
    pub ctime: core::time::Duration,
}

/// A mode with its nine permission bits taken from another one.
pub open spec fn mode_with_permissions(mode: u32, permissions: u32) -> int {
    mode - mode % 512 + permissions % 512
}

/// Replaces the permission bits of `mode` by those of `permissions`; all other bits stay.
pub fn with_permissions(mode: u32, permissions: u32) -> (merged: u32)
    ensures
        merged == mode_with_permissions(mode, permissions),
{
    let merged: u32 = (mode & !0o777) | (permissions & 0o777);
    assert(merged == mode - mode % 512 + permissions % 512) by (bit_vector)
        requires
            merged == (mode & !0o777) | (permissions & 0o777),
    ;
    merged
}

} // verus!
