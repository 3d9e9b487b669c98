//! An ext4 filesystem over a block device.
//!
//! The on-disk work is done by the lwext4 C library and the inode layer on top of it, which
//! the filesystem reaches through one trait, [`backend::Backend`]. Everything the filesystem
//! decides by itself stands in this crate: which requests it makes, in which order, with which
//! arguments, and what it answers for each reply that may come back.
//!
//! - `request` makes the requests, and says what it takes for one to have been made; `driver`
//!   keeps the history of them.
//! - `protocol` describes each operation as a run of requests; the contracts in `fs` are stated
//!   over these runs.
//! - `tree` models the inodes and directories that a sound backend holds, and says what each
//!   operation means there; `contents` and `counts` do so for the contents of inodes and for the
//!   superblock, `ledger` and `library` for what becomes of inodes and for the C library as a
//!   whole, and `world` holds all of it in one.
//! - `laws` holds what follows for the filesystem as a whole, and how a backend is shown sound;
//!   `effects` tells what each operation does, place by place and inode by inode, and what it
//!   leaves alone; `outcomes` tells what it answers; `calls` and `formats` tell what the requests
//!   in a history, and numbers and codes, stand for.

pub mod backend;
pub mod blockdev;
pub mod calls;
pub mod contents;
pub mod counts;
pub mod driver;
pub mod effects;
pub mod error;
pub mod formats;
pub mod fs;
pub mod inode;
pub mod laws;
pub mod ledger;
mod lemmas;
pub mod library;
pub mod outcomes;
pub mod protocol;
pub mod request;
pub mod superblock;
pub mod tree;
pub mod world;

pub use crate::backend::Backend;
pub use crate::blockdev::{BlockDevice, Ext4BlockDevice, EXT4_DEV_BSIZE};
pub use crate::driver::{DirLookupResult, Driver};
pub use crate::error::{Ext4Error, Ext4Result, Failure, MountError};
pub use crate::fs::{DummyHal, Ext4Filesystem, FsConfig, StatFs, SystemHal, WritebackGuard};
pub use crate::inode::{FileAttr, InodeType};
pub use crate::superblock::{Le32, Superblock};
