//! The operations of the filesystem as runs of requests to the backend.
//!
//! Each function here reads one operation off a history, from position `i` on. It gives what
//! the operation comes to and the position after its last request, or `None` if the history
//! does not go on like that operation. Which request comes next, and the result in the end,
//! depend on the replies that the history holds.

use crate::backend::{ChangeView, EntryOp, Field, LibCall, Touch};
use crate::blockdev;
use crate::request::Step;
use crate::error;
use crate::error::{Ext4Error, Ext4Result, Failure, EISDIR, ENOENT, ENOTEMPTY, ENOTSUP, EOK};
use crate::inode;
use crate::inode::{FileAttr, InodeType};
use crate::superblock::SuperblockView;
use vstd::prelude::*;

verus! {

/// What a run comes to, and the position after it.
pub type Run<T> = Option<(Result<T, Failure>, int)>;

/// An error as a failure.
pub open spec fn lift<T>(result: Ext4Result<T>) -> Result<T, Failure> {
    match result {
        Ok(value) => Ok(value),
        Err(e) => Err(Failure::Error(e)),
    }
}

/// Whether `later` goes on from `earlier`.
pub open spec fn extends(earlier: Seq<Step>, later: Seq<Step>) -> bool {
    &&& earlier.len() <= later.len()
    &&& forall|k: int| 0 <= k < earlier.len() ==> #[trigger] later[k] == earlier[k]
}

/// Whether `step` is the request at position `i`.
pub open spec fn is_at(h: Seq<Step>, i: int, step: Step) -> bool {
    0 <= i < h.len() && h[i] == step
}

/// Opening an inode.
pub open spec fn open_run(h: Seq<Step>, i: int, ino: u32) -> Run<()> {
    if 0 <= i < h.len() {
        match h[i] {
            Step::Open { ino: n, reply } => if n == ino {
                match reply {
                    Ok(_) => Some((Ok(()), i + 1)),
                    Err(code) => Some(
                        (
                            Err(
                                Failure::Error(
                                    Ext4Error { code, context: Some("ext4_fs_get_inode_ref") },
                                ),
                            ),
                            i + 1,
                        ),
                    ),
                }
            } else {
                None
            },
            _ => None,
        }
    } else {
        None
    }
}

/// Opening an inode that is open already: that must not fail.
pub open spec fn clone_run(h: Seq<Step>, i: int, ino: u32) -> Run<()> {
    match open_run(h, i, ino) {
        Some((Err(_), end)) => Some((Err(Failure::Broken("inode ref clone failed")), end)),
        run => run,
    }
}

/// A call of the C library of which the status counts.
pub open spec fn call_run(h: Seq<Step>, i: int, call: LibCall, context: &'static str) -> Run<()> {
    if 0 <= i < h.len() {
        match h[i] {
            Step::Call { call: c, code } => if c == call {
                Some((lift(error::status(code, context)), i + 1))
            } else {
                None
            },
            _ => None,
        }
    } else {
        None
    }
}

/// Whether position `i` holds this call of the C library, with whatever status.
pub open spec fn call_at(h: Seq<Step>, i: int, call: LibCall) -> bool {
    0 <= i < h.len() && (h[i] matches Step::Call { call: c, .. } && c == call)
}

/// Asking for the superblock.
pub open spec fn superblock_step(h: Seq<Step>, i: int) -> Option<SuperblockView> {
    if 0 <= i < h.len() {
        match h[i] {
            Step::Superblock { sb } => Some(sb),
            _ => None,
        }
    } else {
        None
    }
}

/// Asking for the type of an inode.
pub open spec fn type_step(h: Seq<Step>, i: int, ino: u32) -> Option<InodeType> {
    if 0 <= i < h.len() {
        match h[i] {
            Step::InodeType { ino: n, ty } => if n == ino {
                Some(ty)
            } else {
                None
            },
            _ => None,
        }
    } else {
        None
    }
}

/// Asking for a number that an inode holds.
pub open spec fn field_step(h: Seq<Step>, i: int, ino: u32, field: Field) -> Option<u32> {
    if 0 <= i < h.len() {
        match h[i] {
            Step::Field { ino: n, field: f, value } => if n == ino && f == field {
                Some(value)
            } else {
                None
            },
            _ => None,
        }
    } else {
        None
    }
}

/// Changing the contents of an inode.
pub open spec fn change_run(h: Seq<Step>, i: int, ino: u32, change: ChangeView) -> Run<()> {
    if 0 <= i < h.len() {
        match h[i] {
            Step::Change { ino: n, change: c, reply } => if n == ino && c == change {
                Some((lift(reply), i + 1))
            } else {
                None
            },
            _ => None,
        }
    } else {
        None
    }
}

/// Adding or removing a directory entry.
pub open spec fn entry_run(
    h: Seq<Step>,
    i: int,
    op: EntryOp,
    dir: u32,
    name: Seq<char>,
    child: u32,
) -> Run<()> {
    if 0 <= i < h.len() {
        match h[i] {
            Step::Entry { op: o, dir: d, name: n, child: c, reply } => if o == op && d == dir && n
                == name && c == child {
                Some((lift(reply), i + 1))
            } else {
                None
            },
            _ => None,
        }
    } else {
        None
    }
}

/// Asking whether a directory has children.
pub open spec fn has_children_run(h: Seq<Step>, i: int, ino: u32) -> Run<bool> {
    if 0 <= i < h.len() {
        match h[i] {
            Step::HasChildren { ino: n, reply } => if n == ino {
                Some((lift(reply), i + 1))
            } else {
                None
            },
            _ => None,
        }
    } else {
        None
    }
}

/// Looking a name up in an open directory.
pub open spec fn find_run(h: Seq<Step>, i: int, dir: u32, name: Seq<char>) -> Run<u32> {
    if 0 <= i < h.len() {
        match h[i] {
            Step::Lookup { dir: d, name: n, reply } => if d == dir && n == name {
                Some((lift(reply), i + 1))
            } else {
                None
            },
            _ => None,
        }
    } else {
        None
    }
}

/// `lookup`: opens the directory and looks the name up. The result is the inode named.
pub open spec fn lookup_run(h: Seq<Step>, i: int, dir: u32, name: Seq<char>) -> Run<u32> {
    match open_run(h, i, dir) {
        None => None,
        Some((Err(f), i)) => Some((Err(f), i)),
        Some((Ok(_), i)) => find_run(h, i, dir, name),
    }
}

/// `set_len` and `set_symlink`: opens the inode and changes it.
pub open spec fn edit_run(h: Seq<Step>, i: int, ino: u32, change: ChangeView) -> Run<()> {
    match open_run(h, i, ino) {
        None => None,
        Some((Err(f), i)) => Some((Err(f), i)),
        Some((Ok(_), i)) => change_run(h, i, ino, change),
    }
}

/// `get_attr`: opens the inode and asks for its attributes.
pub open spec fn get_attr_run(h: Seq<Step>, i: int, ino: u32) -> Run<FileAttr> {
    match open_run(h, i, ino) {
        None => None,
        Some((Err(f), i)) => Some((Err(f), i)),
        Some((Ok(_), i)) => if 0 <= i < h.len() {
            match h[i] {
                Step::Attributes { ino: n, attr } => if n == ino {
                    Some((Ok(attr), i + 1))
                } else {
                    None
                },
                _ => None,
            }
        } else {
            None
        },
    }
}

/// `read_at`: opens the inode and reads into a buffer that holds `before`. Besides the result,
/// this gives what the buffer holds afterwards.
pub open spec fn read_at_run(
    h: Seq<Step>,
    i: int,
    ino: u32,
    before: Seq<u8>,
    offset: u64,
) -> Option<(Result<usize, Failure>, Seq<u8>, int)> {
    match open_run(h, i, ino) {
        None => None,
        Some((Err(f), i)) => Some((Err(f), before, i)),
        Some((Ok(_), i)) => if 0 <= i < h.len() {
            match h[i] {
                Step::ReadAt { ino: n, offset: o, space, data, reply } => if n == ino && o
                    == offset && space == before.len() {
                    Some((lift(reply), data, i + 1))
                } else {
                    None
                },
                _ => None,
            }
        } else {
            None
        },
    }
}

/// `write_at`: opens the inode and writes the bytes.
pub open spec fn write_at_run(
    h: Seq<Step>,
    i: int,
    ino: u32,
    bytes: Seq<u8>,
    offset: u64,
) -> Run<usize> {
    match open_run(h, i, ino) {
        None => None,
        Some((Err(f), i)) => Some((Err(f), i)),
        Some((Ok(_), i)) => if 0 <= i < h.len() {
            match h[i] {
                Step::WriteAt { ino: n, offset: o, data, reply } => if n == ino && o == offset
                    && data == bytes {
                    Some((lift(reply), i + 1))
                } else {
                    None
                },
                _ => None,
            }
        } else {
            None
        },
    }
}

/// `read_dir`: opens the directory and starts reading it.
pub open spec fn read_dir_run(h: Seq<Step>, i: int, ino: u32, offset: u64) -> Run<()> {
    match open_run(h, i, ino) {
        None => None,
        Some((Err(f), i)) => Some((Err(f), i)),
        Some((Ok(_), i)) => if 0 <= i < h.len() {
            match h[i] {
                Step::ReadDir { ino: n, offset: o, reply } => if n == ino && o == offset {
                    Some((lift(reply), i + 1))
                } else {
                    None
                },
                _ => None,
            }
        } else {
            None
        },
    }
}

/// `alloc_inode`: allocates an inode and sets up its blocks. The result is the new inode.
pub open spec fn alloc_run(h: Seq<Step>, i: int, ty: InodeType) -> Run<u32> {
    if 0 <= i < h.len() {
        match h[i] {
            Step::Alloc { entry_type: t, reply } => if t == inode::entry_type(ty) {
                match reply {
                    Err(code) => Some(
                        (
                            Err(
                                Failure::Error(
                                    Ext4Error { code, context: Some("ext4_fs_get_inode_ref") },
                                ),
                            ),
                            i + 1,
                        ),
                    ),
                    Ok(ino) => if is_at(h, i + 1, Step::Touch { ino, touch: Touch::BlocksInit }) {
                        Some((Ok(ino), i + 2))
                    } else {
                        None
                    },
                }
            } else {
                None
            },
            _ => None,
        }
    } else {
        None
    }
}

/// The first half of `create`: a new inode under `name` in `parent`.
pub open spec fn place_run(
    h: Seq<Step>,
    i: int,
    parent: u32,
    name: Seq<char>,
    ty: InodeType,
) -> Run<u32> {
    match alloc_run(h, i, ty) {
        None => None,
        Some((Err(f), i)) => Some((Err(f), i)),
        Some((Ok(child), i)) => match open_run(h, i, parent) {
            None => None,
            Some((Err(f), i)) => Some((Err(f), i)),
            Some((Ok(_), i)) => match entry_run(h, i, EntryOp::Add, parent, name, child) {
                None => None,
                Some((Err(f), i)) => Some((Err(f), i)),
                Some((Ok(_), i)) => Some((Ok(child), i)),
            },
        },
    }
}

/// The entry `.` of a new directory.
pub open spec fn dot_run(h: Seq<Step>, i: int, child: u32) -> Run<()> {
    match clone_run(h, i, child) {
        None => None,
        Some((Err(f), i)) => Some((Err(f), i)),
        Some((Ok(_), i)) => entry_run(h, i, EntryOp::Add, child, "."@, child),
    }
}

/// What `create` adds for a directory: the entries `.` and `..`, after which the directory
/// must have two links.
pub open spec fn dots_run(h: Seq<Step>, i: int, parent: u32, child: u32) -> Run<()> {
    match dot_run(h, i, child) {
        None => None,
        Some((Err(f), i)) => Some((Err(f), i)),
        Some((Ok(_), i)) => match entry_run(h, i, EntryOp::Add, child, ".."@, parent) {
            None => None,
            Some((Err(f), i)) => Some((Err(f), i)),
            Some((Ok(_), i)) => match field_step(h, i, child, Field::Nlink) {
                None => None,
                Some(links) => if links == 2 {
                    Some((Ok(()), i + 1))
                } else {
                    Some((Err(Failure::Broken("a new directory must have two links")), i + 1))
                },
            },
        },
    }
}

/// The end of `create`: the permission bits of the new inode.
pub open spec fn permit_run(h: Seq<Step>, i: int, child: u32, permissions: u32) -> Run<u32> {
    match field_step(h, i, child, Field::Mode) {
        None => None,
        Some(mode) => {
            let merged = inode::mode_with_permissions(mode, permissions) as u32;
            if is_at(h, i + 1, Step::Touch { ino: child, touch: Touch::SetMode(merged) }) {
                Some((Ok(child), i + 2))
            } else {
                None
            }
        },
    }
}

/// `create`. The result is the new inode.
pub open spec fn create_run(
    h: Seq<Step>,
    i: int,
    parent: u32,
    name: Seq<char>,
    ty: InodeType,
    permissions: u32,
) -> Run<u32> {
    match place_run(h, i, parent, name, ty) {
        None => None,
        Some((Err(f), i)) => Some((Err(f), i)),
        Some((Ok(child), i)) => if ty == InodeType::Directory {
            match dots_run(h, i, parent, child) {
                None => None,
                Some((Err(f), i)) => Some((Err(f), i)),
                Some((Ok(_), i)) => permit_run(h, i, child, permissions),
            }
        } else {
            permit_run(h, i, child, permissions)
        },
    }
}

/// `link`: refuses directories, before anything is changed.
pub open spec fn link_run(h: Seq<Step>, i: int, dir: u32, name: Seq<char>, child: u32) -> Run<()> {
    match open_run(h, i, child) {
        None => None,
        Some((Err(f), i)) => Some((Err(f), i)),
        Some((Ok(_), i)) => match type_step(h, i, child) {
            None => None,
            Some(InodeType::Directory) => Some(
                (
                    Err(
                        Failure::Error(
                            Ext4Error { code: EISDIR, context: Some("cannot link to directory") },
                        ),
                    ),
                    i + 1,
                ),
            ),
            Some(_) => match open_run(h, i + 1, dir) {
                None => None,
                Some((Err(f), i)) => Some((Err(f), i)),
                Some((Ok(_), i)) => entry_run(h, i, EntryOp::Add, dir, name, child),
            },
        },
    }
}

/// The first part of `unlink`: which inode the name stands for. The directory and that inode
/// are open afterwards.
pub open spec fn target_run(h: Seq<Step>, i: int, dir: u32, name: Seq<char>) -> Run<u32> {
    match open_run(h, i, dir) {
        None => None,
        Some((Err(f), i)) => Some((Err(f), i)),
        Some((Ok(_), i)) => match clone_run(h, i, dir) {
            None => None,
            Some((Err(f), i)) => Some((Err(f), i)),
            Some((Ok(_), i)) => match find_run(h, i, dir, name) {
                None => None,
                Some((Err(f), i)) => Some((Err(f), i)),
                Some((Ok(child), i)) => match open_run(h, i, child) {
                    None => None,
                    Some((Err(f), i)) => Some((Err(f), i)),
                    Some((Ok(_), i)) => Some((Ok(child), i)),
                },
            },
        },
    }
}

/// `unlink` refuses directories that still have children.
pub open spec fn childless_run(h: Seq<Step>, i: int, child: u32) -> Run<()> {
    match clone_run(h, i, child) {
        None => None,
        Some((Err(f), i)) => Some((Err(f), i)),
        Some((Ok(_), i)) => match has_children_run(h, i, child) {
            None => None,
            Some((Err(f), i)) => Some((Err(f), i)),
            Some((Ok(true), i)) => Some(
                (Err(Failure::Error(Ext4Error { code: ENOTEMPTY, context: None })), i),
            ),
            Some((Ok(false), i)) => Some((Ok(()), i)),
        },
    }
}

/// `unlink` cuts a directory back to its first block.
pub open spec fn shrink_run(h: Seq<Step>, i: int, child: u32) -> Run<()> {
    match type_step(h, i, child) {
        None => None,
        Some(InodeType::Directory) => match superblock_step(h, i + 1) {
            None => None,
            Some(sb) => change_run(h, i + 2, child, ChangeView::Truncate(sb.block_size as u64)),
        },
        Some(_) => Some((Ok(()), i + 1)),
    }
}

/// `unlink` takes the entry away and, for a directory, the two links by `..` and `.`.
pub open spec fn detach_run(
    h: Seq<Step>,
    i: int,
    dir: u32,
    name: Seq<char>,
    child: u32,
) -> Run<()> {
    match entry_run(h, i, EntryOp::Remove, dir, name, child) {
        None => None,
        Some((Err(f), i)) => Some((Err(f), i)),
        Some((Ok(_), i)) => match type_step(h, i, child) {
            None => None,
            Some(InodeType::Directory) => if is_at(
                h,
                i + 1,
                Step::Touch { ino: dir, touch: Touch::DecNlink },
            ) && is_at(h, i + 2, Step::Touch { ino: child, touch: Touch::DecNlink }) {
                Some((Ok(()), i + 3))
            } else {
                None
            },
            Some(_) => Some((Ok(()), i + 1)),
        },
    }
}

/// `unlink` frees an inode without links.
pub open spec fn reap_run(h: Seq<Step>, i: int, child: u32) -> Run<()> {
    match field_step(h, i, child, Field::Nlink) {
        None => None,
        Some(links) => if links == 0 {
            match change_run(h, i + 1, child, ChangeView::Truncate(0)) {
                None => None,
                Some((Err(f), i)) => Some((Err(f), i)),
                Some((Ok(_), i)) => if is_at(
                    h,
                    i,
                    Step::Touch { ino: child, touch: Touch::SetDelTime(u32::MAX) },
                ) && is_at(h, i + 1, Step::Touch { ino: child, touch: Touch::MarkDirty }) && is_at(
                    h,
                    i + 2,
                    Step::Touch { ino: child, touch: Touch::Free },
                ) {
                    Some((Ok(()), i + 3))
                } else {
                    None
                },
            }
        } else {
            Some((Ok(()), i + 1))
        },
    }
}

/// `unlink`.
pub open spec fn unlink_run(h: Seq<Step>, i: int, dir: u32, name: Seq<char>) -> Run<()> {
    match target_run(h, i, dir, name) {
        None => None,
        Some((Err(f), i)) => Some((Err(f), i)),
        Some((Ok(child), i)) => match childless_run(h, i, child) {
            None => None,
            Some((Err(f), i)) => Some((Err(f), i)),
            Some((Ok(_), i)) => match shrink_run(h, i, child) {
                None => None,
                Some((Err(f), i)) => Some((Err(f), i)),
                Some((Ok(_), i)) => match detach_run(h, i, dir, name, child) {
                    None => None,
                    Some((Err(f), i)) => Some((Err(f), i)),
                    Some((Ok(_), i)) => reap_run(h, i, child),
                },
            },
        },
    }
}

/// `rename` makes room for the new name. That there was nothing under it is fine.
pub open spec fn clear_run(h: Seq<Step>, i: int, dir: u32, name: Seq<char>) -> Run<()> {
    match unlink_run(h, i, dir, name) {
        Some((Err(Failure::Error(e)), i)) => if e.code == ENOENT {
            Some((Ok(()), i))
        } else {
            Some((Err(Failure::Error(e)), i))
        },
        run => run,
    }
}

/// `rename` makes a directory that moves name its new parent, and counts the link by `..` there.
pub open spec fn reparent_run(h: Seq<Step>, i: int, src_dir: u32, dst_dir: u32, src: u32) -> Run<
    (),
> {
    match type_step(h, i, src) {
        None => None,
        Some(InodeType::Directory) => match clone_run(h, i + 1, src) {
            None => None,
            Some((Err(f), i)) => Some((Err(f), i)),
            Some((Ok(_), i)) => match find_run(h, i, src, ".."@) {
                None => None,
                Some((Err(f), i)) => Some((Err(f), i)),
                Some((Ok(_), i)) => if is_at(
                    h,
                    i,
                    Step::Redirect { dir: src, name: ".."@, ino: dst_dir },
                ) && is_at(h, i + 1, Step::Touch { ino: src_dir, touch: Touch::DecNlink })
                    && is_at(h, i + 2, Step::Touch { ino: dst_dir, touch: Touch::IncNlink }) {
                    Some((Ok(()), i + 3))
                } else {
                    None
                },
            },
        },
        Some(_) => Some((Ok(()), i + 1)),
    }
}

/// `rename` moves the entry.
pub open spec fn move_run(
    h: Seq<Step>,
    i: int,
    src_dir: u32,
    src_name: Seq<char>,
    dst_dir: u32,
    dst_name: Seq<char>,
    src: u32,
) -> Run<()> {
    match entry_run(h, i, EntryOp::Remove, src_dir, src_name, src) {
        None => None,
        Some((Err(f), i)) => Some((Err(f), i)),
        Some((Ok(_), i)) => entry_run(h, i, EntryOp::Add, dst_dir, dst_name, src),
    }
}

/// The main part of `rename`, once there is nothing under the new name.
pub open spec fn carry_run(
    h: Seq<Step>,
    i: int,
    src_dir: u32,
    src_name: Seq<char>,
    dst_dir: u32,
    dst_name: Seq<char>,
) -> Run<()> {
    match lookup_run(h, i, src_dir, src_name) {
        None => None,
        Some((Err(f), i)) => Some((Err(f), i)),
        Some((Ok(src), i)) => match open_run(h, i, src) {
            None => None,
            Some((Err(f), i)) => Some((Err(f), i)),
            Some((Ok(_), i)) => match reparent_run(h, i, src_dir, dst_dir, src) {
                None => None,
                Some((Err(f), i)) => Some((Err(f), i)),
                Some((Ok(_), i)) => move_run(h, i, src_dir, src_name, dst_dir, dst_name, src),
            },
        },
    }
}

/// `rename`.
pub open spec fn rename_run(
    h: Seq<Step>,
    i: int,
    src_dir: u32,
    src_name: Seq<char>,
    dst_dir: u32,
    dst_name: Seq<char>,
) -> Run<()> {
    match open_run(h, i, src_dir) {
        None => None,
        Some((Err(f), i)) => Some((Err(f), i)),
        Some((Ok(_), i)) => match open_run(h, i, dst_dir) {
            None => None,
            Some((Err(f), i)) => Some((Err(f), i)),
            Some((Ok(_), i)) => match clear_run(h, i, dst_dir, dst_name) {
                None => None,
                Some((Err(f), i)) => Some((Err(f), i)),
                Some((Ok(_), i)) => carry_run(h, i, src_dir, src_name, dst_dir, dst_name),
            },
        },
    }
}

/// `stat`: asks for the superblock.
pub open spec fn stat_run(h: Seq<Step>, i: int) -> Run<SuperblockView> {
    match superblock_step(h, i) {
        None => None,
        Some(sb) => Some((Ok(sb), i + 1)),
    }
}

/// Setting up the block device. If delayed writes cannot be had, it is taken down again.
pub open spec fn device_run(h: Seq<Step>, i: int) -> Run<()> {
    match call_run(h, i, LibCall::BlockInit(blockdev::unopened()), "ext4_block_init") {
        None => None,
        Some((Err(f), i)) => Some((Err(f), i)),
        Some((Ok(_), i)) => match call_run(
            h,
            i,
            LibCall::BlockCacheWriteBack(1),
            "ext4_block_cache_write_back",
        ) {
            None => None,
            Some((Err(f), i)) => if call_at(h, i, LibCall::BlockFini) {
                Some((Err(f), i + 1))
            } else {
                None
            },
            Some((Ok(_), i)) => Some((Ok(()), i)),
        },
    }
}

/// Loading the filesystem and giving the device a cache of blocks of the filesystem's size.
pub open spec fn load_run(h: Seq<Step>, i: int, bcache_size: u32) -> Run<()> {
    match call_run(h, i, LibCall::FsInit { read_only: false }, "ext4_fs_init") {
        None => None,
        Some((Err(f), i)) => Some((Err(f), i)),
        Some((Ok(_), i)) => match superblock_step(h, i) {
            None => None,
            Some(sb) => {
                let size = sb.block_size as u32;
                if call_at(h, i + 1, LibCall::BlockSetLbSize(size)) {
                    match call_run(
                        h,
                        i + 2,
                        LibCall::BcacheInitDynamic { count: bcache_size, item_size: size },
                        "ext4_bcache_init_dynamic",
                    ) {
                        None => None,
                        Some((Err(f), i)) => Some((Err(f), i)),
                        Some((Ok(_), i)) => if 0 <= i < h.len() {
                            match h[i] {
                                Step::CacheItemSize { size: n } => if n == size {
                                    Some((Ok(()), i + 1))
                                } else {
                                    Some(
                                        (
                                            Err(
                                                Failure::Error(
                                                    Ext4Error {
                                                        code: ENOTSUP,
                                                        context: Some("block size mismatch"),
                                                    },
                                                ),
                                            ),
                                            i + 1,
                                        ),
                                    )
                                },
                                _ => None,
                            }
                        } else {
                            None
                        },
                    }
                } else {
                    None
                }
            },
        },
    }
}

/// Taking a filesystem down. The result is the status of `ext4_fs_fini`; the rest is done
/// whatever it is.
pub open spec fn close_run(h: Seq<Step>, i: int) -> Option<(i32, int)> {
    if 0 <= i < h.len() {
        match h[i] {
            Step::Call { call: LibCall::FsFini, code } => if call_at(
                h,
                i + 1,
                LibCall::BcacheCleanup,
            ) && call_at(h, i + 2, LibCall::BlockFini) && call_at(
                h,
                i + 3,
                LibCall::BcacheFiniDynamic,
            ) && call_at(h, i + 4, LibCall::BlockFini) {
                Some((code, i + 5))
            } else {
                None
            },
            _ => None,
        }
    } else {
        None
    }
}

/// `flush`: has the C library write out what it holds back, then the device.
pub open spec fn flush_run(h: Seq<Step>, i: int) -> Run<()> {
    match call_run(h, i, LibCall::BlockCacheFlush, "ext4_cache_flush") {
        None => None,
        Some((Err(f), i)) => Some((Err(f), i)),
        Some((Ok(_), i)) => if 0 <= i < h.len() {
            match h[i] {
                Step::FlushDevice { reply } => Some((lift(reply), i + 1)),
                _ => None,
            }
        } else {
            None
        },
    }
}

/// `Ext4Filesystem::new`. What had been set up when something fails is taken down again: the
/// block device alone, or the whole filesystem once it stands. A failure comes with the status
/// of unmounting, which is `EOK` if that was not needed.
pub open spec fn new_run(h: Seq<Step>, i: int, bcache_size: u32) -> Option<
    (Result<(), (Failure, i32)>, int),
> {
    match device_run(h, i) {
        None => None,
        Some((Err(f), i)) => Some((Err((f, EOK)), i)),
        Some((Ok(_), i)) => match load_run(h, i, bcache_size) {
            None => None,
            Some((Err(f), i)) => if call_at(h, i, LibCall::BlockFini) {
                Some((Err((f, EOK)), i + 1))
            } else {
                None
            },
            Some((Ok(_), i)) => if call_at(h, i, LibCall::AttachFs) {
                match call_run(h, i + 1, LibCall::BlockBindBcache, "ext4_block_bind_bcache") {
                    None => None,
                    Some((Err(f), i)) => match close_run(h, i) {
                        None => None,
                        Some((code, i)) => Some((Err((f, code)), i)),
                    },
                    Some((Ok(_), i)) => Some((Ok(()), i)),
                }
            } else {
                None
            },
        },
    }
}

/// A history that goes on changes nothing about the runs it holds already.
pub(crate) proof fn lemma_target_stable(h1: Seq<Step>, h2: Seq<Step>, i: int, dir: u32, name: Seq<char>)
    requires
        extends(h1, h2),
        target_run(h1, i, dir, name) is Some,
    ensures
        target_run(h2, i, dir, name) == target_run(h1, i, dir, name),
{
}

pub(crate) proof fn lemma_childless_stable(h1: Seq<Step>, h2: Seq<Step>, i: int, child: u32)
    requires
        extends(h1, h2),
        childless_run(h1, i, child) is Some,
    ensures
        childless_run(h2, i, child) == childless_run(h1, i, child),
{
}

pub(crate) proof fn lemma_shrink_stable(h1: Seq<Step>, h2: Seq<Step>, i: int, child: u32)
    requires
        extends(h1, h2),
        shrink_run(h1, i, child) is Some,
    ensures
        shrink_run(h2, i, child) == shrink_run(h1, i, child),
{
}

pub(crate) proof fn lemma_detach_stable(
    h1: Seq<Step>,
    h2: Seq<Step>,
    i: int,
    dir: u32,
    name: Seq<char>,
    child: u32,
)
    requires
        extends(h1, h2),
        detach_run(h1, i, dir, name, child) is Some,
    ensures
        detach_run(h2, i, dir, name, child) == detach_run(h1, i, dir, name, child),
{
}

pub(crate) proof fn lemma_clear_stable(h1: Seq<Step>, h2: Seq<Step>, i: int, dir: u32, name: Seq<char>)
    requires
        extends(h1, h2),
        clear_run(h1, i, dir, name) is Some,
    ensures
        clear_run(h2, i, dir, name) == clear_run(h1, i, dir, name),
{
}

pub(crate) proof fn lemma_reparent_stable(
    h1: Seq<Step>,
    h2: Seq<Step>,
    i: int,
    src_dir: u32,
    dst_dir: u32,
    src: u32,
)
    requires
        extends(h1, h2),
        reparent_run(h1, i, src_dir, dst_dir, src) is Some,
    ensures
        reparent_run(h2, i, src_dir, dst_dir, src) == reparent_run(h1, i, src_dir, dst_dir, src),
{
}

pub(crate) proof fn lemma_place_stable(
    h1: Seq<Step>,
    h2: Seq<Step>,
    i: int,
    parent: u32,
    name: Seq<char>,
    ty: InodeType,
)
    requires
        extends(h1, h2),
        place_run(h1, i, parent, name, ty) is Some,
    ensures
        place_run(h2, i, parent, name, ty) == place_run(h1, i, parent, name, ty),
{
}

pub(crate) proof fn lemma_dots_stable(h1: Seq<Step>, h2: Seq<Step>, i: int, parent: u32, child: u32)
    requires
        extends(h1, h2),
        dots_run(h1, i, parent, child) is Some,
    ensures
        dots_run(h2, i, parent, child) == dots_run(h1, i, parent, child),
{
}

pub(crate) proof fn lemma_load_stable(h1: Seq<Step>, h2: Seq<Step>, i: int, bcache_size: u32)
    requires
        extends(h1, h2),
        load_run(h1, i, bcache_size) is Some,
    ensures
        load_run(h2, i, bcache_size) == load_run(h1, i, bcache_size),
{
}

/// A run ends within its history.
pub(crate) proof fn lemma_create_bounds(
    h: Seq<Step>,
    i: int,
    parent: u32,
    name: Seq<char>,
    ty: InodeType,
    permissions: u32,
)
    ensures
        create_run(h, i, parent, name, ty, permissions) matches Some((_, j)) ==> 0 <= i <= j
            <= h.len(),
{
}

pub(crate) proof fn lemma_rename_bounds(
    h: Seq<Step>,
    i: int,
    src_dir: u32,
    src_name: Seq<char>,
    dst_dir: u32,
    dst_name: Seq<char>,
)
    ensures
        rename_run(h, i, src_dir, src_name, dst_dir, dst_name) matches Some((_, j)) ==> 0 <= i <= j
            <= h.len(),
{
}

} // verus!
