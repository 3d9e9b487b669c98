//! What stands in a history took place: each request is a call of the backend.

use crate::backend::{Backend, Change, ChangeView, EntryOp, Field, LibCall, Touch};
use crate::blockdev::{BlockDevice, Ext4BlockDevice};
use crate::error::{Ext4Error, Ext4Result};
use crate::inode::{FileAttr, InodeType};
use crate::request;
use crate::request::{Event, Handle, Step};
use crate::superblock::{Superblock, SuperblockView};
use vstd::prelude::*;

verus! {

/// A call of the C library in the history was made, with that status.
pub proof fn law_call_was_made<Dev: BlockDevice, B: Backend<Dev>>(
    e: Event<Dev, B>,
    call: LibCall,
    code: i32,
)
    requires
        request::made(e),
        e.step == (Step::Call { call, code }),
    ensures
        exists|
            b: &mut B,
            d: &mut Ext4BlockDevice<Dev>,
        |
            {
                &&& #[trigger] call_ensures(<B as Backend<Dev>>::call, (b, d, call), code)
                &&& *b == e.before.backend
                &&& *final(b) == e.after.backend
                &&& Some(*d) == e.before.device
                &&& Some(*final(d)) == e.after.device
            },
{
}

/// A superblock in the history was told by the backend.
pub proof fn law_superblock_was_asked_for<Dev: BlockDevice, B: Backend<Dev>>(
    e: Event<Dev, B>,
    sb: SuperblockView,
)
    requires
        request::made(e),
        e.step == (Step::Superblock { sb }),
    ensures
        exists|
            b: &mut B,
            told: Superblock,
        |
            {
                &&& #[trigger] call_ensures(<B as Backend<Dev>>::superblock, (b,), told)
                &&& *b == e.before.backend
                &&& *final(b) == e.after.backend
                &&& told@ == sb
            },
        e.after.device == e.before.device,
{
}

/// An item size in the history was told by the backend.
pub proof fn law_item_size_was_asked_for<Dev: BlockDevice, B: Backend<Dev>>(
    e: Event<Dev, B>,
    size: u32,
)
    requires
        request::made(e),
        e.step == (Step::CacheItemSize { size }),
    ensures
        exists|
            b: &mut B,
            n: u32,
        |
            {
                &&& #[trigger] call_ensures(<B as Backend<Dev>>::cache_item_size, (b,), n)
                &&& *b == e.before.backend
                &&& *final(b) == e.after.backend
                &&& n == size
            },
        e.after.device == e.before.device,
{
}

/// An inode in the history was opened by the backend, under its number.
pub proof fn law_inode_was_opened<Dev: BlockDevice, B: Backend<Dev>>(
    e: Event<Dev, B>,
    ino: u32,
    reply: Result<(), i32>,
)
    requires
        request::made(e),
        e.step == (Step::Open { ino, reply }),
    ensures
        exists|
            b: &mut B,
            d: &mut Ext4BlockDevice<Dev>,
            n: u32,
            r: Result<B::Inode, i32>,
        |
            {
                &&& #[trigger] call_ensures(<B as Backend<Dev>>::open, (b, d, n), r)
                &&& *b == e.before.backend
                &&& *final(b) == e.after.backend
                &&& Some(*d) == e.before.device
                &&& Some(*final(d)) == e.after.device
                &&& n == ino
                &&& match r {
                    Ok(handle) => {
                        &&& reply is Ok
                        &&& e.gives == set![Handle::<B::Inode, B::Entry>::Inode(ino, handle)]
                    },
                    Err(code) => reply == Err::<(), i32>(code),
                }
            },
{
}

/// An inode in the history was allocated by the backend, with that number.
pub proof fn law_inode_was_allocated<Dev: BlockDevice, B: Backend<Dev>>(
    e: Event<Dev, B>,
    entry_type: u32,
    reply: Result<u32, i32>,
)
    requires
        request::made(e),
        e.step == (Step::Alloc { entry_type, reply }),
    ensures
        exists|
            b: &mut B,
            d: &mut Ext4BlockDevice<Dev>,
            n: u32,
            r: Result<(u32, B::Inode), i32>,
        |
            {
                &&& #[trigger] call_ensures(<B as Backend<Dev>>::allocate, (b, d, n), r)
                &&& *b == e.before.backend
                &&& *final(b) == e.after.backend
                &&& Some(*d) == e.before.device
                &&& Some(*final(d)) == e.after.device
                &&& n == entry_type
                &&& match r {
                    Ok((ino, handle)) => {
                        &&& reply == Ok::<u32, i32>(ino)
                        &&& e.gives == set![Handle::<B::Inode, B::Entry>::Inode(ino, handle)]
                    },
                    Err(code) => reply == Err::<u32, i32>(code),
                }
            },
{
}

/// A type in the history was told by the backend, of that inode.
pub proof fn law_type_was_asked_for<Dev: BlockDevice, B: Backend<Dev>>(
    e: Event<Dev, B>,
    ino: u32,
    ty: InodeType,
)
    requires
        request::made(e),
        e.step == (Step::InodeType { ino, ty }),
    ensures
        exists|
            b: &mut B,
            i: &B::Inode,
        |
            {
                &&& #[trigger] call_ensures(<B as Backend<Dev>>::inode_type, (b, i), ty)
                &&& *b == e.before.backend
                &&& *final(b) == e.after.backend
                &&& e.takes == set![Handle::<B::Inode, B::Entry>::Inode(ino, *i)]
            },
        e.after.device == e.before.device,
{
}

/// A number in the history was told by the backend, of that inode.
pub proof fn law_field_was_asked_for<Dev: BlockDevice, B: Backend<Dev>>(
    e: Event<Dev, B>,
    ino: u32,
    field: Field,
    value: u32,
)
    requires
        request::made(e),
        e.step == (Step::Field { ino, field, value }),
    ensures
        exists|
            b: &mut B,
            i: &B::Inode,
            n: u32,
        |
            {
                &&& #[trigger] call_ensures(<B as Backend<Dev>>::field, (b, i, field), n)
                &&& *b == e.before.backend
                &&& *final(b) == e.after.backend
                &&& n == value
                &&& e.takes == set![Handle::<B::Inode, B::Entry>::Inode(ino, *i)]
            },
        e.after.device == e.before.device,
{
}

/// A change in the history that has no status was made, of that inode.
pub proof fn law_inode_was_touched<Dev: BlockDevice, B: Backend<Dev>>(
    e: Event<Dev, B>,
    ino: u32,
    touch: Touch,
)
    requires
        request::made(e),
        e.step == (Step::Touch { ino, touch }),
    ensures
        exists|
            b: &mut B,
            d: &mut Ext4BlockDevice<Dev>,
            i: &mut B::Inode,
        |
            {
                &&& #[trigger] call_ensures(<B as Backend<Dev>>::touch, (b, d, i, touch), ())
                &&& *b == e.before.backend
                &&& *final(b) == e.after.backend
                &&& Some(*d) == e.before.device
                &&& Some(*final(d)) == e.after.device
                &&& e.takes == set![Handle::<B::Inode, B::Entry>::Inode(ino, *i)]
                &&& e.gives == set![Handle::<B::Inode, B::Entry>::Inode(ino, *final(i))]
            },
{
}

/// A change of contents in the history was made, of that inode, with that reply.
pub proof fn law_inode_was_changed<Dev: BlockDevice, B: Backend<Dev>>(
    e: Event<Dev, B>,
    ino: u32,
    change: ChangeView,
    reply: Ext4Result<()>,
)
    requires
        request::made(e),
        e.step == (Step::Change { ino, change, reply }),
    ensures
        exists|
            b: &mut B,
            d: &mut Ext4BlockDevice<Dev>,
            i: &mut B::Inode,
            c: Change<'_>,
        |
            {
                &&& #[trigger] call_ensures(<B as Backend<Dev>>::change, (b, d, i, c), reply)
                &&& *b == e.before.backend
                &&& *final(b) == e.after.backend
                &&& Some(*d) == e.before.device
                &&& Some(*final(d)) == e.after.device
                &&& c@ == change
                &&& e.takes == set![Handle::<B::Inode, B::Entry>::Inode(ino, *i)]
                &&& e.gives == set![Handle::<B::Inode, B::Entry>::Inode(ino, *final(i))]
            },
{
}

/// An entry in the history was added or removed, with that reply.
pub proof fn law_entry_was_changed<Dev: BlockDevice, B: Backend<Dev>>(
    e: Event<Dev, B>,
    op: EntryOp,
    dir: u32,
    name: Seq<char>,
    child: u32,
    reply: Ext4Result<()>,
)
    requires
        request::made(e),
        e.step == (Step::Entry { op, dir, name, child, reply }),
    ensures
        exists|
            b: &mut B,
            d: &mut Ext4BlockDevice<Dev>,
            i: &mut B::Inode,
            n: &str,
            c: &mut B::Inode,
        |
            {
                &&& #[trigger] call_ensures(<B as Backend<Dev>>::entry, (b, d, op, i, n, c), reply)
                &&& *b == e.before.backend
                &&& *final(b) == e.after.backend
                &&& Some(*d) == e.before.device
                &&& Some(*final(d)) == e.after.device
                &&& n@ == name
                &&& e.takes == set![
                    Handle::<B::Inode, B::Entry>::Inode(dir, *i),
                    Handle::Inode(child, *c),
                ]
                &&& e.gives == set![
                    Handle::<B::Inode, B::Entry>::Inode(dir, *final(i)),
                    Handle::Inode(child, *final(c)),
                ]
            },
{
}

/// The backend was asked whether that inode has children, with that reply.
pub proof fn law_children_were_asked_for<Dev: BlockDevice, B: Backend<Dev>>(
    e: Event<Dev, B>,
    ino: u32,
    reply: Ext4Result<bool>,
)
    requires
        request::made(e),
        e.step == (Step::HasChildren { ino, reply }),
    ensures
        exists|
            b: &mut B,
            d: &mut Ext4BlockDevice<Dev>,
            i: &mut B::Inode,
        |
            {
                &&& #[trigger] call_ensures(<B as Backend<Dev>>::has_children, (b, d, i), reply)
                &&& *b == e.before.backend
                &&& *final(b) == e.after.backend
                &&& Some(*d) == e.before.device
                &&& Some(*final(d)) == e.after.device
                &&& e.takes == set![Handle::<B::Inode, B::Entry>::Inode(ino, *i)]
                &&& e.gives == set![Handle::<B::Inode, B::Entry>::Inode(ino, *final(i))]
            },
{
}

/// A name in the history was looked up in that directory, with that reply.
pub proof fn law_name_was_looked_up<Dev: BlockDevice, B: Backend<Dev>>(
    e: Event<Dev, B>,
    dir: u32,
    name: Seq<char>,
    reply: Ext4Result<u32>,
)
    requires
        request::made(e),
        e.step == (Step::Lookup { dir, name, reply }),
    ensures
        exists|
            b: &mut B,
            d: &mut Ext4BlockDevice<Dev>,
            i: B::Inode,
            n: &str,
            r: Ext4Result<(u32, B::Entry)>,
        |
            {
                &&& #[trigger] call_ensures(<B as Backend<Dev>>::lookup, (b, d, i, n), r)
                &&& *b == e.before.backend
                &&& *final(b) == e.after.backend
                &&& Some(*d) == e.before.device
                &&& Some(*final(d)) == e.after.device
                &&& n@ == name
                &&& e.takes == set![Handle::<B::Inode, B::Entry>::Inode(dir, i)]
                &&& match r {
                    Ok((ino, handle)) => reply == Ok::<u32, Ext4Error>(ino) && e.gives == set![
                        Handle::<B::Inode, B::Entry>::Entry(dir, name, handle),
                    ],
                    Err(error) => reply == Err::<u32, Ext4Error>(error),
                }
            },
{
}

/// An entry in the history was made to name that inode.
pub proof fn law_entry_was_redirected<Dev: BlockDevice, B: Backend<Dev>>(
    e: Event<Dev, B>,
    dir: u32,
    name: Seq<char>,
    ino: u32,
)
    requires
        request::made(e),
        e.step == (Step::Redirect { dir, name, ino }),
    ensures
        exists|
            b: &mut B,
            d: &mut Ext4BlockDevice<Dev>,
            found: &mut B::Entry,
            n: u32,
        |
            {
                &&& #[trigger] call_ensures(<B as Backend<Dev>>::redirect, (b, d, found, n), ())
                &&& *b == e.before.backend
                &&& *final(b) == e.after.backend
                &&& Some(*d) == e.before.device
                &&& Some(*final(d)) == e.after.device
                &&& n == ino
                &&& e.takes == set![Handle::<B::Inode, B::Entry>::Entry(dir, name, *found)]
                &&& e.gives == set![Handle::<B::Inode, B::Entry>::Entry(dir, name, *final(found))]
            },
{
}

/// A directory in the history was read from that offset on, with that reply.
pub proof fn law_directory_was_read<Dev: BlockDevice, B: Backend<Dev>>(
    e: Event<Dev, B>,
    ino: u32,
    offset: u64,
    reply: Ext4Result<()>,
)
    requires
        request::made(e),
        e.step == (Step::ReadDir { ino, offset, reply }),
    ensures
        exists|
            b: &mut B,
            d: &mut Ext4BlockDevice<Dev>,
            i: B::Inode,
            n: u64,
            r: Ext4Result<B::Reader>,
        |
            {
                &&& #[trigger] call_ensures(<B as Backend<Dev>>::read_dir, (b, d, i, n), r)
                &&& *b == e.before.backend
                &&& *final(b) == e.after.backend
                &&& Some(*d) == e.before.device
                &&& Some(*final(d)) == e.after.device
                &&& n == offset
                &&& e.takes == set![Handle::<B::Inode, B::Entry>::Inode(ino, i)]
                &&& match r {
                    Ok(_) => reply is Ok,
                    Err(error) => reply == Err::<(), Ext4Error>(error),
                }
            },
{
}

/// An inode in the history was read from that offset on, into a buffer of that size.
pub proof fn law_inode_was_read<Dev: BlockDevice, B: Backend<Dev>>(
    e: Event<Dev, B>,
    ino: u32,
    offset: u64,
    space: int,
    data: Seq<u8>,
    reply: Ext4Result<usize>,
)
    requires
        request::made(e),
        e.step == (Step::ReadAt { ino, offset, space, data, reply }),
    ensures
        exists|
            b: &mut B,
            d: &mut Ext4BlockDevice<Dev>,
            i: &mut B::Inode,
            s: &mut [u8],
            n: u64,
        |
            {
                &&& #[trigger] call_ensures(<B as Backend<Dev>>::read_at, (b, d, i, s, n), reply)
                &&& *b == e.before.backend
                &&& *final(b) == e.after.backend
                &&& Some(*d) == e.before.device
                &&& Some(*final(d)) == e.after.device
                &&& n == offset
                &&& s@.len() == space
                &&& final(s)@ == data
                &&& e.takes == set![Handle::<B::Inode, B::Entry>::Inode(ino, *i)]
                &&& e.gives == set![Handle::<B::Inode, B::Entry>::Inode(ino, *final(i))]
            },
{
}

/// An inode in the history was written to from that offset on, with those bytes.
pub proof fn law_inode_was_written<Dev: BlockDevice, B: Backend<Dev>>(
    e: Event<Dev, B>,
    ino: u32,
    offset: u64,
    data: Seq<u8>,
    reply: Ext4Result<usize>,
)
    requires
        request::made(e),
        e.step == (Step::WriteAt { ino, offset, data, reply }),
    ensures
        exists|
            b: &mut B,
            d: &mut Ext4BlockDevice<Dev>,
            i: &mut B::Inode,
            s: &[u8],
            n: u64,
        |
            {
                &&& #[trigger] call_ensures(<B as Backend<Dev>>::write_at, (b, d, i, s, n), reply)
                &&& *b == e.before.backend
                &&& *final(b) == e.after.backend
                &&& Some(*d) == e.before.device
                &&& Some(*final(d)) == e.after.device
                &&& n == offset
                &&& s@ == data
                &&& e.takes == set![Handle::<B::Inode, B::Entry>::Inode(ino, *i)]
                &&& e.gives == set![Handle::<B::Inode, B::Entry>::Inode(ino, *final(i))]
            },
{
}

/// Attributes in the history were told by the backend, of that inode.
pub proof fn law_attributes_were_asked_for<Dev: BlockDevice, B: Backend<Dev>>(
    e: Event<Dev, B>,
    ino: u32,
    attr: FileAttr,
)
    requires
        request::made(e),
        e.step == (Step::Attributes { ino, attr }),
    ensures
        exists|
            b: &mut B,
            d: &mut Ext4BlockDevice<Dev>,
            i: &B::Inode,
        |
            {
                &&& #[trigger] call_ensures(<B as Backend<Dev>>::attributes, (b, d, i), attr)
                &&& *b == e.before.backend
                &&& *final(b) == e.after.backend
                &&& Some(*d) == e.before.device
                &&& Some(*final(d)) == e.after.device
                &&& e.takes == set![Handle::<B::Inode, B::Entry>::Inode(ino, *i)]
            },
{
}

/// A flush in the history was made, of the device itself; the backend had no part in it.
pub proof fn law_device_was_flushed<Dev: BlockDevice, B: Backend<Dev>>(
    e: Event<Dev, B>,
    reply: Ext4Result<()>,
)
    requires
        request::made(e),
        e.step == (Step::FlushDevice { reply }),
    ensures
        e.after.backend == e.before.backend,
        e.before.device is Some,
        e.after.device is Some,
        e.after.device.unwrap().spec_layout() == e.before.device.unwrap().spec_layout(),
        exists|dev: &mut Dev|
            {
                &&& #[trigger] call_ensures(Dev::flush_cache, (dev,), reply)
                &&& *dev == e.before.device.unwrap().device()
                &&& *final(dev) == e.after.device.unwrap().device()
            },
{
}

} // verus!
