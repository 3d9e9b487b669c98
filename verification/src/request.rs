//! Requests to the backend, one by one, and what it takes for a request to have been made.
//!
//! Each function here makes one request. Besides the reply, it tells (for proofs only) how
//! it left the backend, the block device and the handles it was given. `made` says of an event
//! that one of these functions was called and came to just that.

use crate::backend::{Backend, Change, ChangeView, EntryOp, Field, LibCall, Touch};
use crate::blockdev::{BlockDevice, Ext4BlockDevice};
use crate::error::{Ext4Error, Ext4Result};
use crate::inode::{FileAttr, InodeType};
use crate::superblock::{Superblock, SuperblockView};
use vstd::prelude::*;

verus! {

/// One request and what came back. Inodes stand for their numbers.
#[allow(inconsistent_fields)]
pub enum Step {
    Call { call: LibCall, code: i32 },
    Superblock { sb: SuperblockView },
    CacheItemSize { size: u32 },
    Open { ino: u32, reply: Result<(), i32> },
    Alloc { entry_type: u32, reply: Result<u32, i32> },
    InodeType { ino: u32, ty: InodeType },
    Field { ino: u32, field: Field, value: u32 },
    Touch { ino: u32, touch: Touch },
    Change { ino: u32, change: ChangeView, reply: Ext4Result<()> },
    Entry { op: EntryOp, dir: u32, name: Seq<char>, child: u32, reply: Ext4Result<()> },
    HasChildren { ino: u32, reply: Ext4Result<bool> },
    Lookup { dir: u32, name: Seq<char>, reply: Ext4Result<u32> },
    Redirect { dir: u32, name: Seq<char>, ino: u32 },
    ReadDir { ino: u32, offset: u64, reply: Ext4Result<()> },
    /// `space` is the length of the buffer on entry, `data` what it holds afterwards.
    ReadAt { ino: u32, offset: u64, space: int, data: Seq<u8>, reply: Ext4Result<usize> },
    WriteAt { ino: u32, offset: u64, data: Seq<u8>, reply: Ext4Result<usize> },
    Attributes { ino: u32, attr: FileAttr },
    /// The one request that goes to the device without the backend.
    FlushDevice { reply: Ext4Result<()> },
}

/// A backend and the block device under it, at one moment. There is no device before one is
/// set up.
pub struct State<Dev: BlockDevice, B: Backend<Dev>> {
    pub backend: B,
    pub device: Option<Ext4BlockDevice<Dev>>,
}

/// A handle of the backend, with what it is a handle on: an inode, or the entry of a directory
/// under a name.
pub enum Handle<I, E> {
    Inode(u32, I),
    Entry(u32, Seq<char>, E),
}

/// A request with what was there before and after it, the handles that the backend was given
/// for it, and those that it gave back, changed or new.
pub struct Event<Dev: BlockDevice, B: Backend<Dev>> {
    pub step: Step,
    pub before: State<Dev, B>,
    pub after: State<Dev, B>,
    pub takes: Set<Handle<B::Inode, B::Entry>>,
    pub gives: Set<Handle<B::Inode, B::Entry>>,
}

/// A reply with what it carries left out.
pub open spec fn outline<T, E>(reply: Result<T, E>) -> Result<(), E> {
    match reply {
        Ok(_) => Ok(()),
        Err(e) => Err(e),
    }
}

/// A call of the C library.
pub fn ask_call<Dev: BlockDevice, B: Backend<Dev>>(
    backend: &mut B,
    bdev: &mut Ext4BlockDevice<Dev>,
    call: LibCall,
) -> (out: (i32, Ghost<State<Dev, B>>))
    ensures
        exists|b: &mut B, d: &mut Ext4BlockDevice<Dev>, reply: i32|
            {
                &&& #[trigger] call_ensures(<B as Backend<Dev>>::call, (b, d, call), reply)
                &&& *b == *old(backend)
                &&& *d == *old(bdev)
                &&& reply == out.0
                &&& out.1@ == (State { backend: *final(b), device: Some(*final(d)) })
            },
        out.1@ == (State { backend: *final(backend), device: Some(*final(bdev)) }),
{
    let reply: i32 = backend.call(bdev, call);
    (reply, Ghost(State { backend: *backend, device: Some(*bdev) }))
}

/// Asking for the superblock.
pub fn ask_superblock<Dev: BlockDevice, B: Backend<Dev>>(
    backend: &mut B,
) -> (out: (Superblock, Ghost<B>))
    ensures
        exists|b: &mut B, reply: Superblock|
            {
                &&& #[trigger] call_ensures(<B as Backend<Dev>>::superblock, (b,), reply)
                &&& *b == *old(backend)
                &&& reply == out.0
                &&& out.1@ == *final(b)
            },
        out.1@ == *final(backend),
{
    let reply = backend.superblock();
    (reply, Ghost(*backend))
}

/// Asking for the size of an item of the block cache.
pub fn ask_cache_item_size<Dev: BlockDevice, B: Backend<Dev>>(
    backend: &mut B,
) -> (out: (u32, Ghost<B>))
    ensures
        exists|b: &mut B, reply: u32|
            {
                &&& #[trigger] call_ensures(<B as Backend<Dev>>::cache_item_size, (b,), reply)
                &&& *b == *old(backend)
                &&& reply == out.0
                &&& out.1@ == *final(b)
            },
        out.1@ == *final(backend),
{
    let reply: u32 = backend.cache_item_size();
    (reply, Ghost(*backend))
}

/// Opening an inode.
pub fn ask_open<Dev: BlockDevice, B: Backend<Dev>>(
    backend: &mut B,
    bdev: &mut Ext4BlockDevice<Dev>,
    ino: u32,
) -> (out: (Result<B::Inode, i32>, Ghost<State<Dev, B>>))
    ensures
        exists|b: &mut B, d: &mut Ext4BlockDevice<Dev>, reply: Result<B::Inode, i32>|
            {
                &&& #[trigger] call_ensures(<B as Backend<Dev>>::open, (b, d, ino), reply)
                &&& *b == *old(backend)
                &&& *d == *old(bdev)
                &&& reply == out.0
                &&& out.1@ == (State { backend: *final(b), device: Some(*final(d)) })
            },
        out.1@ == (State { backend: *final(backend), device: Some(*final(bdev)) }),
{
    let reply = backend.open(bdev, ino);
    (reply, Ghost(State { backend: *backend, device: Some(*bdev) }))
}

/// Allocating an inode.
pub fn ask_allocate<Dev: BlockDevice, B: Backend<Dev>>(
    backend: &mut B,
    bdev: &mut Ext4BlockDevice<Dev>,
    entry_type: u32,
) -> (out: (Result<(u32, B::Inode), i32>, Ghost<State<Dev, B>>))
    ensures
        exists|b: &mut B, d: &mut Ext4BlockDevice<Dev>, reply: Result<(u32, B::Inode), i32>|
            {
                &&& #[trigger] call_ensures(
                    <B as Backend<Dev>>::allocate,
                    (b, d, entry_type),
                    reply,
                )
                &&& *b == *old(backend)
                &&& *d == *old(bdev)
                &&& reply == out.0
                &&& out.1@ == (State { backend: *final(b), device: Some(*final(d)) })
            },
        out.1@ == (State { backend: *final(backend), device: Some(*final(bdev)) }),
{
    let reply = backend.allocate(bdev, entry_type);
    (reply, Ghost(State { backend: *backend, device: Some(*bdev) }))
}

/// Asking for the type of an inode.
pub fn ask_inode_type<Dev: BlockDevice, B: Backend<Dev>>(
    backend: &mut B,
    inode: &B::Inode,
) -> (out: (InodeType, Ghost<B>))
    ensures
        exists|b: &mut B, reply: InodeType|
            {
                &&& #[trigger] call_ensures(<B as Backend<Dev>>::inode_type, (b, inode), reply)
                &&& *b == *old(backend)
                &&& reply == out.0
                &&& out.1@ == *final(b)
            },
        out.1@ == *final(backend),
{
    let reply = backend.inode_type(inode);
    (reply, Ghost(*backend))
}

/// Asking for a number that an inode holds.
pub fn ask_field<Dev: BlockDevice, B: Backend<Dev>>(
    backend: &mut B,
    inode: &B::Inode,
    field: Field,
) -> (out: (u32, Ghost<B>))
    ensures
        exists|b: &mut B, reply: u32|
            {
                &&& #[trigger] call_ensures(<B as Backend<Dev>>::field, (b, inode, field), reply)
                &&& *b == *old(backend)
                &&& reply == out.0
                &&& out.1@ == *final(b)
            },
        out.1@ == *final(backend),
{
    let reply: u32 = backend.field(inode, field);
    (reply, Ghost(*backend))
}

/// A change of an inode that has no status.
pub fn ask_touch<Dev: BlockDevice, B: Backend<Dev>>(
    backend: &mut B,
    bdev: &mut Ext4BlockDevice<Dev>,
    inode: &mut B::Inode,
    touch: Touch,
) -> (out: Ghost<(State<Dev, B>, B::Inode)>)
    ensures
        exists|b: &mut B, d: &mut Ext4BlockDevice<Dev>, i: &mut B::Inode|
            {
                &&& #[trigger] call_ensures(<B as Backend<Dev>>::touch, (b, d, i, touch), ())
                &&& *b == *old(backend)
                &&& *d == *old(bdev)
                &&& *i == *old(inode)
                &&& out@ == (State { backend: *final(b), device: Some(*final(d)) }, *final(i))
            },
        out@ == (State { backend: *final(backend), device: Some(*final(bdev)) }, *final(inode)),
{
    backend.touch(bdev, inode, touch);
    Ghost((State { backend: *backend, device: Some(*bdev) }, *inode))
}

/// A change of the contents of an inode.
pub fn ask_change<Dev: BlockDevice, B: Backend<Dev>>(
    backend: &mut B,
    bdev: &mut Ext4BlockDevice<Dev>,
    inode: &mut B::Inode,
    change: Change<'_>,
) -> (out: (Ext4Result<()>, Ghost<(State<Dev, B>, B::Inode)>))
    ensures
        exists|b: &mut B, d: &mut Ext4BlockDevice<Dev>, i: &mut B::Inode, reply: Ext4Result<()>|
            {
                &&& #[trigger] call_ensures(<B as Backend<Dev>>::change, (b, d, i, change), reply)
                &&& *b == *old(backend)
                &&& *d == *old(bdev)
                &&& *i == *old(inode)
                &&& reply == out.0
                &&& out.1@ == (State { backend: *final(b), device: Some(*final(d)) }, *final(i))
            },
        out.1@ == (State { backend: *final(backend), device: Some(*final(bdev)) }, *final(inode)),
{
    let reply = backend.change(bdev, inode, change);
    (reply, Ghost((State { backend: *backend, device: Some(*bdev) }, *inode)))
}

/// Adding or removing a directory entry.
pub fn ask_entry<Dev: BlockDevice, B: Backend<Dev>>(
    backend: &mut B,
    bdev: &mut Ext4BlockDevice<Dev>,
    op: EntryOp,
    dir: &mut B::Inode,
    name: &str,
    child: &mut B::Inode,
) -> (out: (Ext4Result<()>, Ghost<(State<Dev, B>, B::Inode, B::Inode)>))
    ensures
        exists|
            b: &mut B,
            d: &mut Ext4BlockDevice<Dev>,
            i: &mut B::Inode,
            c: &mut B::Inode,
            reply: Ext4Result<()>,
        |
            {
                &&& #[trigger] call_ensures(
                    <B as Backend<Dev>>::entry,
                    (b, d, op, i, name, c),
                    reply,
                )
                &&& *b == *old(backend)
                &&& *d == *old(bdev)
                &&& *i == *old(dir)
                &&& *c == *old(child)
                &&& reply == out.0
                &&& out.1@ == (
                    State { backend: *final(b), device: Some(*final(d)) },
                    *final(i),
                    *final(c),
                )
            },
        out.1@ == (
            State { backend: *final(backend), device: Some(*final(bdev)) },
            *final(dir),
            *final(child),
        ),
{
    let reply = backend.entry(bdev, op, dir, name, child);
    (reply, Ghost((State { backend: *backend, device: Some(*bdev) }, *dir, *child)))
}

/// Asking whether a directory has children.
pub fn ask_has_children<Dev: BlockDevice, B: Backend<Dev>>(
    backend: &mut B,
    bdev: &mut Ext4BlockDevice<Dev>,
    inode: &mut B::Inode,
) -> (out: (Ext4Result<bool>, Ghost<(State<Dev, B>, B::Inode)>))
    ensures
        exists|b: &mut B, d: &mut Ext4BlockDevice<Dev>, i: &mut B::Inode, reply: Ext4Result<bool>|
            {
                &&& #[trigger] call_ensures(<B as Backend<Dev>>::has_children, (b, d, i), reply)
                &&& *b == *old(backend)
                &&& *d == *old(bdev)
                &&& *i == *old(inode)
                &&& reply == out.0
                &&& out.1@ == (State { backend: *final(b), device: Some(*final(d)) }, *final(i))
            },
        out.1@ == (State { backend: *final(backend), device: Some(*final(bdev)) }, *final(inode)),
{
    let reply = backend.has_children(bdev, inode);
    (reply, Ghost((State { backend: *backend, device: Some(*bdev) }, *inode)))
}

/// Looking a name up in an open directory, which is given away.
pub fn ask_lookup<Dev: BlockDevice, B: Backend<Dev>>(
    backend: &mut B,
    bdev: &mut Ext4BlockDevice<Dev>,
    dir: B::Inode,
    name: &str,
) -> (out: (Ext4Result<(u32, B::Entry)>, Ghost<State<Dev, B>>))
    ensures
        exists|b: &mut B, d: &mut Ext4BlockDevice<Dev>, reply: Ext4Result<(u32, B::Entry)>|
            {
                &&& #[trigger] call_ensures(<B as Backend<Dev>>::lookup, (b, d, dir, name), reply)
                &&& *b == *old(backend)
                &&& *d == *old(bdev)
                &&& reply == out.0
                &&& out.1@ == (State { backend: *final(b), device: Some(*final(d)) })
            },
        out.1@ == (State { backend: *final(backend), device: Some(*final(bdev)) }),
{
    let reply = backend.lookup(bdev, dir, name);
    (reply, Ghost(State { backend: *backend, device: Some(*bdev) }))
}

/// Making an entry that was looked up name another inode.
pub fn ask_redirect<Dev: BlockDevice, B: Backend<Dev>>(
    backend: &mut B,
    bdev: &mut Ext4BlockDevice<Dev>,
    found: &mut B::Entry,
    ino: u32,
) -> (out: Ghost<(State<Dev, B>, B::Entry)>)
    ensures
        exists|b: &mut B, d: &mut Ext4BlockDevice<Dev>, e: &mut B::Entry|
            {
                &&& #[trigger] call_ensures(<B as Backend<Dev>>::redirect, (b, d, e, ino), ())
                &&& *b == *old(backend)
                &&& *d == *old(bdev)
                &&& *e == *old(found)
                &&& out@ == (State { backend: *final(b), device: Some(*final(d)) }, *final(e))
            },
        out@ == (State { backend: *final(backend), device: Some(*final(bdev)) }, *final(found)),
{
    backend.redirect(bdev, found, ino);
    Ghost((State { backend: *backend, device: Some(*bdev) }, *found))
}

/// Starting to read a directory, which is given away.
pub fn ask_read_dir<Dev: BlockDevice, B: Backend<Dev>>(
    backend: &mut B,
    bdev: &mut Ext4BlockDevice<Dev>,
    dir: B::Inode,
    offset: u64,
) -> (out: (Ext4Result<B::Reader>, Ghost<State<Dev, B>>))
    ensures
        exists|b: &mut B, d: &mut Ext4BlockDevice<Dev>, reply: Ext4Result<B::Reader>|
            {
                &&& #[trigger] call_ensures(
                    <B as Backend<Dev>>::read_dir,
                    (b, d, dir, offset),
                    reply,
                )
                &&& *b == *old(backend)
                &&& *d == *old(bdev)
                &&& reply == out.0
                &&& out.1@ == (State { backend: *final(b), device: Some(*final(d)) })
            },
        out.1@ == (State { backend: *final(backend), device: Some(*final(bdev)) }),
{
    let reply = backend.read_dir(bdev, dir, offset);
    (reply, Ghost(State { backend: *backend, device: Some(*bdev) }))
}

/// Reading from an inode.
pub fn ask_read_at<Dev: BlockDevice, B: Backend<Dev>>(
    backend: &mut B,
    bdev: &mut Ext4BlockDevice<Dev>,
    inode: &mut B::Inode,
    buf: &mut [u8],
    offset: u64,
) -> (out: (Ext4Result<usize>, Ghost<(State<Dev, B>, B::Inode, Seq<u8>)>))
    ensures
        exists|
            b: &mut B,
            d: &mut Ext4BlockDevice<Dev>,
            i: &mut B::Inode,
            s: &mut [u8],
            reply: Ext4Result<usize>,
        |
            {
                &&& #[trigger] call_ensures(
                    <B as Backend<Dev>>::read_at,
                    (b, d, i, s, offset),
                    reply,
                )
                &&& *b == *old(backend)
                &&& *d == *old(bdev)
                &&& *i == *old(inode)
                &&& s@ == old(buf)@
                &&& reply == out.0
                &&& out.1@ == (
                    State { backend: *final(b), device: Some(*final(d)) },
                    *final(i),
                    final(s)@,
                )
            },
        out.1@ == (
            State { backend: *final(backend), device: Some(*final(bdev)) },
            *final(inode),
            final(buf)@,
        ),
{
    let reply = backend.read_at(bdev, inode, buf, offset);
    (reply, Ghost((State { backend: *backend, device: Some(*bdev) }, *inode, buf@)))
}

/// Writing to an inode.
pub fn ask_write_at<Dev: BlockDevice, B: Backend<Dev>>(
    backend: &mut B,
    bdev: &mut Ext4BlockDevice<Dev>,
    inode: &mut B::Inode,
    buf: &[u8],
    offset: u64,
) -> (out: (Ext4Result<usize>, Ghost<(State<Dev, B>, B::Inode)>))
    ensures
        exists|b: &mut B, d: &mut Ext4BlockDevice<Dev>, i: &mut B::Inode, reply: Ext4Result<usize>|
            {
                &&& #[trigger] call_ensures(
                    <B as Backend<Dev>>::write_at,
                    (b, d, i, buf, offset),
                    reply,
                )
                &&& *b == *old(backend)
                &&& *d == *old(bdev)
                &&& *i == *old(inode)
                &&& reply == out.0
                &&& out.1@ == (State { backend: *final(b), device: Some(*final(d)) }, *final(i))
            },
        out.1@ == (State { backend: *final(backend), device: Some(*final(bdev)) }, *final(inode)),
{
    let reply = backend.write_at(bdev, inode, buf, offset);
    (reply, Ghost((State { backend: *backend, device: Some(*bdev) }, *inode)))
}

/// Asking for the attributes of an inode.
pub fn ask_attributes<Dev: BlockDevice, B: Backend<Dev>>(
    backend: &mut B,
    bdev: &mut Ext4BlockDevice<Dev>,
    inode: &B::Inode,
) -> (out: (FileAttr, Ghost<State<Dev, B>>))
    ensures
        exists|b: &mut B, d: &mut Ext4BlockDevice<Dev>, reply: FileAttr|
            {
                &&& #[trigger] call_ensures(<B as Backend<Dev>>::attributes, (b, d, inode), reply)
                &&& *b == *old(backend)
                &&& *d == *old(bdev)
                &&& reply == out.0
                &&& out.1@ == (State { backend: *final(b), device: Some(*final(d)) })
            },
        out.1@ == (State { backend: *final(backend), device: Some(*final(bdev)) }),
{
    let reply = backend.attributes(bdev, inode);
    (reply, Ghost(State { backend: *backend, device: Some(*bdev) }))
}

/// Having the device write out what it holds back. The backend has no part in this.
pub fn ask_flush<Dev: BlockDevice>(bdev: &mut Ext4BlockDevice<Dev>) -> (out: (
    Ext4Result<()>,
    Ghost<Ext4BlockDevice<Dev>>,
))
    ensures
        final(bdev).spec_layout() == old(bdev).spec_layout(),
        exists|dev: &mut Dev, reply: Ext4Result<()>|
            {
                &&& #[trigger] call_ensures(Dev::flush_cache, (dev,), reply)
                &&& reply == out.0
                &&& *dev == old(bdev).device()
                &&& *final(dev) == final(bdev).device()
            },
        out.1@ == *final(bdev),
{
    let reply = bdev.flush_cache();
    (reply, Ghost(*bdev))
}

/// Whether a backend and a device are those of a state.
pub open spec fn at<Dev: BlockDevice, B: Backend<Dev>>(
    state: State<Dev, B>,
    b: &mut B,
    d: &mut Ext4BlockDevice<Dev>,
) -> bool {
    *b == state.backend && Some(*d) == state.device
}

/// Whether an event took place: the request was made, of the backend and on the device and the
/// handles that the event tells of, and this is what came of it.
pub open spec fn made<Dev: BlockDevice, B: Backend<Dev>>(e: Event<Dev, B>) -> bool {
    match e.step {
        Step::Call { call, code } => exists|
            b: &mut B,
            d: &mut Ext4BlockDevice<Dev>,
            out: (i32, Ghost<State<Dev, B>>),
        |
            {
                &&& #[trigger] call_ensures(ask_call::<Dev, B>, (b, d, call), out)
                &&& at(e.before, b, d)
                &&& out.0 == code
                &&& out.1@ == e.after
                &&& e.takes == Set::<Handle<B::Inode, B::Entry>>::empty()
                &&& e.gives == Set::<Handle<B::Inode, B::Entry>>::empty()
            },
        Step::Superblock { sb } => exists|b: &mut B, out: (Superblock, Ghost<B>)|
            {
                &&& #[trigger] call_ensures(ask_superblock::<Dev, B>, (b,), out)
                &&& *b == e.before.backend
                &&& e.after.device == e.before.device
                &&& out.0@ == sb
                &&& out.1@ == e.after.backend
                &&& e.takes == Set::<Handle<B::Inode, B::Entry>>::empty()
                &&& e.gives == Set::<Handle<B::Inode, B::Entry>>::empty()
            },
        Step::CacheItemSize { size } => exists|b: &mut B, out: (u32, Ghost<B>)|
            {
                &&& #[trigger] call_ensures(ask_cache_item_size::<Dev, B>, (b,), out)
                &&& *b == e.before.backend
                &&& e.after.device == e.before.device
                &&& out.0 == size
                &&& out.1@ == e.after.backend
                &&& e.takes == Set::<Handle<B::Inode, B::Entry>>::empty()
                &&& e.gives == Set::<Handle<B::Inode, B::Entry>>::empty()
            },
        Step::Open { ino, reply } => exists|
            b: &mut B,
            d: &mut Ext4BlockDevice<Dev>,
            n: u32,
            out: (Result<B::Inode, i32>, Ghost<State<Dev, B>>),
        |
            {
                &&& #[trigger] call_ensures(ask_open::<Dev, B>, (b, d, n), out)
                &&& at(e.before, b, d)
                &&& n == ino
                &&& outline(out.0) == reply
                &&& out.1@ == e.after
                &&& e.takes == Set::<Handle<B::Inode, B::Entry>>::empty()
                &&& match out.0 {
                    Ok(handle) => e.gives == set![Handle::<B::Inode, B::Entry>::Inode(ino, handle)],
                    Err(_) => e.gives == Set::<Handle<B::Inode, B::Entry>>::empty(),
                }
            },
        Step::Alloc { entry_type, reply } => exists|
            b: &mut B,
            d: &mut Ext4BlockDevice<Dev>,
            n: u32,
            out: (Result<(u32, B::Inode), i32>, Ghost<State<Dev, B>>),
        |
            {
                &&& #[trigger] call_ensures(ask_allocate::<Dev, B>, (b, d, n), out)
                &&& at(e.before, b, d)
                &&& n == entry_type
                &&& out.1@ == e.after
                &&& e.takes == Set::<Handle<B::Inode, B::Entry>>::empty()
                &&& match out.0 {
                    Ok((ino, handle)) => {
                        &&& reply == Ok::<u32, i32>(ino)
                        &&& e.gives == set![Handle::<B::Inode, B::Entry>::Inode(ino, handle)]
                    },
                    Err(code) => {
                        &&& reply == Err::<u32, i32>(code)
                        &&& e.gives == Set::<Handle<B::Inode, B::Entry>>::empty()
                    },
                }
            },
        Step::InodeType { ino, ty } => exists|
            b: &mut B,
            i: &B::Inode,
            out: (InodeType, Ghost<B>),
        |
            {
                &&& #[trigger] call_ensures(ask_inode_type::<Dev, B>, (b, i), out)
                &&& *b == e.before.backend
                &&& e.after.device == e.before.device
                &&& out.0 == ty
                &&& out.1@ == e.after.backend
                &&& e.takes == set![Handle::<B::Inode, B::Entry>::Inode(ino, *i)]
                &&& e.gives == Set::<Handle<B::Inode, B::Entry>>::empty()
            },
        Step::Field { ino, field, value } => exists|
            b: &mut B,
            i: &B::Inode,
            out: (u32, Ghost<B>),
        |
            {
                &&& #[trigger] call_ensures(ask_field::<Dev, B>, (b, i, field), out)
                &&& *b == e.before.backend
                &&& e.after.device == e.before.device
                &&& out.0 == value
                &&& out.1@ == e.after.backend
                &&& e.takes == set![Handle::<B::Inode, B::Entry>::Inode(ino, *i)]
                &&& e.gives == Set::<Handle<B::Inode, B::Entry>>::empty()
            },
        Step::Touch { ino, touch } => exists|
            b: &mut B,
            d: &mut Ext4BlockDevice<Dev>,
            i: &mut B::Inode,
            out: Ghost<(State<Dev, B>, B::Inode)>,
        |
            {
                &&& #[trigger] call_ensures(ask_touch::<Dev, B>, (b, d, i, touch), out)
                &&& at(e.before, b, d)
                &&& out@.0 == e.after
                &&& e.takes == set![Handle::<B::Inode, B::Entry>::Inode(ino, *i)]
                &&& e.gives == set![Handle::<B::Inode, B::Entry>::Inode(ino, out@.1)]
            },
        Step::Change { ino, change, reply } => exists|
            b: &mut B,
            d: &mut Ext4BlockDevice<Dev>,
            i: &mut B::Inode,
            c: Change<'_>,
            out: (Ext4Result<()>, Ghost<(State<Dev, B>, B::Inode)>),
        |
            {
                &&& #[trigger] call_ensures(ask_change::<Dev, B>, (b, d, i, c), out)
                &&& at(e.before, b, d)
                &&& c@ == change
                &&& out.0 == reply
                &&& out.1@.0 == e.after
                &&& e.takes == set![Handle::<B::Inode, B::Entry>::Inode(ino, *i)]
                &&& e.gives == set![Handle::<B::Inode, B::Entry>::Inode(ino, out.1@.1)]
            },
        Step::Entry { op, dir, name, child, reply } => exists|
            b: &mut B,
            d: &mut Ext4BlockDevice<Dev>,
            i: &mut B::Inode,
            n: &str,
            c: &mut B::Inode,
            out: (Ext4Result<()>, Ghost<(State<Dev, B>, B::Inode, B::Inode)>),
        |
            {
                &&& #[trigger] call_ensures(ask_entry::<Dev, B>, (b, d, op, i, n, c), out)
                &&& at(e.before, b, d)
                &&& n@ == name
                &&& out.0 == reply
                &&& out.1@.0 == e.after
                &&& e.takes == set![
                    Handle::<B::Inode, B::Entry>::Inode(dir, *i),
                    Handle::Inode(child, *c),
                ]
                &&& e.gives == set![
                    Handle::<B::Inode, B::Entry>::Inode(dir, out.1@.1),
                    Handle::Inode(child, out.1@.2),
                ]
            },
        Step::HasChildren { ino, reply } => exists|
            b: &mut B,
            d: &mut Ext4BlockDevice<Dev>,
            i: &mut B::Inode,
            out: (Ext4Result<bool>, Ghost<(State<Dev, B>, B::Inode)>),
        |
            {
                &&& #[trigger] call_ensures(ask_has_children::<Dev, B>, (b, d, i), out)
                &&& at(e.before, b, d)
                &&& out.0 == reply
                &&& out.1@.0 == e.after
                &&& e.takes == set![Handle::<B::Inode, B::Entry>::Inode(ino, *i)]
                &&& e.gives == set![Handle::<B::Inode, B::Entry>::Inode(ino, out.1@.1)]
            },
        Step::Lookup { dir, name, reply } => exists|
            b: &mut B,
            d: &mut Ext4BlockDevice<Dev>,
            i: B::Inode,
            n: &str,
            out: (Ext4Result<(u32, B::Entry)>, Ghost<State<Dev, B>>),
        |
            {
                &&& #[trigger] call_ensures(ask_lookup::<Dev, B>, (b, d, i, n), out)
                &&& at(e.before, b, d)
                &&& n@ == name
                &&& out.1@ == e.after
                &&& e.takes == set![Handle::<B::Inode, B::Entry>::Inode(dir, i)]
                &&& match out.0 {
                    Ok((ino, handle)) => {
                        &&& reply == Ok::<u32, Ext4Error>(ino)
                        &&& e.gives == set![
                            Handle::<B::Inode, B::Entry>::Entry(dir, name, handle),
                        ]
                    },
                    Err(error) => {
                        &&& reply == Err::<u32, Ext4Error>(error)
                        &&& e.gives == Set::<Handle<B::Inode, B::Entry>>::empty()
                    },
                }
            },
        Step::Redirect { dir, name, ino } => exists|
            b: &mut B,
            d: &mut Ext4BlockDevice<Dev>,
            found: &mut B::Entry,
            n: u32,
            out: Ghost<(State<Dev, B>, B::Entry)>,
        |
            {
                &&& #[trigger] call_ensures(ask_redirect::<Dev, B>, (b, d, found, n), out)
                &&& at(e.before, b, d)
                &&& n == ino
                &&& out@.0 == e.after
                &&& e.takes == set![Handle::<B::Inode, B::Entry>::Entry(dir, name, *found)]
                &&& e.gives == set![Handle::<B::Inode, B::Entry>::Entry(dir, name, out@.1)]
            },
        Step::ReadDir { ino, offset, reply } => exists|
            b: &mut B,
            d: &mut Ext4BlockDevice<Dev>,
            i: B::Inode,
            n: u64,
            out: (Ext4Result<B::Reader>, Ghost<State<Dev, B>>),
        |
            {
                &&& #[trigger] call_ensures(ask_read_dir::<Dev, B>, (b, d, i, n), out)
                &&& at(e.before, b, d)
                &&& n == offset
                &&& outline(out.0) == reply
                &&& out.1@ == e.after
                &&& e.takes == set![Handle::<B::Inode, B::Entry>::Inode(ino, i)]
                &&& e.gives == Set::<Handle<B::Inode, B::Entry>>::empty()
            },
        Step::ReadAt { ino, offset, space, data, reply } => exists|
            b: &mut B,
            d: &mut Ext4BlockDevice<Dev>,
            i: &mut B::Inode,
            s: &mut [u8],
            n: u64,
            out: (Ext4Result<usize>, Ghost<(State<Dev, B>, B::Inode, Seq<u8>)>),
        |
            {
                &&& #[trigger] call_ensures(ask_read_at::<Dev, B>, (b, d, i, s, n), out)
                &&& at(e.before, b, d)
                &&& n == offset
                &&& s@.len() == space
                &&& out.0 == reply
                &&& out.1@.0 == e.after
                &&& out.1@.2 == data
                &&& e.takes == set![Handle::<B::Inode, B::Entry>::Inode(ino, *i)]
                &&& e.gives == set![Handle::<B::Inode, B::Entry>::Inode(ino, out.1@.1)]
            },
        Step::WriteAt { ino, offset, data, reply } => exists|
            b: &mut B,
            d: &mut Ext4BlockDevice<Dev>,
            i: &mut B::Inode,
            s: &[u8],
            n: u64,
            out: (Ext4Result<usize>, Ghost<(State<Dev, B>, B::Inode)>),
        |
            {
                &&& #[trigger] call_ensures(ask_write_at::<Dev, B>, (b, d, i, s, n), out)
                &&& at(e.before, b, d)
                &&& n == offset
                &&& s@ == data
                &&& out.0 == reply
                &&& out.1@.0 == e.after
                &&& e.takes == set![Handle::<B::Inode, B::Entry>::Inode(ino, *i)]
                &&& e.gives == set![Handle::<B::Inode, B::Entry>::Inode(ino, out.1@.1)]
            },
        Step::Attributes { ino, attr } => exists|
            b: &mut B,
            d: &mut Ext4BlockDevice<Dev>,
            i: &B::Inode,
            out: (FileAttr, Ghost<State<Dev, B>>),
        |
            {
                &&& #[trigger] call_ensures(ask_attributes::<Dev, B>, (b, d, i), out)
                &&& at(e.before, b, d)
                &&& out.0 == attr
                &&& out.1@ == e.after
                &&& e.takes == set![Handle::<B::Inode, B::Entry>::Inode(ino, *i)]
                &&& e.gives == Set::<Handle<B::Inode, B::Entry>>::empty()
            },
        Step::FlushDevice { reply } => exists|
            d: &mut Ext4BlockDevice<Dev>,
            out: (Ext4Result<()>, Ghost<Ext4BlockDevice<Dev>>),
        |
            {
                &&& #[trigger] call_ensures(ask_flush::<Dev>, (d,), out)
                &&& Some(*d) == e.before.device
                &&& out.0 == reply
                &&& e.after.device == Some(out.1@)
                &&& e.after.backend == e.before.backend
                &&& e.takes == Set::<Handle<B::Inode, B::Entry>>::empty()
                &&& e.gives == Set::<Handle<B::Inode, B::Entry>>::empty()
            },
    }
}

/// Whether a request sets a new block device up.
pub open spec fn sets_up(step: Step) -> bool {
    step matches Step::Call { call, .. } && call is BlockInit
}

/// Whether one of the first `n` events gave this handle.
pub open spec fn given<Dev: BlockDevice, B: Backend<Dev>>(
    events: Seq<Event<Dev, B>>,
    n: int,
    handle: Handle<B::Inode, B::Entry>,
) -> bool {
    exists|m: int| 0 <= m < n && (#[trigger] events[m]).gives.contains(handle)
}

/// Whether event `k` goes on where the one before it ended. A new device may be set up.
pub open spec fn linked<Dev: BlockDevice, B: Backend<Dev>>(
    events: Seq<Event<Dev, B>>,
    k: int,
) -> bool {
    &&& events[k].before.backend == events[k - 1].after.backend
    &&& sets_up(events[k].step) || events[k].before.device == events[k - 1].after.device
}

/// Whether the events took place, one after the other, with nothing in between; each handle
/// that the backend was given had come from it before, as a handle on the same thing.
pub open spec fn coherent<Dev: BlockDevice, B: Backend<Dev>>(events: Seq<Event<Dev, B>>) -> bool {
    &&& forall|k: int| 0 <= k < events.len() ==> made(#[trigger] events[k])
    &&& forall|k: int| 0 < k < events.len() ==> #[trigger] linked(events, k)
    &&& forall|k: int, handle: Handle<B::Inode, B::Entry>|
        0 <= k < events.len() && #[trigger] events[k].takes.contains(handle) ==> given(
            events,
            k,
            handle,
        )
}

pub(crate) proof fn lemma_coherent_push<Dev: BlockDevice, B: Backend<Dev>>(
    events: Seq<Event<Dev, B>>,
    e: Event<Dev, B>,
)
    requires
        coherent(events),
        made(e),
        events.len() > 0 ==> {
            let last = events.last().after;
            &&& e.before.backend == last.backend
            &&& sets_up(e.step) || e.before.device == last.device
        },
        forall|handle: Handle<B::Inode, B::Entry>| #[trigger]
            e.takes.contains(handle) ==> given(events, events.len() as int, handle),
    ensures
        coherent(events.push(e)),
{
    let all = events.push(e);
    let n = events.len() as int;
    assert forall|k: int| 0 < k < all.len() implies #[trigger] linked(all, k) by {
        if k < n {
            assert(linked(events, k));
        }
    }
    assert forall|k: int, handle: Handle<B::Inode, B::Entry>|
        0 <= k < all.len() && #[trigger] all[k].takes.contains(handle) implies given(
        all,
        k,
        handle,
    ) by {
        if k < n {
            assert(events[k].takes.contains(handle));
            assert(given(events, k, handle));
        } else {
            assert(given(events, n, handle));
        }
        let m = choose|m: int| 0 <= m < k && (#[trigger] events[m]).gives.contains(handle);
        assert(all[m].gives.contains(handle));
    }
}

} // verus!
