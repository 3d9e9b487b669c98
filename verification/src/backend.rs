//! What the filesystem asks of the C library and of the inode layer on top of it.

use crate::blockdev::{BlockDevice, DeviceLayout, Ext4BlockDevice};
use crate::error::Ext4Result;
use crate::inode::{FileAttr, InodeType};
use crate::superblock::Superblock;
use vstd::prelude::*;

verus! {

/// A call on the whole device or the whole filesystem.
#[derive(Debug, Clone, Copy)]
pub enum LibCall {
    /// `ext4_block_init` on a block device interface with this layout.
    BlockInit(DeviceLayout),
    /// `ext4_block_cache_write_back`: delay writes (1), or stop doing so and write out (0).
    BlockCacheWriteBack(u8),
    /// `ext4_block_fini`.
    BlockFini,
    /// `ext4_fs_init` on the block device.
    FsInit { read_only: bool },
    /// `ext4_block_set_lb_size`. There is no status: the reply is not looked at.
    BlockSetLbSize(u32),
    /// `ext4_bcache_init_dynamic` on the device's block cache.
    BcacheInitDynamic { count: u32, item_size: u32 },
    /// Makes the block device point back at its filesystem. The reply is not looked at.
    AttachFs,
    /// `ext4_block_bind_bcache` of the device to its block cache.
    BlockBindBcache,
    /// `ext4_block_cache_flush`.
    BlockCacheFlush,
    /// `ext4_fs_fini`.
    FsFini,
    /// `ext4_bcache_cleanup`. The reply is not looked at.
    BcacheCleanup,
    /// `ext4_bcache_fini_dynamic`. The reply is not looked at.
    BcacheFiniDynamic,
}

/// A change of one inode that has no status, or one that nobody looks at.
#[derive(Debug, Clone, Copy)]
pub enum Touch {
    /// `ext4_fs_inode_blocks_init`.
    BlocksInit,
    SetMode(u32),
    IncNlink,
    DecNlink,
    /// `ext4_inode_set_del_time`.
    SetDelTime(u32),
    MarkDirty,
    /// `ext4_fs_free_inode`.
    Free,
}

/// A change of the contents of one inode.
#[derive(Debug, Clone, Copy)]
pub enum Change<'a> {
    SetLen(u64),
    Truncate(u64),
    SetSymlink(&'a [u8]),
}

/// A change of the contents of one inode, with the bytes as a sequence.
pub enum ChangeView {
    SetLen(u64),
    Truncate(u64),
    SetSymlink(Seq<u8>),
}

impl<'a> Change<'a> {
    pub open spec fn view(&self) -> ChangeView {
        match *self {
            Change::SetLen(len) => ChangeView::SetLen(len),
            Change::Truncate(len) => ChangeView::Truncate(len),
            Change::SetSymlink(target) => ChangeView::SetSymlink(target@),
        }
    }
}

/// Whether a directory entry is written or taken away.
#[derive(Debug, Clone, Copy, PartialEq, Eq)]
pub enum EntryOp {
    Add,
    Remove,
}

/// A number that an inode holds.
#[derive(Debug, Clone, Copy, PartialEq, Eq)]
pub enum Field {
    Nlink,
    Mode,
}

/// The C library and the inode layer.
///
/// No method promises anything: whatever a backend answers, the filesystem keeps its own
/// contracts. A method that may have the C library work on the device is handed the block
/// device, on which the C library calls back.
pub trait Backend<Dev: BlockDevice> {
    /// An open inode. It is closed when the value goes out of scope.
    type Inode;

    /// A directory entry that was looked up. It keeps its directory open.
    type Entry;

    /// A position in a directory. It keeps the directory open.
    type Reader;

    /// Makes a call and hands back its status.
    fn call(&mut self, bdev: &mut Ext4BlockDevice<Dev>, call: LibCall) -> i32;

    /// The superblock as the C library holds it in memory.
    fn superblock(&mut self) -> Superblock;

    /// The size of an item of the device's block cache.
    fn cache_item_size(&mut self) -> u32;

    /// `ext4_fs_get_inode_ref`: an open inode, or the status.
    fn open(&mut self, bdev: &mut Ext4BlockDevice<Dev>, ino: u32) -> Result<Self::Inode, i32>;

    /// `ext4_fs_alloc_inode`: a new inode with its number, or the status.
    fn allocate(&mut self, bdev: &mut Ext4BlockDevice<Dev>, entry_type: u32) -> Result<
        (u32, Self::Inode),
        i32,
    >;

    /// What an inode stands for.
    fn inode_type(&mut self, inode: &Self::Inode) -> InodeType;

    /// A number that an inode holds.
    fn field(&mut self, inode: &Self::Inode, field: Field) -> u32;

    /// Makes a change that has no status.
    fn touch(&mut self, bdev: &mut Ext4BlockDevice<Dev>, inode: &mut Self::Inode, touch: Touch);

    /// Changes the contents of an inode.
    fn change(
        &mut self,
        bdev: &mut Ext4BlockDevice<Dev>,
        inode: &mut Self::Inode,
        change: Change<'_>,
    ) -> Ext4Result<()>;

    /// Adds an entry `name` for `child` to `dir`, or removes it.
    fn entry(
        &mut self,
        bdev: &mut Ext4BlockDevice<Dev>,
        op: EntryOp,
        dir: &mut Self::Inode,
        name: &str,
        child: &mut Self::Inode,
    ) -> Ext4Result<()>;

    /// Whether a directory has entries besides `.` and `..`.
    fn has_children(
        &mut self,
        bdev: &mut Ext4BlockDevice<Dev>,
        inode: &mut Self::Inode,
    ) -> Ext4Result<bool>;

    /// The entry `name` of a directory, and the number of the inode it names.
    fn lookup(
        &mut self,
        bdev: &mut Ext4BlockDevice<Dev>,
        dir: Self::Inode,
        name: &str,
    ) -> Ext4Result<(u32, Self::Entry)>;

    /// Makes an entry that was looked up name another inode.
    fn redirect(&mut self, bdev: &mut Ext4BlockDevice<Dev>, entry: &mut Self::Entry, ino: u32);

    /// Starts reading a directory.
    fn read_dir(
        &mut self,
        bdev: &mut Ext4BlockDevice<Dev>,
        dir: Self::Inode,
        offset: u64,
    ) -> Ext4Result<Self::Reader>;

    /// Reads from an inode, from byte `offset` on, and gives how many bytes were read.
    fn read_at(
        &mut self,
        bdev: &mut Ext4BlockDevice<Dev>,
        inode: &mut Self::Inode,
        buf: &mut [u8],
        offset: u64,
    ) -> Ext4Result<usize>;

    /// Writes to an inode, from byte `offset` on, and gives how many bytes were written.
    fn write_at(
        &mut self,
        bdev: &mut Ext4BlockDevice<Dev>,
        inode: &mut Self::Inode,
        buf: &[u8],
        offset: u64,
    ) -> Ext4Result<usize>;

    /// The attributes of an inode.
    fn attributes(&mut self, bdev: &mut Ext4BlockDevice<Dev>, inode: &Self::Inode) -> FileAttr;
}

} // verus!
