//! The filesystem.

use crate::backend::{Backend, Change, ChangeView, EntryOp, Field, LibCall, Touch};
use crate::blockdev;
use crate::blockdev::{BlockDevice, Ext4BlockDevice};
use crate::driver;
use crate::driver::{DirLookupResult, Driver, InodeRef};
use crate::error::{
    check, Ext4Error, Ext4Result, Failure, MountError, EISDIR, ENOENT, ENOTEMPTY, ENOTSUP, EOK,
};
use crate::inode::{with_permissions, FileAttr, InodeType};
use crate::protocol;
use crate::protocol::Run;
use crate::request;
use crate::request::{Handle, Step};
use crate::superblock::{get_block_size, Superblock, SuperblockView};
use core::marker::PhantomData;
use core::time::Duration;
use vstd::prelude::*;

verus! {

/// What the filesystem needs of the system it runs on.
pub trait SystemHal {
    /// The current time, if there is a clock.
    fn now() -> Option<Duration>;
}

/// A system without a clock.
pub struct DummyHal;

impl SystemHal for DummyHal {
    fn now() -> (now: Option<Duration>)
        ensures
            now is None,
    {
        None
    }
}

/// Blocks that the cache holds unless told otherwise.
pub const CONFIG_BLOCK_DEV_CACHE_SIZE: u32 = 8;

/// How a filesystem is set up.
#[derive(Debug, Clone)]
pub struct FsConfig {
    /// How many blocks the cache holds.
    pub bcache_size: u32,
}

impl Default for FsConfig {
    fn default() -> (config: Self)
        ensures
            config.bcache_size == CONFIG_BLOCK_DEV_CACHE_SIZE,
            config.bcache_size == 8,
    {
        FsConfig { bcache_size: CONFIG_BLOCK_DEV_CACHE_SIZE }
    }
}

/// Counts and sizes of a filesystem.
#[derive(Debug, Clone)]
pub struct StatFs {
    pub inodes_count: u32,
    pub free_inodes_count: u32,
    pub blocks_count: u64,
    pub free_blocks_count: u64,
    pub block_size: u32,
}

impl StatFs {
    pub open spec fn view(&self) -> SuperblockView {
        SuperblockView {
            inodes_count: self.inodes_count as int,
            free_inodes_count: self.free_inodes_count as int,
            blocks_count: self.blocks_count as int,
            free_blocks_count: self.free_blocks_count as int,
            block_size: self.block_size as int,
        }
    }

    /// What a superblock says.
    pub fn from_superblock(sb: &Superblock) -> (stat: Self)
        ensures
            stat@ == sb@,
            stat.inodes_count == sb@.inodes_count,
            stat.free_inodes_count == sb@.free_inodes_count,
            stat.blocks_count == sb@.blocks_count,
            stat.free_blocks_count == sb@.free_blocks_count,
            stat.block_size == sb@.block_size,
    {
        StatFs {
            inodes_count: sb.inodes_count(),
            free_inodes_count: sb.free_inodes_count(),
            blocks_count: sb.blocks_count(),
            free_blocks_count: sb.free_blocks_count(),
            block_size: get_block_size(sb),
        }
    }
}

/// An ext4 filesystem on a block device.
pub struct Ext4Filesystem<Hal: SystemHal, Dev: BlockDevice, B: Backend<Dev>> {
    driver: Driver<Dev, B>,
    bdev: Box<Ext4BlockDevice<Dev>>,
    mounted: Ghost<bool>,
    _phantom: PhantomData<Hal>,
}

/// Whether the requests since `before` make up the run `run`, which starts where `before` ends,
/// with the given result.
pub open spec fn ran<T>(
    before: Seq<Step>,
    after: Seq<Step>,
    run: Run<T>,
    result: Result<T, Failure>,
) -> bool {
    protocol::extends(before, after) && run == Some((result, after.len() as int))
}

/// Whether `dev` was handed to the C library as it was, with its layout still to be found out.
pub open spec fn first_was<Dev: BlockDevice>(
    first: Option<Ext4BlockDevice<Dev>>,
    dev: Dev,
) -> bool {
    first matches Some(bdev) && bdev.device() == dev && bdev.spec_layout() == blockdev::unopened()
}

impl<Hal: SystemHal, Dev: BlockDevice, B: Backend<Dev>> Ext4Filesystem<Hal, Dev, B> {
    /// The backend, with all requests made of it.
    pub closed spec fn driver(&self) -> Driver<Dev, B> {
        self.driver
    }

    /// The block device under the filesystem.
    pub closed spec fn block_device(&self) -> Ext4BlockDevice<Dev> {
        *self.bdev
    }

    /// The requests made of the backend so far, oldest first.
    pub open spec fn history(&self) -> Seq<Step> {
        self.driver().history()
    }

    /// Whether the filesystem has not been taken down.
    pub closed spec fn mounted(&self) -> bool {
        self.mounted@
    }

    /// What holds until the filesystem is taken down: all that is done to the backend and to the
    /// block device is done by the requests in the history.
    pub open spec fn wf(&self) -> bool {
        self.mounted() && self.driver().serves(self.block_device())
    }

    /// Loads the filesystem and gives the device its block cache.
    fn load(
        driver: &mut Driver<Dev, B>,
        bdev: &mut Ext4BlockDevice<Dev>,
        bcache_size: u32,
    ) -> (result: Ext4Result<()>)
        requires
            old(driver).serves(*old(bdev)),
        ensures
            final(driver).serves(*final(bdev)),
            final(driver).follows(*old(driver)),
            ran(
                old(driver).history(),
                final(driver).history(),
                protocol::load_run(
                    final(driver).history(),
                    old(driver).history().len() as int,
                    bcache_size,
                ),
                protocol::lift(result),
            ),
    {
        let code: i32 = driver.call(bdev, LibCall::FsInit { read_only: false });
        check(code, "ext4_fs_init")?;
        let sb = driver.superblock();
        let size: u32 = get_block_size(&sb);
        driver.call(bdev, LibCall::BlockSetLbSize(size));
        let code: i32 = driver.call(
            bdev,
            LibCall::BcacheInitDynamic { count: bcache_size, item_size: size },
        );
        check(code, "ext4_bcache_init_dynamic")?;
        if size != driver.cache_item_size() {
            return Err(Ext4Error::new(ENOTSUP, Some("block size mismatch")));
        }
        Ok(())
    }

    /// Mounts the filesystem on a device. If that fails, the backend is given back.
    pub fn new(dev: Dev, config: FsConfig, driver: Driver<Dev, B>) -> (result: Result<
        Self,
        (Driver<Dev, B>, MountError),
    >)
        requires
            driver.wf(),
        ensures
            match result {
                Ok(fs) => {
                    &&& fs.wf()
                    &&& fs.driver().resumes(driver)
                    &&& first_was(fs.driver().first_device(), dev)
                    &&& protocol::extends(driver.history(), fs.history())
                    &&& protocol::new_run(
                        fs.history(),
                        driver.history().len() as int,
                        config.bcache_size,
                    ) == Some((Ok::<(), (Failure, i32)>(()), fs.history().len() as int))
                },
                Err((after, e)) => {
                    &&& after.wf()
                    &&& after.resumes(driver)
                    &&& first_was(after.first_device(), dev)
                    &&& protocol::extends(driver.history(), after.history())
                    &&& protocol::new_run(
                        after.history(),
                        driver.history().len() as int,
                        config.bcache_size,
                    ) == Some(
                        (
                            Err::<(), (Failure, i32)>((Failure::Error(e.error), e.unmount)),
                            after.history().len() as int,
                        ),
                    )
                },
            },
    {
        let mut driver = driver;
        let mut bdev = match Ext4BlockDevice::new(dev, &mut driver) {
            Ok(bdev) => bdev,
            Err(error) => {
                return Err((driver, MountError { error, unmount: EOK }));
            },
        };
        let ghost h1 = driver.history();
        match Self::load(&mut driver, &mut bdev, config.bcache_size) {
            Ok(()) => {},
            Err(error) => {
                let ghost h2 = driver.history();
                bdev.close(&mut driver);
                proof {
                    let h = driver.history();
                    protocol::lemma_load_stable(h2, h, h1.len() as int, config.bcache_size);
                }
                return Err((driver, MountError { error, unmount: EOK }));
            },
        }
        let ghost h2 = driver.history();
        driver.call(&mut bdev, LibCall::AttachFs);
        let mut fs = Ext4Filesystem {
            driver,
            bdev: Box::new(bdev),
            mounted: Ghost(true),
            _phantom: PhantomData,
        };
        let code: i32 = fs.driver.call(&mut *fs.bdev, LibCall::BlockBindBcache);
        match check(code, "ext4_block_bind_bcache") {
            Ok(()) => {
                proof {
                    let h = fs.history();
                    protocol::lemma_load_stable(h2, h, h1.len() as int, config.bcache_size);
                }
                Ok(fs)
            },
            Err(error) => {
                let unmount: i32 = fs.close();
                proof {
                    let h = fs.history();
                    protocol::lemma_load_stable(h2, h, h1.len() as int, config.bcache_size);
                }
                Err((fs.driver, MountError { error, unmount }))
            },
        }
    }

    /// Takes the filesystem down, and the device with it. Gives the status of unmounting; the
    /// rest is done whatever that is. Nothing may be asked of the filesystem afterwards.
    pub fn close(&mut self) -> (code: i32)
        requires
            old(self).wf(),
        ensures
            !final(self).mounted(),
            final(self).driver().serves(final(self).block_device()),
            final(self).driver().follows(old(self).driver()),
            protocol::extends(old(self).history(), final(self).history()),
            protocol::close_run(final(self).history(), old(self).history().len() as int) == Some(
                (code, final(self).history().len() as int),
            ),
    {
        let code: i32 = self.driver.call(&mut *self.bdev, LibCall::FsFini);
        self.driver.call(&mut *self.bdev, LibCall::BcacheCleanup);
        self.driver.call(&mut *self.bdev, LibCall::BlockFini);
        self.driver.call(&mut *self.bdev, LibCall::BcacheFiniDynamic);
        self.bdev.close(&mut self.driver);
        proof {
            self.mounted@ = false;
        }
        code
    }

    /// Opens an inode.
    fn inode_ref(&mut self, ino: u32) -> (result: Ext4Result<InodeRef<B::Inode>>)
        requires
            old(self).wf(),
        ensures
            final(self).wf(),
            result matches Ok(inode) ==> final(self).driver().knows(inode),
            final(self).driver().follows(old(self).driver()),
            final(self).history().len() == old(self).history().len() + 1,
            ran(
                old(self).history(),
                final(self).history(),
                protocol::open_run(final(self).history(), old(self).history().len() as int, ino),
                protocol::lift(request::outline(result)),
            ),
            result matches Ok(inode) ==> inode.ino() == ino,
            exists|b: &mut B, d: &mut Ext4BlockDevice<Dev>, r: Result<B::Inode, i32>|
                {
                    &&& #[trigger] call_ensures(<B as Backend<Dev>>::open, (b, d, ino), r)
                    &&& *b == old(self).driver().backend()
                    &&& *final(b) == final(self).driver().backend()
                    &&& *d == old(self).block_device()
                    &&& *final(d) == final(self).block_device()
                    &&& match (r, result) {
                        (Ok(handle), Ok(inode)) => inode.handle() == handle,
                        (Err(_), Err(_)) => true,
                        _ => false,
                    }
                },
    {
        match self.driver.open(&mut *self.bdev, ino) {
            Ok(inode) => Ok(inode),
            Err(code) => Err(Ext4Error::new(code, Some("ext4_fs_get_inode_ref"))),
        }
    }

    /// Opens an inode a second time. An inode that is open can be opened again.
    fn clone_ref(&mut self, inode: &InodeRef<B::Inode>) -> (result: Result<
        InodeRef<B::Inode>,
        Failure,
    >)
        requires
            old(self).wf(),
        ensures
            final(self).wf(),
            result matches Ok(copy) ==> final(self).driver().knows(copy),
            final(self).driver().follows(old(self).driver()),
            final(self).history().len() == old(self).history().len() + 1,
            ran(
                old(self).history(),
                final(self).history(),
                protocol::clone_run(
                    final(self).history(),
                    old(self).history().len() as int,
                    inode.ino(),
                ),
                request::outline(result),
            ),
            result matches Ok(copy) ==> copy.ino() == inode.ino(),
    {
        match self.inode_ref(inode.ino()) {
            Ok(copy) => Ok(copy),
            Err(_) => Err(Failure::Broken("inode ref clone failed")),
        }
    }

    /// Opens a directory and the inode that it has under `name`.
    fn target(&mut self, dir: u32, name: &str) -> (result: Result<
        (InodeRef<B::Inode>, InodeRef<B::Inode>),
        Failure,
    >)
        requires
            old(self).wf(),
        ensures
            final(self).wf(),
            result matches Ok((dir_ref, child_ref)) ==> {
                &&& final(self).driver().knows(dir_ref)
                &&& final(self).driver().knows(child_ref)
            },
            final(self).driver().follows(old(self).driver()),
            ran(
                old(self).history(),
                final(self).history(),
                protocol::target_run(
                    final(self).history(),
                    old(self).history().len() as int,
                    dir,
                    name@,
                ),
                match result {
                    Ok((_, child_ref)) => Ok(child_ref.ino()),
                    Err(failure) => Err(failure),
                },
            ),
            result matches Ok((dir_ref, _)) ==> dir_ref.ino() == dir,
    {
        let dir_ref = match self.inode_ref(dir) {
            Ok(inode) => inode,
            Err(error) => {
                return Err(Failure::Error(error));
            },
        };
        let dir_copy = match self.clone_ref(&dir_ref) {
            Ok(inode) => inode,
            Err(failure) => {
                return Err(failure);
            },
        };
        let child: u32 = match self.driver.lookup(&mut *self.bdev, dir_copy, name) {
            Ok(found) => found.ino(),
            Err(error) => {
                return Err(Failure::Error(error));
            },
        };
        match self.inode_ref(child) {
            Ok(child_ref) => Ok((dir_ref, child_ref)),
            Err(error) => Err(Failure::Error(error)),
        }
    }

    /// Refuses a directory that has children.
    fn childless(&mut self, child_ref: &InodeRef<B::Inode>) -> (result: Result<(), Failure>)
        requires
            old(self).wf(),
        ensures
            final(self).wf(),
            final(self).driver().follows(old(self).driver()),
            ran(
                old(self).history(),
                final(self).history(),
                protocol::childless_run(
                    final(self).history(),
                    old(self).history().len() as int,
                    child_ref.ino(),
                ),
                result,
            ),
    {
        let mut child_copy = match self.clone_ref(child_ref) {
            Ok(inode) => inode,
            Err(failure) => {
                return Err(failure);
            },
        };
        match self.driver.has_children(&mut *self.bdev, &mut child_copy) {
            Ok(true) => Err(Failure::Error(Ext4Error::new(ENOTEMPTY, None))),
            Ok(false) => Ok(()),
            Err(error) => Err(Failure::Error(error)),
        }
    }

    /// Cuts a directory back to its first block, which it keeps as long as it exists.
    fn shrink(&mut self, child_ref: &mut InodeRef<B::Inode>) -> (result: Ext4Result<()>)
        requires
            old(self).wf(),
            old(self).driver().knows(*old(child_ref)),
        ensures
            final(self).wf(),
            final(self).driver().knows(*final(child_ref)),
            final(self).driver().follows(old(self).driver()),
            ran(
                old(self).history(),
                final(self).history(),
                protocol::shrink_run(
                    final(self).history(),
                    old(self).history().len() as int,
                    old(child_ref).ino(),
                ),
                protocol::lift(result),
            ),
            final(child_ref).ino() == old(child_ref).ino(),
    {
        if self.driver.inode_type(child_ref) == InodeType::Directory {
            let sb = self.driver.superblock();
            let size: u32 = get_block_size(&sb);
            self.driver.change(&mut *self.bdev, child_ref, Change::Truncate(size as u64))
        } else {
            Ok(())
        }
    }

    /// Takes an entry away and, for a directory, the two links by `..` and `.`.
    fn detach(
        &mut self,
        dir_ref: &mut InodeRef<B::Inode>,
        name: &str,
        child_ref: &mut InodeRef<B::Inode>,
    ) -> (result: Ext4Result<()>)
        requires
            old(self).wf(),
            old(self).driver().knows(*old(dir_ref)),
            old(self).driver().knows(*old(child_ref)),
        ensures
            final(self).wf(),
            final(self).driver().knows(*final(dir_ref)),
            final(self).driver().knows(*final(child_ref)),
            final(self).driver().follows(old(self).driver()),
            ran(
                old(self).history(),
                final(self).history(),
                protocol::detach_run(
                    final(self).history(),
                    old(self).history().len() as int,
                    old(dir_ref).ino(),
                    name@,
                    old(child_ref).ino(),
                ),
                protocol::lift(result),
            ),
            final(dir_ref).ino() == old(dir_ref).ino(),
            final(child_ref).ino() == old(child_ref).ino(),
    {
        match self.driver.entry(&mut *self.bdev, EntryOp::Remove, dir_ref, name, child_ref) {
            Ok(()) => {},
            Err(error) => {
                return Err(error);
            },
        }
        if self.driver.inode_type(child_ref) == InodeType::Directory {
            self.driver.touch(&mut *self.bdev, dir_ref, Touch::DecNlink);
            self.driver.touch(&mut *self.bdev, child_ref, Touch::DecNlink);
        }
        Ok(())
    }

    /// Frees an inode without links.
    fn reap(&mut self, child_ref: &mut InodeRef<B::Inode>) -> (result: Ext4Result<()>)
        requires
            old(self).wf(),
            old(self).driver().knows(*old(child_ref)),
        ensures
            final(self).wf(),
            final(self).driver().follows(old(self).driver()),
            ran(
                old(self).history(),
                final(self).history(),
                protocol::reap_run(
                    final(self).history(),
                    old(self).history().len() as int,
                    old(child_ref).ino(),
                ),
                protocol::lift(result),
            ),
    {
        if self.driver.field(child_ref, Field::Nlink) == 0 {
            match self.driver.change(&mut *self.bdev, child_ref, Change::Truncate(0)) {
                Ok(()) => {},
                Err(error) => {
                    return Err(error);
                },
            }
            self.driver.touch(&mut *self.bdev, child_ref, Touch::SetDelTime(u32::MAX));
            self.driver.touch(&mut *self.bdev, child_ref, Touch::MarkDirty);
            self.driver.touch(&mut *self.bdev, child_ref, Touch::Free);
        }
        Ok(())
    }

    /// Removes the entry `name` from directory `dir`. The inode is freed with its last link. A
    /// directory that has children is refused.
    pub fn unlink(&mut self, dir: u32, name: &str) -> (result: Result<(), Failure>)
        requires
            old(self).wf(),
        ensures
            final(self).wf(),
            final(self).driver().follows(old(self).driver()),
            ran(
                old(self).history(),
                final(self).history(),
                protocol::unlink_run(
                    final(self).history(),
                    old(self).history().len() as int,
                    dir,
                    name@,
                ),
                result,
            ),
    {
        let ghost start = self.history().len() as int;
        let (mut dir_ref, mut child_ref) = match self.target(dir, name) {
            Ok(refs) => refs,
            Err(failure) => {
                return Err(failure);
            },
        };
        let ghost h1 = self.history();
        let ghost child = child_ref.ino();
        match self.childless(&child_ref) {
            Ok(()) => {},
            Err(failure) => {
                proof {
                    protocol::lemma_target_stable(h1, self.history(), start, dir, name@);
                }
                return Err(failure);
            },
        }
        let ghost h2 = self.history();
        match self.shrink(&mut child_ref) {
            Ok(()) => {},
            Err(error) => {
                proof {
                    protocol::lemma_target_stable(h1, self.history(), start, dir, name@);
                    protocol::lemma_childless_stable(h2, self.history(), h1.len() as int, child);
                }
                return Err(Failure::Error(error));
            },
        }
        let ghost h3 = self.history();
        match self.detach(&mut dir_ref, name, &mut child_ref) {
            Ok(()) => {},
            Err(error) => {
                proof {
                    protocol::lemma_target_stable(h1, self.history(), start, dir, name@);
                    protocol::lemma_childless_stable(h2, self.history(), h1.len() as int, child);
                    protocol::lemma_shrink_stable(h3, self.history(), h2.len() as int, child);
                }
                return Err(Failure::Error(error));
            },
        }
        let ghost h4 = self.history();
        let result = match self.reap(&mut child_ref) {
            Ok(()) => Ok(()),
            Err(error) => Err(Failure::Error(error)),
        };
        proof {
            protocol::lemma_target_stable(h1, self.history(), start, dir, name@);
            protocol::lemma_childless_stable(h2, self.history(), h1.len() as int, child);
            protocol::lemma_shrink_stable(h3, self.history(), h2.len() as int, child);
            protocol::lemma_detach_stable(h4, self.history(), h3.len() as int, dir, name@, child);
        }
        result
    }

    /// Makes room for a new entry. That there was nothing under the name is fine.
    fn clear(&mut self, dir: u32, name: &str) -> (result: Result<(), Failure>)
        requires
            old(self).wf(),
        ensures
            final(self).wf(),
            final(self).driver().follows(old(self).driver()),
            ran(
                old(self).history(),
                final(self).history(),
                protocol::clear_run(
                    final(self).history(),
                    old(self).history().len() as int,
                    dir,
                    name@,
                ),
                result,
            ),
    {
        match self.unlink(dir, name) {
            Ok(()) => Ok(()),
            Err(Failure::Error(error)) => {
                if error.code == ENOENT {
                    Ok(())
                } else {
                    Err(Failure::Error(error))
                }
            },
            Err(failure) => Err(failure),
        }
    }

    /// Makes a directory that moves name its new parent, and counts the link by `..` there.
    fn reparent(
        &mut self,
        src_dir_ref: &mut InodeRef<B::Inode>,
        dst_dir_ref: &mut InodeRef<B::Inode>,
        src_ref: &InodeRef<B::Inode>,
    ) -> (result: Result<(), Failure>)
        requires
            old(self).wf(),
            old(self).driver().knows(*old(src_dir_ref)),
            old(self).driver().knows(*old(dst_dir_ref)),
            old(self).driver().knows(*src_ref),
        ensures
            final(self).wf(),
            final(self).driver().knows(*final(src_dir_ref)),
            final(self).driver().knows(*final(dst_dir_ref)),
            final(self).driver().follows(old(self).driver()),
            ran(
                old(self).history(),
                final(self).history(),
                protocol::reparent_run(
                    final(self).history(),
                    old(self).history().len() as int,
                    old(src_dir_ref).ino(),
                    old(dst_dir_ref).ino(),
                    src_ref.ino(),
                ),
                result,
            ),
            final(src_dir_ref).ino() == old(src_dir_ref).ino(),
            final(dst_dir_ref).ino() == old(dst_dir_ref).ino(),
    {
        if self.driver.inode_type(src_ref) == InodeType::Directory {
            let src_copy = match self.clone_ref(src_ref) {
                Ok(inode) => inode,
                Err(failure) => {
                    return Err(failure);
                },
            };
            let mut found = match self.driver.lookup(&mut *self.bdev, src_copy, "..") {
                Ok(found) => found,
                Err(error) => {
                    return Err(Failure::Error(error));
                },
            };
            self.driver.redirect(&mut *self.bdev, &mut found, dst_dir_ref.ino());
            self.driver.touch(&mut *self.bdev, src_dir_ref, Touch::DecNlink);
            self.driver.touch(&mut *self.bdev, dst_dir_ref, Touch::IncNlink);
        }
        Ok(())
    }

    /// Moves an entry to a name that is free.
    fn carry(
        &mut self,
        src_dir_ref: &mut InodeRef<B::Inode>,
        src_name: &str,
        dst_dir_ref: &mut InodeRef<B::Inode>,
        dst_name: &str,
    ) -> (result: Result<(), Failure>)
        requires
            old(self).wf(),
            old(self).driver().knows(*old(src_dir_ref)),
            old(self).driver().knows(*old(dst_dir_ref)),
        ensures
            final(self).wf(),
            final(self).driver().follows(old(self).driver()),
            ran(
                old(self).history(),
                final(self).history(),
                protocol::carry_run(
                    final(self).history(),
                    old(self).history().len() as int,
                    old(src_dir_ref).ino(),
                    src_name@,
                    old(dst_dir_ref).ino(),
                    dst_name@,
                ),
                result,
            ),
    {
        let src: u32 = match self.lookup(src_dir_ref.ino(), src_name) {
            Ok(found) => found.ino(),
            Err(error) => {
                return Err(Failure::Error(error));
            },
        };
        let mut src_ref = match self.inode_ref(src) {
            Ok(inode) => inode,
            Err(error) => {
                return Err(Failure::Error(error));
            },
        };
        let ghost h1 = self.history();
        match self.reparent(src_dir_ref, dst_dir_ref, &src_ref) {
            Ok(()) => {},
            Err(failure) => {
                return Err(failure);
            },
        }
        let ghost h2 = self.history();
        let removed = self.driver.entry(
            &mut *self.bdev,
            EntryOp::Remove,
            src_dir_ref,
            src_name,
            &mut src_ref,
        );
        let result = match removed {
            Ok(()) => match self.driver.entry(
                &mut *self.bdev,
                EntryOp::Add,
                dst_dir_ref,
                dst_name,
                &mut src_ref,
            ) {
                Ok(()) => Ok(()),
                Err(error) => Err(Failure::Error(error)),
            },
            Err(error) => Err(Failure::Error(error)),
        };
        proof {
            protocol::lemma_reparent_stable(
                h2,
                self.history(),
                h1.len() as int,
                src_dir_ref.ino(),
                dst_dir_ref.ino(),
                src,
            );
        }
        result
    }

    /// Moves the entry `src_name` of `src_dir` to the name `dst_name` in `dst_dir`. What was
    /// there is unlinked first, before the entry to move is looked up.
    pub fn rename(
        &mut self,
        src_dir: u32,
        src_name: &str,
        dst_dir: u32,
        dst_name: &str,
    ) -> (result: Result<(), Failure>)
        requires
            old(self).wf(),
        ensures
            final(self).wf(),
            final(self).driver().follows(old(self).driver()),
            ran(
                old(self).history(),
                final(self).history(),
                protocol::rename_run(
                    final(self).history(),
                    old(self).history().len() as int,
                    src_dir,
                    src_name@,
                    dst_dir,
                    dst_name@,
                ),
                result,
            ),
    {
        let mut src_dir_ref = match self.inode_ref(src_dir) {
            Ok(inode) => inode,
            Err(error) => {
                return Err(Failure::Error(error));
            },
        };
        let mut dst_dir_ref = match self.inode_ref(dst_dir) {
            Ok(inode) => inode,
            Err(error) => {
                return Err(Failure::Error(error));
            },
        };
        let ghost h0 = self.history();
        match self.clear(dst_dir, dst_name) {
            Ok(()) => {},
            Err(failure) => {
                return Err(failure);
            },
        }
        let ghost h1 = self.history();
        let result = self.carry(&mut src_dir_ref, src_name, &mut dst_dir_ref, dst_name);
        proof {
            let h = self.history();
            protocol::lemma_clear_stable(h1, h, h0.len() as int, dst_dir, dst_name@);
        }
        result
    }

    /// Gives the inode `child` another name, `name` in directory `dir`. Directories are refused.
    pub fn link(&mut self, dir: u32, name: &str, child: u32) -> (result: Ext4Result<()>)
        requires
            old(self).wf(),
        ensures
            final(self).wf(),
            final(self).driver().follows(old(self).driver()),
            ran(
                old(self).history(),
                final(self).history(),
                protocol::link_run(
                    final(self).history(),
                    old(self).history().len() as int,
                    dir,
                    name@,
                    child,
                ),
                protocol::lift(result),
            ),
    {
        let mut child_ref = self.inode_ref(child)?;
        if self.driver.inode_type(&child_ref) == InodeType::Directory {
            return Err(Ext4Error::new(EISDIR, Some("cannot link to directory")));
        }
        let mut dir_ref = self.inode_ref(dir)?;
        self.driver.entry(&mut *self.bdev, EntryOp::Add, &mut dir_ref, name, &mut child_ref)
    }

    /// Allocates an inode and sets up its blocks.
    pub(crate) fn alloc_inode(&mut self, ty: InodeType) -> (result: Ext4Result<InodeRef<B::Inode>>)
        requires
            old(self).wf(),
        ensures
            final(self).wf(),
            result matches Ok(inode) ==> final(self).driver().knows(inode),
            final(self).driver().follows(old(self).driver()),
            ran(
                old(self).history(),
                final(self).history(),
                protocol::alloc_run(final(self).history(), old(self).history().len() as int, ty),
                match result {
                    Ok(inode) => Ok(inode.ino()),
                    Err(error) => Err(Failure::Error(error)),
                },
            ),
    {
        match self.driver.allocate(&mut *self.bdev, ty.to_entry_type()) {
            Ok(mut inode) => {
                self.driver.touch(&mut *self.bdev, &mut inode, Touch::BlocksInit);
                Ok(inode)
            },
            Err(code) => Err(Ext4Error::new(code, Some("ext4_fs_get_inode_ref"))),
        }
    }

    /// Allocates an inode and puts it under `name` into `parent`. Gives the new inode and the
    /// parent.
    fn place(&mut self, parent: u32, name: &str, ty: InodeType) -> (result: Ext4Result<
        (InodeRef<B::Inode>, InodeRef<B::Inode>),
    >)
        requires
            old(self).wf(),
        ensures
            final(self).wf(),
            result matches Ok((child_ref, parent_ref)) ==> {
                &&& final(self).driver().knows(child_ref)
                &&& final(self).driver().knows(parent_ref)
            },
            final(self).driver().follows(old(self).driver()),
            ran(
                old(self).history(),
                final(self).history(),
                protocol::place_run(
                    final(self).history(),
                    old(self).history().len() as int,
                    parent,
                    name@,
                    ty,
                ),
                match result {
                    Ok((child_ref, _)) => Ok(child_ref.ino()),
                    Err(error) => Err(Failure::Error(error)),
                },
            ),
            result matches Ok((_, parent_ref)) ==> parent_ref.ino() == parent,
    {
        let mut child_ref = self.alloc_inode(ty)?;
        let mut parent_ref = self.inode_ref(parent)?;
        match self.driver.entry(
            &mut *self.bdev,
            EntryOp::Add,
            &mut parent_ref,
            name,
            &mut child_ref,
        ) {
            Ok(()) => Ok((child_ref, parent_ref)),
            Err(error) => Err(error),
        }
    }

    /// Gives a new directory its entry `.`. For this it is opened a second time, and closed again
    /// at once.
    fn dot(&mut self, child_ref: &mut InodeRef<B::Inode>) -> (result: Result<(), Failure>)
        requires
            old(self).wf(),
            old(self).driver().knows(*old(child_ref)),
        ensures
            final(self).wf(),
            final(self).driver().knows(*final(child_ref)),
            final(self).driver().follows(old(self).driver()),
            ran(
                old(self).history(),
                final(self).history(),
                protocol::dot_run(
                    final(self).history(),
                    old(self).history().len() as int,
                    old(child_ref).ino(),
                ),
                result,
            ),
            final(child_ref).ino() == old(child_ref).ino(),
    {
        let mut child_copy = match self.clone_ref(child_ref) {
            Ok(inode) => inode,
            Err(failure) => {
                return Err(failure);
            },
        };
        match self.driver.entry(&mut *self.bdev, EntryOp::Add, child_ref, ".", &mut child_copy) {
            Ok(()) => Ok(()),
            Err(error) => Err(Failure::Error(error)),
        }
    }

    /// Gives a new directory its entries `.` and `..`.
    fn dots(
        &mut self,
        parent_ref: &mut InodeRef<B::Inode>,
        child_ref: &mut InodeRef<B::Inode>,
    ) -> (result: Result<(), Failure>)
        requires
            old(self).wf(),
            old(self).driver().knows(*old(parent_ref)),
            old(self).driver().knows(*old(child_ref)),
        ensures
            final(self).wf(),
            final(self).driver().knows(*final(child_ref)),
            final(self).driver().follows(old(self).driver()),
            ran(
                old(self).history(),
                final(self).history(),
                protocol::dots_run(
                    final(self).history(),
                    old(self).history().len() as int,
                    old(parent_ref).ino(),
                    old(child_ref).ino(),
                ),
                result,
            ),
            final(child_ref).ino() == old(child_ref).ino(),
    {
        match self.dot(child_ref) {
            Ok(()) => {},
            Err(failure) => {
                return Err(failure);
            },
        }
        match self.driver.entry(&mut *self.bdev, EntryOp::Add, child_ref, "..", parent_ref) {
            Ok(()) => {},
            Err(error) => {
                return Err(Failure::Error(error));
            },
        }
        if self.driver.field(child_ref, Field::Nlink) == 2 {
            Ok(())
        } else {
            Err(Failure::Broken("a new directory must have two links"))
        }
    }

    /// Makes a new inode of type `ty`, under `name` in directory `parent`, with the permission
    /// bits of `mode`. A new directory has the entries `.` and `..`.
    pub fn create(&mut self, parent: u32, name: &str, ty: InodeType, mode: u32) -> (result: Result<
        u32,
        Failure,
    >)
        requires
            old(self).wf(),
        ensures
            final(self).wf(),
            final(self).driver().follows(old(self).driver()),
            ran(
                old(self).history(),
                final(self).history(),
                protocol::create_run(
                    final(self).history(),
                    old(self).history().len() as int,
                    parent,
                    name@,
                    ty,
                    mode,
                ),
                result,
            ),
    {
        let ghost start = self.history().len() as int;
        let (mut child_ref, mut parent_ref) = match self.place(parent, name, ty) {
            Ok(refs) => refs,
            Err(error) => {
                return Err(Failure::Error(error));
            },
        };
        let ghost h1 = self.history();
        if ty == InodeType::Directory {
            match self.dots(&mut parent_ref, &mut child_ref) {
                Ok(()) => {},
                Err(failure) => {
                    proof {
                        protocol::lemma_place_stable(h1, self.history(), start, parent, name@, ty);
                    }
                    return Err(failure);
                },
            }
        }
        let ghost h2 = self.history();
        let current: u32 = self.driver.field(&child_ref, Field::Mode);
        let merged: u32 = with_permissions(current, mode);
        self.driver.touch(&mut *self.bdev, &mut child_ref, Touch::SetMode(merged));
        proof {
            let h = self.history();
            protocol::lemma_place_stable(h1, h, start, parent, name@, ty);
            if ty == InodeType::Directory {
                protocol::lemma_dots_stable(h2, h, h1.len() as int, parent, child_ref.ino());
            }
        }
        Ok(child_ref.ino())
    }

    /// Opens inode `ino` and hands it to `f`. If it cannot be opened, `f` is not called.
    pub fn with_inode_ref<R, F: FnOnce(&mut B::Inode) -> Ext4Result<R>>(
        &mut self,
        ino: u32,
        f: F,
    ) -> (result: Ext4Result<R>)
        requires
            old(self).wf(),
            forall|inode: &mut B::Inode| #[trigger] call_requires(f, (inode,)),
        ensures
            final(self).wf(),
            final(self).driver().follows(old(self).driver()),
            final(self).history().len() == old(self).history().len() + 1,
            protocol::extends(old(self).history(), final(self).history()),
            match protocol::open_run(
                final(self).history(),
                old(self).history().len() as int,
                ino,
            ) {
                None => false,
                Some((Ok(_), _)) => exists|
                    b: &mut B,
                    d: &mut Ext4BlockDevice<Dev>,
                    handle: B::Inode,
                    inode: &mut B::Inode,
                |
                    {
                        &&& #[trigger] call_ensures(
                            <B as Backend<Dev>>::open,
                            (b, d, ino),
                            Ok::<B::Inode, i32>(handle),
                        )
                        &&& *b == old(self).driver().backend()
                        &&& *final(b) == final(self).driver().backend()
                        &&& *d == old(self).block_device()
                        &&& *final(d) == final(self).block_device()
                        &&& *inode == handle
                        &&& #[trigger] call_ensures(f, (inode,), result)
                    },
                Some((Err(failure), _)) => protocol::lift(request::outline(result)) == Err::<
                    (),
                    Failure,
                >(failure),
            },
    {
        let inode = self.inode_ref(ino)?;
        inode.lend(f)
    }

    /// Reads the attributes of an inode.
    pub fn get_attr(&mut self, ino: u32, attr: &mut FileAttr) -> (result: Ext4Result<()>)
        requires
            old(self).wf(),
        ensures
            final(self).wf(),
            final(self).driver().follows(old(self).driver()),
            ran(
                old(self).history(),
                final(self).history(),
                protocol::get_attr_run(
                    final(self).history(),
                    old(self).history().len() as int,
                    ino,
                ),
                match result {
                    Ok(()) => Ok(*final(attr)),
                    Err(error) => Err(Failure::Error(error)),
                },
            ),
            result is Err ==> *final(attr) == *old(attr),
            result is Ok ==> exists|
                b: &mut B,
                d: &mut Ext4BlockDevice<Dev>,
                i: &B::Inode,
            |
                {
                    &&& #[trigger] call_ensures(
                        <B as Backend<Dev>>::attributes,
                        (b, d, i),
                        *final(attr),
                    )
                    &&& *final(b) == final(self).driver().backend()
                    &&& *final(d) == final(self).block_device()
                    &&& request::given(
                        final(self).driver().events(),
                        final(self).history().len() as int,
                        Handle::Inode(ino, *i),
                    )
                },
    {
        let inode = self.inode_ref(ino)?;
        *attr = self.driver.attributes(&mut *self.bdev, &inode);
        proof {
            driver::lemma_known_is_given(self.driver, inode);
        }
        Ok(())
    }

    /// Reads from an inode, from byte `offset` on, and gives how many bytes were read.
    pub fn read_at(&mut self, ino: u32, buf: &mut [u8], offset: u64) -> (result: Ext4Result<usize>)
        requires
            old(self).wf(),
        ensures
            final(self).wf(),
            final(self).driver().follows(old(self).driver()),
            protocol::extends(old(self).history(), final(self).history()),
            protocol::read_at_run(
                final(self).history(),
                old(self).history().len() as int,
                ino,
                old(buf)@,
                offset,
            ) == Some(
                (protocol::lift(result), final(buf)@, final(self).history().len() as int),
            ),
            result is Ok ==> exists|
                b: &mut B,
                d: &mut Ext4BlockDevice<Dev>,
                i: &mut B::Inode,
                s: &mut [u8],
            |
                {
                    &&& #[trigger] call_ensures(
                        <B as Backend<Dev>>::read_at,
                        (b, d, i, s, offset),
                        result,
                    )
                    &&& *final(b) == final(self).driver().backend()
                    &&& *final(d) == final(self).block_device()
                    &&& request::given(
                        final(self).driver().events(),
                        final(self).history().len() as int,
                        Handle::Inode(ino, *i),
                    )
                    &&& s@ == old(buf)@
                    &&& final(s)@ == final(buf)@
                },
    {
        let mut inode = self.inode_ref(ino)?;
        let ghost opened = inode;
        let result = self.driver.read_at(&mut *self.bdev, &mut inode, buf, offset);
        proof {
            driver::lemma_known_is_given(self.driver, opened);
        }
        result
    }

    /// Writes to an inode, from byte `offset` on, and gives how many bytes were written.
    pub fn write_at(&mut self, ino: u32, buf: &[u8], offset: u64) -> (result: Ext4Result<usize>)
        requires
            old(self).wf(),
        ensures
            final(self).wf(),
            final(self).driver().follows(old(self).driver()),
            ran(
                old(self).history(),
                final(self).history(),
                protocol::write_at_run(
                    final(self).history(),
                    old(self).history().len() as int,
                    ino,
                    buf@,
                    offset,
                ),
                protocol::lift(result),
            ),
            result is Ok ==> exists|
                b: &mut B,
                d: &mut Ext4BlockDevice<Dev>,
                i: &mut B::Inode,
            |
                {
                    &&& #[trigger] call_ensures(
                        <B as Backend<Dev>>::write_at,
                        (b, d, i, buf, offset),
                        result,
                    )
                    &&& *final(b) == final(self).driver().backend()
                    &&& *final(d) == final(self).block_device()
                    &&& request::given(
                        final(self).driver().events(),
                        final(self).history().len() as int,
                        Handle::Inode(ino, *i),
                    )
                },
    {
        let mut inode = self.inode_ref(ino)?;
        let ghost opened = inode;
        let result = self.driver.write_at(&mut *self.bdev, &mut inode, buf, offset);
        proof {
            driver::lemma_known_is_given(self.driver, opened);
        }
        result
    }

    /// Sets the length of an inode's contents.
    pub fn set_len(&mut self, ino: u32, len: u64) -> (result: Ext4Result<()>)
        requires
            old(self).wf(),
        ensures
            final(self).wf(),
            final(self).driver().follows(old(self).driver()),
            ran(
                old(self).history(),
                final(self).history(),
                protocol::edit_run(
                    final(self).history(),
                    old(self).history().len() as int,
                    ino,
                    ChangeView::SetLen(len),
                ),
                protocol::lift(result),
            ),
            result is Ok ==> exists|
                b: &mut B,
                d: &mut Ext4BlockDevice<Dev>,
                i: &mut B::Inode,
                change: Change<'_>,
            |
                {
                    &&& #[trigger] call_ensures(
                        <B as Backend<Dev>>::change,
                        (b, d, i, change),
                        result,
                    )
                    &&& *final(b) == final(self).driver().backend()
                    &&& *final(d) == final(self).block_device()
                    &&& request::given(
                        final(self).driver().events(),
                        final(self).history().len() as int,
                        Handle::Inode(ino, *i),
                    )
                    &&& change == Change::SetLen(len)
                },
    {
        let mut inode = self.inode_ref(ino)?;
        let ghost opened = inode;
        let result = self.driver.change(&mut *self.bdev, &mut inode, Change::SetLen(len));
        proof {
            driver::lemma_known_is_given(self.driver, opened);
        }
        result
    }

    /// Sets the target of a symbolic link.
    pub fn set_symlink(&mut self, ino: u32, buf: &[u8]) -> (result: Ext4Result<()>)
        requires
            old(self).wf(),
        ensures
            final(self).wf(),
            final(self).driver().follows(old(self).driver()),
            ran(
                old(self).history(),
                final(self).history(),
                protocol::edit_run(
                    final(self).history(),
                    old(self).history().len() as int,
                    ino,
                    ChangeView::SetSymlink(buf@),
                ),
                protocol::lift(result),
            ),
            result is Ok ==> exists|
                b: &mut B,
                d: &mut Ext4BlockDevice<Dev>,
                i: &mut B::Inode,
                change: Change<'_>,
            |
                {
                    &&& #[trigger] call_ensures(
                        <B as Backend<Dev>>::change,
                        (b, d, i, change),
                        result,
                    )
                    &&& *final(b) == final(self).driver().backend()
                    &&& *final(d) == final(self).block_device()
                    &&& request::given(
                        final(self).driver().events(),
                        final(self).history().len() as int,
                        Handle::Inode(ino, *i),
                    )
                    &&& change == Change::SetSymlink(buf)
                },
    {
        let mut inode = self.inode_ref(ino)?;
        let ghost opened = inode;
        let result = self.driver.change(&mut *self.bdev, &mut inode, Change::SetSymlink(buf));
        proof {
            driver::lemma_known_is_given(self.driver, opened);
        }
        result
    }

    /// Looks `name` up in directory `parent`.
    pub fn lookup(&mut self, parent: u32, name: &str) -> (result: Ext4Result<
        DirLookupResult<B::Entry>,
    >)
        requires
            old(self).wf(),
        ensures
            final(self).wf(),
            final(self).driver().follows(old(self).driver()),
            ran(
                old(self).history(),
                final(self).history(),
                protocol::lookup_run(
                    final(self).history(),
                    old(self).history().len() as int,
                    parent,
                    name@,
                ),
                match result {
                    Ok(found) => Ok(found.ino()),
                    Err(error) => Err(Failure::Error(error)),
                },
            ),
            result matches Ok(found) ==> {
                &&& found.place() == (parent, name@)
                &&& final(self).driver().knows_entry(found)
                &&& exists|
                    b: &mut B,
                    d: &mut Ext4BlockDevice<Dev>,
                    dir: B::Inode,
                    reply: Ext4Result<(u32, B::Entry)>,
                |
                    {
                        &&& #[trigger] call_ensures(
                            <B as Backend<Dev>>::lookup,
                            (b, d, dir, name),
                            reply,
                        )
                        &&& reply == Ok::<(u32, B::Entry), Ext4Error>((found.ino(), found.handle()))
                        &&& *final(b) == final(self).driver().backend()
                        &&& *final(d) == final(self).block_device()
                        &&& request::given(
                            final(self).driver().events(),
                            final(self).history().len() as int,
                            Handle::Inode(parent, dir),
                        )
                    }
            },
    {
        let dir = self.inode_ref(parent)?;
        let ghost opened = dir;
        let result = self.driver.lookup(&mut *self.bdev, dir, name);
        proof {
            driver::lemma_known_is_given(self.driver, opened);
        }
        result
    }

    /// Starts reading directory `parent` at `offset`.
    pub fn read_dir(&mut self, parent: u32, offset: u64) -> (result: Ext4Result<B::Reader>)
        requires
            old(self).wf(),
        ensures
            final(self).wf(),
            final(self).driver().follows(old(self).driver()),
            ran(
                old(self).history(),
                final(self).history(),
                protocol::read_dir_run(
                    final(self).history(),
                    old(self).history().len() as int,
                    parent,
                    offset,
                ),
                protocol::lift(request::outline(result)),
            ),
            result is Ok ==> exists|b: &mut B, d: &mut Ext4BlockDevice<Dev>, dir: B::Inode|
                {
                    &&& #[trigger] call_ensures(
                        <B as Backend<Dev>>::read_dir,
                        (b, d, dir, offset),
                        result,
                    )
                    &&& *final(b) == final(self).driver().backend()
                    &&& *final(d) == final(self).block_device()
                    &&& request::given(
                        final(self).driver().events(),
                        final(self).history().len() as int,
                        Handle::Inode(parent, dir),
                    )
                },
    {
        let dir = self.inode_ref(parent)?;
        let ghost opened = dir;
        let result = self.driver.read_dir(&mut *self.bdev, dir, offset);
        proof {
            driver::lemma_known_is_given(self.driver, opened);
        }
        result
    }

    /// Counts and sizes of the filesystem.
    pub fn stat(&mut self) -> (result: Ext4Result<StatFs>)
        requires
            old(self).wf(),
        ensures
            final(self).wf(),
            final(self).driver().follows(old(self).driver()),
            final(self).block_device() == old(self).block_device(),
            result is Ok,
            ran(
                old(self).history(),
                final(self).history(),
                protocol::stat_run(final(self).history(), old(self).history().len() as int),
                match result {
                    Ok(stat) => Ok(stat@),
                    Err(error) => Err(Failure::Error(error)),
                },
            ),
            exists|b: &mut B, sb: Superblock|
                {
                    &&& #[trigger] call_ensures(<B as Backend<Dev>>::superblock, (b,), sb)
                    &&& *b == old(self).driver().backend()
                    &&& *final(b) == final(self).driver().backend()
                    &&& result matches Ok(stat) ==> {
                        &&& stat.inodes_count == sb@.inodes_count
                        &&& stat.free_inodes_count == sb@.free_inodes_count
                        &&& stat.blocks_count == sb@.blocks_count
                        &&& stat.free_blocks_count == sb@.free_blocks_count
                        &&& stat.block_size == sb@.block_size
                    }
                },
    {
        let sb = self.driver.superblock();
        Ok(StatFs::from_superblock(&sb))
    }

    /// Writes out all that is held back: first by the C library, then by the device.
    pub fn flush(&mut self) -> (result: Ext4Result<()>)
        requires
            old(self).wf(),
        ensures
            final(self).wf(),
            final(self).driver().follows(old(self).driver()),
            ran(
                old(self).history(),
                final(self).history(),
                protocol::flush_run(final(self).history(), old(self).history().len() as int),
                protocol::lift(result),
            ),
    {
        let code: i32 = self.driver.call(&mut *self.bdev, LibCall::BlockCacheFlush);
        check(code, "ext4_cache_flush")?;
        self.driver.flush_device(&mut *self.bdev)
    }
}

/// Delayed writes, from `new` to `close`. In between, work is done through the guard.
pub struct WritebackGuard<'a, Dev: BlockDevice, B: Backend<Dev>> {
    pub driver: &'a mut Driver<Dev, B>,
    pub bdev: &'a mut Ext4BlockDevice<Dev>,
}

impl<'a, Dev: BlockDevice, B: Backend<Dev>> WritebackGuard<'a, Dev, B> {
    /// Has writes delayed.
    pub fn new(driver: &'a mut Driver<Dev, B>, bdev: &'a mut Ext4BlockDevice<Dev>) -> (guard: Self)
        requires
            old(driver).serves(*old(bdev)),
        ensures
            guard.driver.serves(*guard.bdev),
            guard.driver.follows(*old(driver)),
            guard.driver.history().len() == old(driver).history().len() + 1,
            protocol::extends(old(driver).history(), guard.driver.history()),
            protocol::call_at(
                guard.driver.history(),
                old(driver).history().len() as int,
                LibCall::BlockCacheWriteBack(1),
            ),
            *final(driver) == *final(guard.driver),
            *final(bdev) == *final(guard.bdev),
    {
        driver.call(bdev, LibCall::BlockCacheWriteBack(1));
        WritebackGuard { driver, bdev }
    }

    /// Has delayed writes written out, and later ones done at once.
    pub fn close(self)
        requires
            self.driver.serves(*self.bdev),
        ensures
            final(self.driver).serves(*final(self.bdev)),
            final(self.driver).follows(*old(self.driver)),
            final(self.driver).history().len() == old(self.driver).history().len() + 1,
            protocol::extends(old(self.driver).history(), final(self.driver).history()),
            protocol::call_at(
                final(self.driver).history(),
                old(self.driver).history().len() as int,
                LibCall::BlockCacheWriteBack(0),
            ),
    {
        self.driver.call(self.bdev, LibCall::BlockCacheWriteBack(0));
    }
}

} // verus!
