//! The block device under the filesystem.

use crate::backend::{Backend, LibCall};
use crate::driver::Driver;
use crate::error::{check, Ext4Error, Ext4Result, Failure, EIO, EOK};
use crate::protocol;
use crate::request;
use vstd::prelude::*;

verus! {

/// Device block size.
pub const EXT4_DEV_BSIZE: usize = 512;

pub trait BlockDevice {
    /// Writes blocks to the device, starting from the given block ID.
    fn write_blocks(&mut self, block_id: u64, buf: &[u8]) -> Ext4Result<usize>;

    /// Reads blocks from the device, starting from the given block ID.
    fn read_blocks(&mut self, block_id: u64, buf: &mut [u8]) -> Ext4Result<usize>;

    /// Gets the number of blocks on the device.
    fn num_blocks(&self) -> Ext4Result<u64>;

    /// Writes out what the device itself holds back. A device that holds nothing back can leave
    /// this as it is.
    fn flush_cache(&mut self) -> (result: Ext4Result<()>)
        default_ensures
            result == Ok::<(), Ext4Error>(()),
    {
        Ok(())
    }
}

/// How the device is cut into blocks, and which part of it the filesystem uses. All sizes and
/// offsets are in bytes.
#[derive(Debug, Clone, Copy, PartialEq, Eq)]
pub struct DeviceLayout {
    /// Size of a block.
    pub ph_bsize: u32,
    /// Number of blocks.
    pub ph_bcnt: u64,
    /// Where the part starts.
    pub part_offset: u64,
    /// How long the part is.
    pub part_size: u64,
}

/// A block device as the C library uses it: the device itself, its layout, and the callbacks
/// `dev_open`, `dev_bread`, `dev_bwrite` and `dev_close`.
pub struct Ext4BlockDevice<Dev: BlockDevice> {
    dev: Dev,
    ph_bcnt: u64,
    part_offset: u64,
    part_size: u64,
}

/// The layout of a device that has not been opened.
pub open spec fn unopened() -> DeviceLayout {
    DeviceLayout { ph_bsize: 512, ph_bcnt: 0, part_offset: 0, part_size: 0 }
}

/// The layout of an open device with that many blocks: the filesystem has all of it.
pub open spec fn opened(blocks: u64) -> DeviceLayout {
    DeviceLayout {
        ph_bsize: 512,
        ph_bcnt: blocks,
        part_offset: 0,
        part_size: (512 * blocks) as u64,
    }
}

/// The status that the C library is told for a reply of the device.
pub open spec fn io_status<T>(reply: Ext4Result<T>) -> i32 {
    if reply is Ok {
        EOK
    } else {
        EIO
    }
}

/// What opening comes to when the device has answered how many blocks it has: the status for
/// the C library, and the layout from then on. A device of which the size in bytes does not
/// fit in 64 bits cannot be opened.
pub open spec fn open_outcome(before: DeviceLayout, reply: Ext4Result<u64>) -> (
    Result<i32, Failure>,
    DeviceLayout,
) {
    match reply {
        Err(_) => (Ok(EIO), before),
        Ok(blocks) => if 512 * blocks <= u64::MAX {
            (Ok(EOK), opened(blocks))
        } else {
            (
                Err(Failure::Broken("device size overflow")),
                DeviceLayout { ph_bcnt: blocks, part_offset: 0, ..before },
            )
        },
    }
}

impl<Dev: BlockDevice> Ext4BlockDevice<Dev> {
    /// The device itself.
    pub closed spec fn device(&self) -> Dev {
        self.dev
    }

    /// Its layout.
    pub closed spec fn spec_layout(&self) -> DeviceLayout {
        DeviceLayout {
            ph_bsize: 512,
            ph_bcnt: self.ph_bcnt,
            part_offset: self.part_offset,
            part_size: self.part_size,
        }
    }

    pub fn layout(&self) -> (layout: DeviceLayout)
        ensures
            layout == self.spec_layout(),
            layout.ph_bsize == 512,
    {
        DeviceLayout {
            ph_bsize: EXT4_DEV_BSIZE as u32,
            ph_bcnt: self.ph_bcnt,
            part_offset: self.part_offset,
            part_size: self.part_size,
        }
    }

    /// Sets the device up for the C library, with delayed writes. If those cannot be had, it is
    /// taken down again. All that is asked of the device is asked by the C library, which gets
    /// it unopened; the device comes back as the last call left it.
    pub fn new<B: Backend<Dev>>(dev: Dev, driver: &mut Driver<Dev, B>) -> (result: Ext4Result<
        Self,
    >)
        requires
            old(driver).wf(),
        ensures
            final(driver).wf(),
            final(driver).resumes(*old(driver)),
            protocol::extends(old(driver).history(), final(driver).history()),
            protocol::device_run(final(driver).history(), old(driver).history().len() as int)
                == Some(
                (protocol::lift(request::outline(result)), final(driver).history().len() as int),
            ),
            final(driver).first_device() matches Some(first) && first.device() == dev
                && first.spec_layout() == unopened(),
            result matches Ok(bdev) ==> final(driver).serves(bdev),
    {
        let mut bdev = Ext4BlockDevice { dev, ph_bcnt: 0, part_offset: 0, part_size: 0 };
        let layout = bdev.layout();
        let code: i32 = driver.call(&mut bdev, LibCall::BlockInit(layout));
        match check(code, "ext4_block_init") {
            Ok(()) => {},
            Err(error) => {
                return Err(error);
            },
        }
        let code: i32 = driver.call(&mut bdev, LibCall::BlockCacheWriteBack(1));
        match check(code, "ext4_block_cache_write_back") {
            Ok(()) => {},
            Err(error) => {
                bdev.close(driver);
                return Err(error);
            },
        }
        Ok(bdev)
    }

    /// Takes the device down.
    pub fn close<B: Backend<Dev>>(&mut self, driver: &mut Driver<Dev, B>)
        requires
            old(driver).serves(*old(self)),
        ensures
            final(driver).serves(*final(self)),
            final(driver).follows(*old(driver)),
            final(driver).history().len() == old(driver).history().len() + 1,
            protocol::extends(old(driver).history(), final(driver).history()),
            protocol::call_at(
                final(driver).history(),
                old(driver).history().len() as int,
                LibCall::BlockFini,
            ),
    {
        driver.call(self, LibCall::BlockFini);
    }

    /// Opens the device: asks it for its size and lays it out. A device that cannot tell is
    /// reported to the C library as `EIO`.
    pub fn dev_open(&mut self) -> (status: Result<i32, Failure>)
        ensures
            final(self).device() == old(self).device(),
            exists|dev: &Dev, reply: Ext4Result<u64>|
                {
                    &&& #[trigger] call_ensures(Dev::num_blocks, (dev,), reply)
                    &&& *dev == old(self).device()
                    &&& (status, final(self).spec_layout()) == open_outcome(
                        old(self).spec_layout(),
                        reply,
                    )
                },
    {
        match self.dev.num_blocks() {
            Ok(blocks) => {
                self.ph_bcnt = blocks;
            },
            Err(_) => {
                return Ok(EIO);
            },
        }
        self.part_offset = 0;
        match self.ph_bcnt.checked_mul(EXT4_DEV_BSIZE as u64) {
            Some(part_size) => {
                self.part_size = part_size;
                Ok(EOK)
            },
            None => Err(Failure::Broken("device size overflow")),
        }
    }

    /// The number of bytes in `blk_cnt` blocks. The C library counts them in 32 bits.
    pub fn transfer_len(blk_cnt: u32) -> (len: Option<usize>)
        ensures
            len is Some <==> 512 * blk_cnt <= u32::MAX,
            len matches Some(n) ==> n == 512 * blk_cnt,
    {
        match (EXT4_DEV_BSIZE as u32).checked_mul(blk_cnt) {
            Some(len) => Some(len as usize),
            None => None,
        }
    }

    /// Reads `blk_cnt` blocks, starting from block `blk_id`, into a buffer of just that size.
    /// Nothing is asked of the device for no blocks at all.
    pub fn dev_bread(&mut self, buf: &mut [u8], blk_id: u64, blk_cnt: u32) -> (status: i32)
        requires
            512 * blk_cnt <= u32::MAX,
            old(buf)@.len() == 512 * blk_cnt,
        ensures
            final(self).spec_layout() == old(self).spec_layout(),
            blk_cnt == 0 ==> {
                &&& status == EOK
                &&& final(self).device() == old(self).device()
                &&& final(buf)@ == old(buf)@
            },
            blk_cnt != 0 ==> exists|dev: &mut Dev, space: &mut [u8], reply: Ext4Result<usize>|
                {
                    &&& #[trigger] call_ensures(Dev::read_blocks, (dev, blk_id, space), reply)
                    &&& *dev == old(self).device()
                    &&& *final(dev) == final(self).device()
                    &&& space@ == old(buf)@
                    &&& final(space)@ == final(buf)@
                    &&& status == io_status(reply)
                },
    {
        if blk_cnt == 0 {
            return EOK;
        }
        if self.dev.read_blocks(blk_id, buf).is_err() {
            return EIO;
        }
        EOK
    }

    /// Writes a buffer of `blk_cnt` blocks to the device, starting from block `blk_id`.
    /// Nothing is asked of the device for no blocks at all.
    pub fn dev_bwrite(&mut self, buf: &[u8], blk_id: u64, blk_cnt: u32) -> (status: i32)
        requires
            512 * blk_cnt <= u32::MAX,
            buf@.len() == 512 * blk_cnt,
        ensures
            final(self).spec_layout() == old(self).spec_layout(),
            blk_cnt == 0 ==> status == EOK && final(self).device() == old(self).device(),
            blk_cnt != 0 ==> exists|dev: &mut Dev, reply: Ext4Result<usize>|
                {
                    &&& #[trigger] call_ensures(Dev::write_blocks, (dev, blk_id, buf), reply)
                    &&& *dev == old(self).device()
                    &&& *final(dev) == final(self).device()
                    &&& status == io_status(reply)
                },
    {
        if blk_cnt == 0 {
            return EOK;
        }
        if self.dev.write_blocks(blk_id, buf).is_err() {
            return EIO;
        }
        EOK
    }

    /// Closes the device. There is nothing to do.
    pub fn dev_close(&mut self) -> (status: i32)
        ensures
            status == EOK,
            *final(self) == *old(self),
    {
        EOK
    }

    /// Has the device write out what it holds back.
    pub fn flush_cache(&mut self) -> (result: Ext4Result<()>)
        ensures
            final(self).spec_layout() == old(self).spec_layout(),
            exists|dev: &mut Dev|
                {
                    &&& #[trigger] call_ensures(Dev::flush_cache, (dev,), result)
                    &&& *dev == old(self).device()
                    &&& *final(dev) == final(self).device()
                },
    {
        self.dev.flush_cache()
    }
}

} // verus!
