use lwext4_fs::backend::{Backend, Change, EntryOp, Field, LibCall, Touch};
use lwext4_fs::blockdev::{BlockDevice, DeviceLayout, Ext4BlockDevice, EXT4_DEV_BSIZE};
use lwext4_fs::driver::Driver;
use lwext4_fs::error::{Ext4Error, Ext4Result, Failure, EIO, EOK};
use lwext4_fs::inode::{FileAttr, InodeType};
use lwext4_fs::superblock::Superblock;

/// A device with one byte value per block.
struct Disk {
    blocks: Ext4Result<u64>,
    bytes: Vec<u8>,
    calls: u32,
}

fn disk(blocks: u64) -> Disk {
    Disk { blocks: Ok(blocks), bytes: vec![0; 4], calls: 0 }
}

fn no_disk() -> Ext4Error {
    Ext4Error::new(70, Some("disk"))
}

impl BlockDevice for Disk {
    fn write_blocks(&mut self, block_id: u64, buf: &[u8]) -> Ext4Result<usize> {
        self.calls += 1;
        for (k, block) in buf.chunks(512).enumerate() {
            let at = block_id as usize + k;
            if at >= self.bytes.len() {
                return Err(no_disk());
            }
            self.bytes[at] = block[0];
        }
        Ok(buf.len())
    }

    fn read_blocks(&mut self, block_id: u64, buf: &mut [u8]) -> Ext4Result<usize> {
        self.calls += 1;
        for (k, block) in buf.chunks_mut(512).enumerate() {
            let at = block_id as usize + k;
            if at >= self.bytes.len() {
                return Err(no_disk());
            }
            block.fill(self.bytes[at]);
        }
        Ok(buf.len())
    }

    fn num_blocks(&self) -> Ext4Result<u64> {
        self.blocks
    }

    fn flush_cache(&mut self) -> Ext4Result<()> {
        self.calls += 1;
        if self.calls == 1 {
            Ok(())
        } else {
            Err(no_disk())
        }
    }
}

/// A backend for a device alone: every call goes well.
struct Calls;

impl<Dev: BlockDevice> Backend<Dev> for Calls {
    type Inode = ();
    type Entry = ();
    type Reader = ();

    fn call(&mut self, _bdev: &mut Ext4BlockDevice<Dev>, _call: LibCall) -> i32 {
        0
    }

    fn superblock(&mut self) -> Superblock {
        unreachable!()
    }

    fn cache_item_size(&mut self) -> u32 {
        unreachable!()
    }

    fn open(&mut self, _bdev: &mut Ext4BlockDevice<Dev>, _ino: u32) -> Result<(), i32> {
        unreachable!()
    }

    fn allocate(&mut self, _bdev: &mut Ext4BlockDevice<Dev>, _ty: u32) -> Result<(u32, ()), i32> {
        unreachable!()
    }

    fn inode_type(&mut self, _inode: &()) -> InodeType {
        unreachable!()
    }

    fn field(&mut self, _inode: &(), _field: Field) -> u32 {
        unreachable!()
    }

    fn touch(&mut self, _bdev: &mut Ext4BlockDevice<Dev>, _inode: &mut (), _touch: Touch) {
        unreachable!()
    }

    fn change(
        &mut self,
        _bdev: &mut Ext4BlockDevice<Dev>,
        _inode: &mut (),
        _change: Change<'_>,
    ) -> Ext4Result<()> {
        unreachable!()
    }

    fn entry(
        &mut self,
        _bdev: &mut Ext4BlockDevice<Dev>,
        _op: EntryOp,
        _dir: &mut (),
        _name: &str,
        _child: &mut (),
    ) -> Ext4Result<()> {
        unreachable!()
    }

    fn has_children(
        &mut self,
        _bdev: &mut Ext4BlockDevice<Dev>,
        _inode: &mut (),
    ) -> Ext4Result<bool> {
        unreachable!()
    }

    fn lookup(
        &mut self,
        _bdev: &mut Ext4BlockDevice<Dev>,
        _dir: (),
        _name: &str,
    ) -> Ext4Result<(u32, ())> {
        unreachable!()
    }

    fn redirect(&mut self, _bdev: &mut Ext4BlockDevice<Dev>, _entry: &mut (), _ino: u32) {
        unreachable!()
    }

    fn read_dir(
        &mut self,
        _bdev: &mut Ext4BlockDevice<Dev>,
        _dir: (),
        _offset: u64,
    ) -> Ext4Result<()> {
        unreachable!()
    }

    fn read_at(
        &mut self,
        _bdev: &mut Ext4BlockDevice<Dev>,
        _inode: &mut (),
        _buf: &mut [u8],
        _offset: u64,
    ) -> Ext4Result<usize> {
        unreachable!()
    }

    fn write_at(
        &mut self,
        _bdev: &mut Ext4BlockDevice<Dev>,
        _inode: &mut (),
        _buf: &[u8],
        _offset: u64,
    ) -> Ext4Result<usize> {
        unreachable!()
    }

    fn attributes(&mut self, _bdev: &mut Ext4BlockDevice<Dev>, _inode: &()) -> FileAttr {
        unreachable!()
    }
}

fn device(disk: Disk) -> Ext4BlockDevice<Disk> {
    Ext4BlockDevice::new(disk, &mut Driver::new(Calls)).ok().unwrap()
}

fn unopened() -> DeviceLayout {
    DeviceLayout { ph_bsize: 512, ph_bcnt: 0, part_offset: 0, part_size: 0 }
}

#[test]
fn block_size_is_512() {
    assert_eq!(EXT4_DEV_BSIZE, 512);
}

#[test]
fn open_lays_the_device_out() {
    let mut bdev = device(disk(1000));
    assert_eq!(bdev.layout(), unopened());
    assert_eq!(bdev.dev_open(), Ok(EOK));
    let layout = DeviceLayout { ph_bcnt: 1000, part_size: 512_000, ..unopened() };
    assert_eq!(bdev.layout(), layout);
    assert_eq!(bdev.dev_close(), EOK);
    assert_eq!(bdev.layout(), layout);
}

#[test]
fn open_reports_a_device_without_size() {
    let mut bdev = device(Disk { blocks: Err(no_disk()), ..disk(0) });
    assert_eq!(bdev.dev_open(), Ok(EIO));
    assert_eq!(bdev.layout(), unopened());
    assert_eq!(EIO, 5);
}

#[test]
fn open_stops_on_overflow() {
    let largest = u64::MAX / 512;
    let mut bdev = device(disk(largest));
    assert_eq!(bdev.dev_open(), Ok(EOK));
    assert_eq!(bdev.layout().part_size, u64::MAX - 511);
    let mut bdev = device(disk(largest + 1));
    assert_eq!(bdev.dev_open(), Err(Failure::Broken("device size overflow")));
    assert_eq!(bdev.layout(), DeviceLayout { ph_bcnt: largest + 1, ..unopened() });
}

#[test]
fn transfer_len_counts_bytes() {
    assert_eq!(Ext4BlockDevice::<Disk>::transfer_len(0), Some(0));
    assert_eq!(Ext4BlockDevice::<Disk>::transfer_len(3), Some(1536));
    assert_eq!(Ext4BlockDevice::<Disk>::transfer_len(0x7f_ffff), Some(0xffff_fe00));
    assert_eq!(Ext4BlockDevice::<Disk>::transfer_len(0x80_0000), None);
}

#[test]
fn blocks_read_back_as_written() {
    let mut bdev = device(disk(4));
    let mut bytes = vec![7u8; 1024];
    bytes[512..].fill(8);
    assert_eq!(bdev.dev_bwrite(&bytes, 1, 2), EOK);
    let mut buf = vec![1u8; 1536];
    assert_eq!(bdev.dev_bread(&mut buf, 0, 3), EOK);
    assert_eq!(buf[..512], [0u8; 512]);
    assert_eq!(buf[512..], bytes);
}

#[test]
fn device_errors_are_reported() {
    let mut bdev = device(disk(4));
    assert_eq!(bdev.dev_bwrite(&[0u8; 512], 4, 1), EIO);
    let mut buf = [0u8; 512];
    assert_eq!(bdev.dev_bread(&mut buf, 9, 1), EIO);
}

#[test]
fn no_blocks_no_request() {
    let mut bdev = device(disk(4));
    assert_eq!(bdev.dev_bwrite(&[], 99, 0), EOK);
    assert_eq!(bdev.dev_bread(&mut [], 99, 0), EOK);
    // The device answers its first request, and none came before this one.
    assert_eq!(bdev.flush_cache(), Ok(()));
    assert_eq!(bdev.flush_cache(), Err(no_disk()));
}

/// A device that holds nothing back.
struct Null;

impl BlockDevice for Null {
    fn write_blocks(&mut self, _block_id: u64, buf: &[u8]) -> Ext4Result<usize> {
        Ok(buf.len())
    }

    fn read_blocks(&mut self, _block_id: u64, buf: &mut [u8]) -> Ext4Result<usize> {
        Ok(buf.len())
    }

    fn num_blocks(&self) -> Ext4Result<u64> {
        Ok(0)
    }
}

#[test]
fn flushing_needs_no_cache() {
    let mut bdev = Ext4BlockDevice::new(Null, &mut Driver::new(Calls)).ok().unwrap();
    assert_eq!(bdev.flush_cache(), Ok(()));
}
