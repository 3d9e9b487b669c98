use lwext4_fs::error::{check, Ext4Error};
use lwext4_fs::fs::StatFs;
use lwext4_fs::inode::{with_permissions, InodeType};
use lwext4_fs::superblock::{get_block_size, Le32, RawSuperblock, Superblock};

fn raw(log_block_size: u32) -> RawSuperblock {
    RawSuperblock {
        inodes_count: Le32::new(1),
        free_inodes_count: Le32::new(2),
        blocks_count_lo: Le32::new(0xdead_beef),
        blocks_count_hi: Le32::new(0x1234_5678),
        free_blocks_count_lo: Le32::new(5),
        free_blocks_count_hi: Le32::new(0xffff_ffff),
        log_block_size: Le32::new(log_block_size),
    }
}

#[test]
fn little_endian() {
    assert_eq!(Le32::new(0x0403_0201).bytes, [1, 2, 3, 4]);
    assert_eq!(Le32 { bytes: [0xef, 0xbe, 0xad, 0xde] }.get(), 0xdead_beef);
    for value in [0, 1, 255, 256, 65535, 65536, u32::MAX] {
        assert_eq!(Le32::new(value).get(), value);
        assert_eq!(Le32::new(value).bytes, value.to_le_bytes());
    }
}

#[test]
fn block_sizes() {
    for (log, size) in [(0, 1024), (1, 2048), (2, 4096), (6, 65536), (21, 0x8000_0000), (22, 0)] {
        assert_eq!(get_block_size(&Superblock::new(raw(log)).unwrap()), size);
    }
    assert_eq!(get_block_size(&Superblock::new(raw(31)).unwrap()), 0);
    assert!(Superblock::new(raw(32)).is_none());
    assert!(Superblock::new(raw(u32::MAX)).is_none());
}

#[test]
fn stat_joins_halves() {
    let sb = Superblock::new(raw(0)).unwrap();
    let stat = StatFs::from_superblock(&sb);
    assert_eq!(stat.inodes_count, 1);
    assert_eq!(stat.free_inodes_count, 2);
    assert_eq!(stat.blocks_count, 0x1234_5678_dead_beef);
    assert_eq!(stat.free_blocks_count, 0xffff_ffff_0000_0005);
    assert_eq!(stat.block_size, 1024);
    assert_eq!(sb.blocks_count(), stat.blocks_count);
}

#[test]
fn permissions() {
    assert_eq!(with_permissions(0o100600, 0o755), 0o100755);
    assert_eq!(with_permissions(0o047777, 0o7000), 0o047000);
    assert_eq!(with_permissions(u32::MAX, 0), u32::MAX - 0o777);
    assert_eq!(with_permissions(0, u32::MAX), 0o777);
}

#[test]
fn entry_type_codes() {
    let codes = [
        (InodeType::Unknown, 0),
        (InodeType::RegularFile, 1),
        (InodeType::Directory, 2),
        (InodeType::CharacterDevice, 3),
        (InodeType::BlockDevice, 4),
        (InodeType::Fifo, 5),
        (InodeType::Socket, 6),
        (InodeType::Symlink, 7),
    ];
    for (ty, code) in codes {
        assert_eq!(ty.to_entry_type(), code);
    }
}

#[test]
fn status_codes() {
    assert_eq!(check(0, "f"), Ok(()));
    assert_eq!(check(-1, "f"), Err(Ext4Error { code: -1, context: Some("f") }));
    assert_eq!(Ext4Error::new(4, None), Ext4Error { code: 4, context: None });
}
