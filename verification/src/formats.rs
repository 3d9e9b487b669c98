//! Numbers and codes, by what they stand for.

use crate::backend::{Change, ChangeView, LibCall};
use crate::blockdev;
use crate::blockdev::DeviceLayout;
use crate::error;
use crate::error::{Ext4Error, Ext4Result, Failure};
use crate::fs;
use crate::fs::StatFs;
use crate::inode;
use crate::inode::InodeType;
use crate::protocol;
use crate::protocol::Run;
use crate::request;
use crate::request::Step;
use crate::superblock;
use crate::superblock::{Le32, RawSuperblock};
use vstd::arithmetic::power2;
use vstd::prelude::*;

verus! {

/// Bit `k` of a number on disk is bit `k % 8` of its byte `k / 8`.
pub proof fn law_lowest_byte_first(field: Le32, value: u32, k: u32)
    requires
        value == field.value(),
        k < 32,
    ensures
        (value >> k) & 1 == (field.bytes[(k / 8) as int] as u32 >> (k % 8)) & 1,
{
    let b0 = field.bytes[0];
    let b1 = field.bytes[1];
    let b2 = field.bytes[2];
    let b3 = field.bytes[3];
    if k < 8 {
        assert((value >> k) & 1 == (b0 as u32 >> (k % 8)) & 1) by (bit_vector)
            requires
                value == b0 + 0x100 * b1 + 0x1_0000 * b2 + 0x100_0000 * b3,
                k < 8,
        ;
    } else if k < 16 {
        assert((value >> k) & 1 == (b1 as u32 >> (k % 8)) & 1) by (bit_vector)
            requires
                value == b0 + 0x100 * b1 + 0x1_0000 * b2 + 0x100_0000 * b3,
                8 <= k < 16,
        ;
    } else if k < 24 {
        assert((value >> k) & 1 == (b2 as u32 >> (k % 8)) & 1) by (bit_vector)
            requires
                value == b0 + 0x100 * b1 + 0x1_0000 * b2 + 0x100_0000 * b3,
                16 <= k < 24,
        ;
    } else {
        assert((value >> k) & 1 == (b3 as u32 >> (k % 8)) & 1) by (bit_vector)
            requires
                value == b0 + 0x100 * b1 + 0x1_0000 * b2 + 0x100_0000 * b3,
                24 <= k < 32,
        ;
    }
}

/// What the fields of a superblock say: each count is the one it is named after, and of the two
/// that are split, the high half counts 2 to the 32nd.
pub proof fn law_superblock_fields(raw: RawSuperblock)
    ensures
        raw@.inodes_count == raw.inodes_count.value(),
        raw@.free_inodes_count == raw.free_inodes_count.value(),
        raw@.blocks_count == raw.blocks_count_lo.value() + raw.blocks_count_hi.value() * 4294967296,
        raw@.free_blocks_count == raw.free_blocks_count_lo.value()
            + raw.free_blocks_count_hi.value() * 4294967296,
        raw@.block_size == superblock::block_size_of(raw.log_block_size.value()),
{
}

/// Blocks have 1024 bytes for a `log_block_size` of 0, and twice as many for each one more, until
/// 32 bits no longer hold it.
pub proof fn law_block_sizes(log: int)
    requires
        0 <= log < 32,
    ensures
        superblock::block_size_of(0) == 1024,
        log < 21 ==> superblock::block_size_of(log + 1) == 2 * superblock::block_size_of(log),
        log > 21 ==> superblock::block_size_of(log) == 0,
{
    power2::lemma2_to64();
    if log < 21 {
        power2::lemma_pow2_unfold((log + 1) as nat);
    }
}

/// The counts and sizes of a filesystem stand for what they are named after.
pub proof fn law_stat_fields(stat: StatFs)
    ensures
        stat@.inodes_count == stat.inodes_count,
        stat@.free_inodes_count == stat.free_inodes_count,
        stat@.blocks_count == stat.blocks_count,
        stat@.free_blocks_count == stat.free_blocks_count,
        stat@.block_size == stat.block_size,
{
}

/// The directory entry type code of every inode type, as the format has it.
pub proof fn law_entry_types(ty: InodeType)
    ensures
        inode::entry_type(ty) == match ty {
            InodeType::Unknown => 0u32,
            InodeType::RegularFile => 1u32,
            InodeType::Directory => 2u32,
            InodeType::CharacterDevice => 3u32,
            InodeType::BlockDevice => 4u32,
            InodeType::Fifo => 5u32,
            InodeType::Socket => 6u32,
            InodeType::Symlink => 7u32,
        },
{
}

/// The error codes are those that the C library uses for the same things, so that a caller can
/// tell any of them from every other one.
pub proof fn law_error_codes(code: i32)
    ensures
        code == error::EOK <==> code == 0,
        code == error::ENOENT <==> code == 2,
        code == error::EIO <==> code == 5,
        code == error::EISDIR <==> code == 21,
        code == error::ENOTEMPTY <==> code == 39,
        code == error::ENOTSUP <==> code == 95,
{
}

/// A status of the C library is a success just when it is zero; otherwise it is an error with
/// that very code, and names the call.
pub proof fn law_status(code: i32, context: &'static str)
    ensures
        error::status(code, context) is Ok <==> code == 0,
        error::status(code, context) matches Err(e) ==> e.code == code && e.context == Some(
            context,
        ),
{
}

/// The C library is told 0 for what the device did, and 5 for what it could not do.
pub proof fn law_io_status<T>(reply: Ext4Result<T>)
    ensures
        reply is Ok ==> blockdev::io_status(reply) == 0,
        reply is Err ==> blockdev::io_status(reply) == 5,
{
}

/// A device that is opened is laid out with the blocks it has, all of them for the filesystem, if
/// 64 bits hold its size in bytes. One that cannot tell its size is left as it is, and the C
/// library is told 5.
pub proof fn law_open_outcome(layout: DeviceLayout, reply: Ext4Result<u64>)
    requires
        layout.ph_bsize == 512,
    ensures
        ({
            let (status, after) = blockdev::open_outcome(layout, reply);
            &&& after.ph_bsize == 512
            &&& match reply {
                Ok(blocks) => {
                    &&& after.ph_bcnt == blocks
                    &&& after.part_offset == 0
                    &&& 512 * blocks <= u64::MAX ==> status == Ok::<i32, Failure>(0)
                        && after.part_size == 512 * blocks
                    &&& 512 * blocks > u64::MAX ==> status == Err::<i32, Failure>(
                        Failure::Broken("device size overflow"),
                    ) && after.part_size == layout.part_size
                },
                Err(_) => status == Ok::<i32, Failure>(5) && after == layout,
            }
        }),
{
}

/// A device that has not been opened has blocks of 512 bytes, and none of them yet.
pub proof fn law_unopened()
    ensures
        blockdev::unopened().ph_bsize == 512,
        blockdev::unopened().ph_bcnt == 0,
        blockdev::unopened().part_offset == 0,
        blockdev::unopened().part_size == 0,
{
}

/// A change of contents in the history is the one that was asked for.
pub proof fn law_changes(change: Change<'_>)
    ensures
        change matches Change::SetLen(len) ==> change@ == ChangeView::SetLen(len),
        change matches Change::Truncate(len) ==> change@ == ChangeView::Truncate(len),
        change matches Change::SetSymlink(target) ==> change@ == ChangeView::SetSymlink(target@),
{
}

/// An error is a failure with just that error, and a failure that is told of a reply is the
/// error in it.
pub proof fn law_errors_are_kept<T>(result: Ext4Result<T>)
    ensures
        result matches Ok(value) ==> protocol::lift(result) == Ok::<T, Failure>(value),
        result matches Err(e) ==> protocol::lift(result) == Err::<T, Failure>(Failure::Error(e)),
        result is Ok ==> request::outline(result) == Ok::<(), Ext4Error>(()),
        result matches Err(e) ==> request::outline(result) == Err::<(), Ext4Error>(e),
{
}

/// What is said of a history: that it goes on from another one, that a call of the C library
/// stands at a position, and that requests make up a run with a result.
pub proof fn law_histories<T>(
    before: Seq<Step>,
    after: Seq<Step>,
    i: int,
    call: LibCall,
    run: Run<T>,
    result: Result<T, Failure>,
)
    ensures
        protocol::extends(before, after) <==> before.is_prefix_of(after),
        protocol::call_at(after, i, call) ==> 0 <= i < after.len() && (after[i] matches Step::Call {
            call: c,
            ..
        } && c == call),
        fs::ran(before, after, run, result) ==> before.is_prefix_of(after) && run == Some(
            (result, after.len() as int),
        ),
{
    if protocol::extends(before, after) {
        assert(after.subrange(0, before.len() as int) =~= before);
    }
    if before.is_prefix_of(after) {
        assert forall|k: int| 0 <= k < before.len() implies #[trigger] after[k] == before[k] by {
            assert(after.subrange(0, before.len() as int)[k] == before[k]);
        }
    }
}

} // verus!
