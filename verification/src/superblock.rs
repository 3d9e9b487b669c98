//! The fields of the superblock that the filesystem reads.

use vstd::arithmetic::power2;
use vstd::prelude::*;

verus! {

/// A 32-bit number as it lies on disk: four bytes, the lowest first.
#[derive(Debug, Clone, Copy)]
pub struct Le32 {
    pub bytes: [u8; 4],
}

impl Le32 {
    /// The number that the bytes spell.
    pub open spec fn value(self) -> int {
        self.bytes[0] + 0x100 * self.bytes[1] + 0x1_0000 * self.bytes[2] + 0x100_0000
            * self.bytes[3]
    }

    /// Writes a number down, the lowest byte first.
    pub fn new(value: u32) -> (field: Self)
        ensures
            field.value() == value,
    {
        let b0: u8 = (value % 0x100) as u8;
        let b1: u8 = ((value / 0x100) % 0x100) as u8;
        let b2: u8 = ((value / 0x1_0000) % 0x100) as u8;
        let b3: u8 = (value / 0x100_0000) as u8;
        Le32 { bytes: [b0, b1, b2, b3] }
    }

    /// Reads the number back.
    pub fn get(&self) -> (value: u32)
        ensures
            value == self.value(),
    {
        self.bytes[0] as u32 + 0x100 * self.bytes[1] as u32 + 0x1_0000 * self.bytes[2] as u32
            + 0x100_0000 * self.bytes[3] as u32
    }
}

/// The superblock fields as they lie on disk.
#[derive(Debug, Clone, Copy)]
pub struct RawSuperblock {
    pub inodes_count: Le32,
    pub free_inodes_count: Le32,
    pub blocks_count_lo: Le32,
    pub blocks_count_hi: Le32,
    pub free_blocks_count_lo: Le32,
    pub free_blocks_count_hi: Le32,
    pub log_block_size: Le32,
}

/// A superblock whose block size can be computed.
#[derive(Debug, Clone, Copy)]
pub struct Superblock {
    raw: RawSuperblock,
}

/// What a superblock says.
pub struct SuperblockView {
    pub inodes_count: int,
    pub free_inodes_count: int,
    pub blocks_count: int,
    pub free_blocks_count: int,
    pub block_size: int,
}

/// The block size for a given `log_block_size`: 1024 doubled that many times, as far as 32
/// bits hold it.
pub open spec fn block_size_of(log_block_size: int) -> int {
    if 0 <= log_block_size <= 21 {
        1024int * power2::pow2(log_block_size as nat)
    } else {
        0
    }
}

impl RawSuperblock {
    /// What the fields say: the two 64-bit counts are split in a low and a high half.
    pub open spec fn view(&self) -> SuperblockView {
        SuperblockView {
            inodes_count: self.inodes_count.value(),
            free_inodes_count: self.free_inodes_count.value(),
            blocks_count: 0x1_0000_0000 * self.blocks_count_hi.value()
                + self.blocks_count_lo.value(),
            free_blocks_count: 0x1_0000_0000 * self.free_blocks_count_hi.value()
                + self.free_blocks_count_lo.value(),
            block_size: block_size_of(self.log_block_size.value()),
        }
    }
}

/// Joins the two halves of a 64-bit count.
fn join(hi: u32, lo: u32) -> (count: u64)
    ensures
        count == 0x1_0000_0000 * hi + lo,
{
    let count: u64 = (hi as u64) << 32 | lo as u64;
    assert(count == 0x1_0000_0000 * hi + lo) by (bit_vector)
        requires
            count == (hi as u64) << 32 | lo as u64,
    ;
    count
}

impl Superblock {
    #[verifier::type_invariant]
    spec fn shift_in_range(self) -> bool {
        self.raw.log_block_size.value() < 32
    }

    /// What the superblock says.
    pub closed spec fn view(&self) -> SuperblockView {
        self.raw@
    }

    /// Takes the fields over. There is no superblock for a `log_block_size` of 32 or more, by
    /// which 32-bit numbers cannot be shifted.
    pub fn new(raw: RawSuperblock) -> (superblock: Option<Self>)
        ensures
            superblock is Some <==> raw.log_block_size.value() < 32,
            superblock matches Some(sb) ==> sb@ == raw@,
    {
        if raw.log_block_size.get() < 32 {
            Some(Superblock { raw })
        } else {
            None
        }
    }

    /// Number of inodes.
    pub fn inodes_count(&self) -> (count: u32)
        ensures
            count == self@.inodes_count,
    {
        self.raw.inodes_count.get()
    }

    /// Number of inodes not in use.
    pub fn free_inodes_count(&self) -> (count: u32)
        ensures
            count == self@.free_inodes_count,
    {
        self.raw.free_inodes_count.get()
    }

    /// Number of blocks.
    pub fn blocks_count(&self) -> (count: u64)
        ensures
            count == self@.blocks_count,
    {
        join(self.raw.blocks_count_hi.get(), self.raw.blocks_count_lo.get())
    }

    /// Number of blocks not in use.
    pub fn free_blocks_count(&self) -> (count: u64)
        ensures
            count == self@.free_blocks_count,
    {
        join(self.raw.free_blocks_count_hi.get(), self.raw.free_blocks_count_lo.get())
    }
}

/// The block size in bytes.
pub fn get_block_size(sb: &Superblock) -> (size: u32)
    ensures
        size == sb@.block_size,
{
    proof {
        use_type_invariant(sb);
    }
    let log: u32 = sb.raw.log_block_size.get();
    let size: u32 = 1024u32 << log;
    proof {
        if log <= 21 {
            assert(power2::pow2(log as nat) <= power2::pow2(21)) by {
                if log < 21 {
                    power2::lemma_pow2_strictly_increases(log as nat, 21);
                }
            }
            power2::lemma2_to64();
            vstd::bits::lemma_u32_shl_is_mul(1024, log);
        } else {
            assert(1024u32 << log == 0) by (bit_vector)
                requires
                    22 <= log < 32,
            ;
        }
    }
    size
}

} // verus!
