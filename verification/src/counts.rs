//! The counts in the superblock, and what a sound backend answers and does about them.

use crate::backend::Touch;
use crate::request::Step;
use crate::superblock::SuperblockView;
use vstd::prelude::*;

verus! {

/// Whether nothing differs but the number of free blocks.
pub open spec fn same_but_blocks(a: SuperblockView, b: SuperblockView) -> bool {
    b == SuperblockView { free_blocks_count: b.free_blocks_count, ..a }
}

/// Whether a sound backend with the superblock `pre` can give the reply in `step` and have the
/// superblock `post` afterwards. It counts one free inode less for each that it allocates, and
/// one more for each that it frees. How many blocks a request takes or frees is not told.
pub open spec fn answers(pre: SuperblockView, step: Step, post: SuperblockView) -> bool {
    match step {
        Step::Call { call, .. } => call is BlockInit || call is FsInit || post == pre,
        Step::Superblock { sb } => post == pre && sb == pre,
        Step::Alloc { reply: Ok(_), .. } => same_but_blocks(
            (SuperblockView { free_inodes_count: pre.free_inodes_count - 1, ..pre }),
            post,
        ),
        Step::Touch { touch: Touch::Free, .. } => same_but_blocks(
            (SuperblockView { free_inodes_count: pre.free_inodes_count + 1, ..pre }),
            post,
        ),
        Step::Alloc { .. } | Step::Touch { touch: Touch::BlocksInit, .. } | Step::Change {
            ..
        } | Step::Entry { .. } | Step::WriteAt { .. } => same_but_blocks(pre, post),
        _ => post == pre,
    }
}

/// Whether a sound backend can have gone through `sbs` while it answered the requests of a
/// history from position `i` on: `sbs[k]` is the superblock before request `k`.
pub open spec fn sound(h: Seq<Step>, sbs: Seq<SuperblockView>, i: int) -> bool {
    &&& sbs.len() == h.len() + 1
    &&& forall|k: int| i <= k < h.len() ==> #[trigger] sound_at(h, sbs, k)
}

/// The part of `sound` about request `k`.
pub open spec fn sound_at(h: Seq<Step>, sbs: Seq<SuperblockView>, k: int) -> bool {
    answers(sbs[k], h[k], sbs[k + 1])
}

} // verus!
