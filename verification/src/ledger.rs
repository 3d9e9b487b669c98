//! What becomes of inodes besides their names and contents: how often their blocks were set up,
//! when they were deleted, and which were freed.

use crate::backend::Touch;
use crate::request::Step;
use vstd::prelude::*;

verus! {

/// What is on record of an inode in use.
pub struct Record {
    /// How often its blocks were set up, since it was allocated. A second time would lose what it
    /// holds.
    pub setups: nat,
    /// The time of its deletion.
    pub dtime: u32,
    /// Whether that time is still to be written back.
    pub unsaved: bool,
}

/// The records of all inodes in use, and those of the inodes freed so far, as they were then.
#[verifier::ext_equal]
pub struct Ledger {
    pub live: Map<u32, Record>,
    pub freed: Seq<(u32, Record)>,
}

/// What a sound backend does to the ledger.
pub open spec fn answers(pre: Ledger, step: Step, post: Ledger) -> bool {
    match step {
        Step::Alloc { reply: Ok(ino), .. } => {
            &&& post.freed == pre.freed
            &&& post.live == pre.live.insert(ino, post.live[ino])
            &&& post.live[ino].setups == 0
        },
        Step::Touch { ino, touch } => match touch {
            Touch::BlocksInit => post == (Ledger {
                live: pre.live.insert(
                    ino,
                    Record { setups: pre.live[ino].setups + 1, ..pre.live[ino] },
                ),
                ..pre
            }),
            Touch::SetDelTime(time) => post == (Ledger {
                live: pre.live.insert(
                    ino,
                    Record { dtime: time, unsaved: true, ..pre.live[ino] },
                ),
                ..pre
            }),
            Touch::MarkDirty => post == (Ledger {
                live: pre.live.insert(ino, Record { unsaved: false, ..pre.live[ino] }),
                ..pre
            }),
            Touch::Free => {
                &&& post.live == pre.live.remove(ino)
                &&& post.freed == pre.freed.push((ino, pre.live[ino]))
            },
            _ => post == pre,
        },
        _ => post == pre,
    }
}

} // verus!
