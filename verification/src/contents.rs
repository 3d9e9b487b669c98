//! The contents of inodes as a mathematical object, and what a sound backend answers and does
//! about them.

use crate::backend::{ChangeView, Touch};
use crate::request::Step;
use vstd::prelude::*;

verus! {

/// The contents of all inodes in use, by their numbers.
pub type Files = Map<u32, Seq<u8>>;

/// Contents after bytes were written at an offset. What lies between the old end and the offset
/// is zero.
pub open spec fn overwritten(held: Seq<u8>, offset: int, bytes: Seq<u8>) -> Seq<u8> {
    let end = offset + bytes.len();
    if bytes.len() == 0 {
        held
    } else {
        Seq::new(
            if end < held.len() {
                held.len()
            } else {
                end as nat
            },
            |k: int|
                if offset <= k < end {
                    bytes[k - offset]
                } else if k < held.len() {
                    held[k]
                } else {
                    0u8
                },
        )
    }
}

/// Contents cut off, or filled up with zeros, to a length.
pub open spec fn resized(held: Seq<u8>, len: nat) -> Seq<u8> {
    Seq::new(
        len,
        |k: int|
            if k < held.len() {
                held[k]
            } else {
                0u8
            },
    )
}

/// How many bytes there are to read at an offset, for a buffer of that size.
pub open spec fn readable(held: Seq<u8>, offset: int, space: int) -> int {
    if held.len() <= offset {
        0
    } else if held.len() - offset < space {
        held.len() - offset
    } else {
        space
    }
}

/// Whether a sound backend with the contents `pre` can give the reply in `step` and have the
/// contents `post` afterwards. A request that fails may have changed the contents of the inode
/// it was about. The bytes of a directory are not told.
pub open spec fn answers(pre: Files, step: Step, post: Files) -> bool {
    match step {
        Step::Alloc { reply: Ok(ino), .. } => post == pre.insert(ino, Seq::<u8>::empty()),
        Step::Touch { ino, touch: Touch::Free } => post == pre.remove(ino),
        Step::Change { ino, change, reply } => {
            &&& post.remove(ino) == pre.remove(ino)
            &&& reply is Ok ==> {
                &&& post.contains_key(ino)
                &&& post[ino] == match change {
                    ChangeView::SetLen(len) => resized(pre[ino], len as nat),
                    ChangeView::Truncate(len) => if len < pre[ino].len() {
                        pre[ino].take(len as int)
                    } else {
                        pre[ino]
                    },
                    ChangeView::SetSymlink(target) => target,
                }
            }
        },
        Step::Entry { dir, .. } => post.remove(dir) == pre.remove(dir),
        Step::Redirect { dir, .. } => post.remove(dir) == pre.remove(dir),
        Step::ReadAt { ino, offset, space, data, reply } => {
            &&& post == pre
            &&& data.len() == space
            &&& reply matches Ok(n) ==> {
                &&& n == readable(pre[ino], offset as int, space)
                &&& forall|k: int| 0 <= k < n ==> #[trigger] data[k] == pre[ino][offset + k]
            }
        },
        Step::WriteAt { ino, offset, data, reply } => {
            &&& post.remove(ino) == pre.remove(ino)
            &&& reply matches Ok(n) ==> {
                &&& n <= data.len()
                &&& post.contains_key(ino)
                &&& post[ino] == overwritten(pre[ino], offset as int, data.take(n as int))
            }
        },
        Step::Attributes { ino, attr } => post == pre && attr.size == pre[ino].len(),
        _ => post == pre,
    }
}

/// Whether a sound backend can have gone through `files` while it answered the requests of a
/// history from position `i` on: `files[k]` is what it held before request `k`.
pub open spec fn sound(h: Seq<Step>, files: Seq<Files>, i: int) -> bool {
    &&& files.len() == h.len() + 1
    &&& forall|k: int| i <= k < h.len() ==> #[trigger] sound_at(h, files, k)
}

/// The part of `sound` about request `k`.
pub open spec fn sound_at(h: Seq<Step>, files: Seq<Files>, k: int) -> bool {
    answers(files[k], h[k], files[k + 1])
}

/// Whether a request is one that can change the contents of an inode.
pub open spec fn is_about(step: Step, ino: u32) -> bool {
    match step {
        Step::Alloc { reply, .. } => reply == Ok::<u32, i32>(ino),
        Step::Touch { ino: n, touch } => n == ino && touch is Free,
        Step::Change { ino: n, .. } => n == ino,
        Step::Entry { dir, .. } => dir == ino,
        Step::Redirect { dir, .. } => dir == ino,
        Step::WriteAt { ino: n, .. } => n == ino,
        _ => false,
    }
}

/// Whether no request from position `i` up to `j` can change the contents of an inode.
pub open spec fn spared(h: Seq<Step>, i: int, j: int, ino: u32) -> bool {
    forall|k: int| i <= k < j ==> !is_about(#[trigger] h[k], ino)
}

pub(crate) proof fn lemma_spared(h: Seq<Step>, files: Seq<Files>, i: int, j: int, ino: u32)
    requires
        sound(h, files, i),
        i <= j <= h.len(),
        files[i].contains_key(ino),
        spared(h, i, j, ino),
    ensures
        files[j].contains_key(ino),
        files[j][ino] == files[i][ino],
    decreases j - i,
{
    if i < j {
        lemma_spared(h, files, i, j - 1, ino);
        assert(sound_at(h, files, j - 1));
        let pre = files[j - 1];
        let post = files[j];
        assert(!is_about(h[j - 1], ino));
        assert forall|other: u32| other != ino && #[trigger] post.remove(other) == pre.remove(
            other,
        ) implies post.contains_key(ino) && post[ino] == pre[ino] by {
            assert(post.remove(other).contains_key(ino) == pre.remove(other).contains_key(ino));
            assert(post.remove(other)[ino] == pre.remove(other)[ino]);
        }
    }
}

} // verus!
