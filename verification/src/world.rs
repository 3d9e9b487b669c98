//! All that a backend keeps, in one: names and links, contents, attributes, records and counts.

use crate::backend::EntryOp;
use crate::contents;
use crate::contents::Files;
use crate::counts;
use crate::inode::FileAttr;
use crate::ledger;
use crate::ledger::Ledger;
use crate::library;
use crate::library::Library;
use crate::request::Step;
use crate::superblock::SuperblockView;
use crate::tree;
use crate::tree::Tree;
use vstd::prelude::*;

verus! {

/// What a backend keeps, at one moment.
pub struct World {
    pub tree: Tree,
    pub files: Files,
    pub attrs: Map<u32, FileAttr>,
    pub ledger: Ledger,
    pub sb: SuperblockView,
    pub library: Library,
}

/// Whether a request may change the attributes of an inode.
pub open spec fn may_change(step: Step, ino: u32) -> bool {
    match step {
        Step::Alloc { reply, .. } => reply == Ok::<u32, i32>(ino),
        Step::Touch { ino: n, .. } => n == ino,
        Step::Change { ino: n, .. } => n == ino,
        Step::Entry { dir, child, .. } => dir == ino || child == ino,
        Step::Redirect { dir, .. } => dir == ino,
        Step::ReadDir { ino: n, .. } => n == ino,
        Step::ReadAt { ino: n, .. } => n == ino,
        Step::WriteAt { ino: n, .. } => n == ino,
        _ => false,
    }
}

/// What a sound backend answers and does about attributes: it tells those that it keeps.
pub open spec fn tells(pre: World, step: Step, post: World) -> bool {
    &&& library::reads(step) ==> post.attrs == pre.attrs
    &&& forall|ino: u32|
        !may_change(step, ino) ==> post.attrs.contains_key(ino) == pre.attrs.contains_key(ino)
            && #[trigger] post.attrs[ino] == pre.attrs[ino]
    &&& step matches Step::Attributes { ino, attr } ==> attr == pre.attrs[ino]
}

/// Whether adding an entry, also under a name that is taken, changes nothing but that entry and
/// the number of links of the inode that it names.
pub open spec fn adds_only(pre: Tree, step: Step, post: Tree) -> bool {
    step matches Step::Entry { op: EntryOp::Add, dir, name, child, reply: Ok(_) } ==> {
        &&& post.dom() == pre.dom()
        &&& forall|ino: u32| #[trigger]
            pre.contains_key(ino) ==> {
                &&& post[ino].ty == pre[ino].ty
                &&& post[ino].mode == pre[ino].mode
                &&& ino != child ==> post[ino].links == pre[ino].links
                &&& ino != dir ==> post[ino].entries == pre[ino].entries
            }
        &&& post[dir].entries.remove(name) == pre[dir].entries.remove(name)
    }
}

/// Whether a sound backend that keeps `pre` can give the reply in `step` and keep `post`
/// afterwards.
pub open spec fn answers(pre: World, step: Step, post: World) -> bool {
    &&& tree::answers(pre.tree, step, post.tree)
    &&& adds_only(pre.tree, step, post.tree)
    &&& contents::answers(pre.files, step, post.files)
    &&& tells(pre, step, post)
    &&& ledger::answers(pre.ledger, step, post.ledger)
    &&& counts::answers(pre.sb, step, post.sb)
    &&& library::answers(pre.library, step, post.library)
}

/// Whether a sound backend can have gone through `w` while it answered the requests of a
/// history from position `i` on: `w[k]` is what it kept before request `k`.
pub open spec fn sound(h: Seq<Step>, w: Seq<World>, i: int) -> bool {
    &&& w.len() == h.len() + 1
    &&& forall|k: int| i <= k < h.len() ==> #[trigger] sound_at(h, w, k)
}

/// The part of `sound` about request `k`.
pub open spec fn sound_at(h: Seq<Step>, w: Seq<World>, k: int) -> bool {
    answers(w[k], h[k], w[k + 1])
}

/// The trees alone.
pub open spec fn trees(w: Seq<World>) -> Seq<Tree> {
    Seq::new(w.len(), |k: int| w[k].tree)
}

/// The contents alone.
pub open spec fn files(w: Seq<World>) -> Seq<Files> {
    Seq::new(w.len(), |k: int| w[k].files)
}

/// The superblocks alone.
pub open spec fn sbs(w: Seq<World>) -> Seq<SuperblockView> {
    Seq::new(w.len(), |k: int| w[k].sb)
}

/// The states of the C library alone.
pub open spec fn libraries(w: Seq<World>) -> Seq<Library> {
    Seq::new(w.len(), |k: int| w[k].library)
}

/// A sound backend is sound in each respect.
pub proof fn law_sound_in_each_respect(h: Seq<Step>, w: Seq<World>, i: int)
    requires
        sound(h, w, i),
        0 <= i,
    ensures
        tree::sound(h, trees(w), i),
        contents::sound(h, files(w), i),
        counts::sound(h, sbs(w), i),
        library::sound(h, libraries(w), i),
{
    assert forall|k: int| i <= k < h.len() implies tree::sound_at(h, trees(w), k)
        && contents::sound_at(h, files(w), k) && counts::sound_at(h, sbs(w), k)
        && library::sound_at(h, libraries(w), k) by {
        assert(sound_at(h, w, k));
    }
}

/// Requests that only read leave all as it is.
pub(crate) proof fn lemma_reads(h: Seq<Step>, w: Seq<World>, i: int, j: int)
    requires
        sound(h, w, i),
        0 <= i <= j <= h.len(),
        forall|k: int| i <= k < j ==> library::reads(#[trigger] h[k]),
    ensures
        w[j] == w[i],
    decreases j - i,
{
    if i < j {
        lemma_reads(h, w, i, j - 1);
        assert(sound_at(h, w, j - 1));
        assert(library::reads(h[j - 1]));
    }
}

} // verus!
