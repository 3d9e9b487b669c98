//! The inodes and directories of a filesystem as a mathematical object, what a sound backend
//! answers and does, and what the operations of the filesystem mean.
//!
//! Only names, links, types and modes are modelled here; the contents of inodes stand apart.

use crate::backend::{EntryOp, Field, Touch};
use crate::request::Step;
use crate::error::ENOENT;
use crate::inode;
use crate::inode::InodeType;
use vstd::prelude::*;

verus! {

/// An inode.
#[verifier::ext_equal]
pub struct Node {
    pub ty: InodeType,
    /// The link count that the inode holds.
    pub links: int,
    pub mode: u32,
    /// The entries of a directory: the inode that each name stands for.
    pub entries: Map<Seq<char>, u32>,
}

/// All inodes in use, by their numbers.
pub type Tree = Map<u32, Node>;

/// A place where an inode can be named: a directory, and a name in it.
pub type Place = (u32, Seq<char>);

/// Whether a name is one of the two that every directory has.
pub open spec fn is_dot(name: Seq<char>) -> bool {
    name == "."@ || name == ".."@
}

/// Whether there is an entry in that place.
pub open spec fn has_entry(t: Tree, p: Place) -> bool {
    t.contains_key(p.0) && t[p.0].entries.contains_key(p.1)
}

/// The inode that the entry in that place names.
pub open spec fn target(t: Tree, p: Place) -> u32 {
    t[p.0].entries[p.1]
}

/// All places where an inode is named.
pub open spec fn names(t: Tree, ino: u32) -> Set<Place> {
    Set::new(|p: Place| has_entry(t, p) && target(t, p) == ino)
}

/// Whether an inode has entries besides `.` and `..`.
pub open spec fn has_children(t: Tree, ino: u32) -> bool {
    exists|name: Seq<char>| #[trigger] t[ino].entries.contains_key(name) && !is_dot(name)
}

/// Makes the entry in a place name an inode.
pub open spec fn set_entry(t: Tree, p: Place, child: u32) -> Tree {
    t.insert(p.0, Node { entries: t[p.0].entries.insert(p.1, child), ..t[p.0] })
}

/// Takes the entry in a place away.
pub open spec fn drop_entry(t: Tree, p: Place) -> Tree {
    t.insert(p.0, Node { entries: t[p.0].entries.remove(p.1), ..t[p.0] })
}

/// Changes the link count of an inode.
pub open spec fn count(t: Tree, ino: u32, by: int) -> Tree {
    t.insert(ino, Node { links: t[ino].links + by, ..t[ino] })
}

/// Whether every link count is right, and every directory is in order:
/// - each entry names an inode in use;
/// - each inode counts as many links as there are places that name it;
/// - directories, and no other inodes, have entries;
/// - `.` names the directory itself, and `..` a directory;
/// - besides by `.` and `..`, a directory is named in one place at most;
/// - that place is in the directory that its `..` names;
/// - only a directory that is its own `..` can do without such a place.
pub open spec fn well_formed(t: Tree) -> bool {
    &&& forall|p: Place| #[trigger] has_entry(t, p) ==> t.contains_key(target(t, p))
    &&& forall|ino: u32| #[trigger]
        t.contains_key(ino) ==> names(t, ino).finite() && names(t, ino).len() == t[ino].links
    &&& forall|p: Place| #[trigger] has_entry(t, p) ==> t[p.0].ty == InodeType::Directory
    &&& forall|ino: u32| #[trigger]
        t.contains_key(ino) && t[ino].ty == InodeType::Directory ==> {
            &&& has_entry(t, (ino, "."@))
            &&& target(t, (ino, "."@)) == ino
            &&& has_entry(t, (ino, ".."@))
            &&& t[target(t, (ino, ".."@))].ty == InodeType::Directory
        }
    &&& forall|p: Place|
        #![trigger has_entry(t, p)]
        has_entry(t, p) && !is_dot(p.1) && t[target(t, p)].ty == InodeType::Directory
            ==> target(t, (target(t, p), ".."@)) == p.0
    &&& forall|p: Place, q: Place|
        #![trigger has_entry(t, p), has_entry(t, q)]
        has_entry(t, p) && has_entry(t, q) && !is_dot(p.1) && !is_dot(q.1) && target(t, p)
            == target(t, q) && t[target(t, p)].ty == InodeType::Directory ==> p == q
    &&& forall|ino: u32| #[trigger]
        t.contains_key(ino) && t[ino].ty == InodeType::Directory && target(t, (ino, ".."@)) != ino
            ==> has_name_in(t, target(t, (ino, ".."@)), ino)
}

/// Whether a directory has an entry for an inode, besides `.` and `..`.
pub open spec fn has_name_in(t: Tree, dir: u32, ino: u32) -> bool {
    exists|name: Seq<char>| #[trigger]
        has_entry(t, (dir, name)) && target(t, (dir, name)) == ino && !is_dot(name)
}

/// Whether a sound backend that holds `pre` can give the reply in `step` and hold `post`
/// afterwards. A request that fails changes nothing, and `ENOENT` is said only of what is not
/// there.
pub open spec fn answers(pre: Tree, step: Step, post: Tree) -> bool {
    match step {
        Step::Open { ino, reply } => {
            &&& post == pre
            &&& reply is Ok ==> pre.contains_key(ino)
            &&& reply == Err::<(), i32>(ENOENT) ==> !pre.contains_key(ino)
        },
        Step::Alloc { entry_type, reply } => match reply {
            Ok(ino) => {
                &&& !pre.contains_key(ino)
                &&& post == pre.insert(ino, post[ino])
                &&& inode::entry_type(post[ino].ty) == entry_type
                &&& post[ino].links == 0
                &&& post[ino].entries == Map::<Seq<char>, u32>::empty()
            },
            Err(_) => post == pre,
        },
        Step::InodeType { ino, ty } => post == pre && pre[ino].ty == ty,
        Step::Field { ino, field, value } => {
            &&& post == pre
            &&& value == match field {
                Field::Nlink => pre[ino].links,
                Field::Mode => pre[ino].mode as int,
            }
        },
        Step::Touch { ino, touch } => match touch {
            Touch::SetMode(mode) => post == pre.insert(ino, Node { mode, ..pre[ino] }),
            Touch::IncNlink => post == count(pre, ino, 1),
            Touch::DecNlink => post == count(pre, ino, -1),
            Touch::Free => post == pre.remove(ino),
            Touch::BlocksInit | Touch::SetDelTime(_) | Touch::MarkDirty => post == pre,
        },
        Step::Change { ino, reply, .. } => {
            &&& post == pre
            &&& reply matches Err(e) ==> e.code != ENOENT || !pre.contains_key(ino)
        },
        Step::Entry { op, dir, name, child, reply } => match (op, reply) {
            (EntryOp::Add, Ok(_)) => {
                &&& pre.contains_key(dir)
                &&& pre.contains_key(child)
                &&& !has_entry(pre, (dir, name)) ==> post == count(
                    set_entry(pre, (dir, name), child),
                    child,
                    1,
                )
            },
            (EntryOp::Remove, Ok(_)) => {
                &&& has_entry(pre, (dir, name))
                &&& target(pre, (dir, name)) == child
                &&& post == count(drop_entry(pre, (dir, name)), child, -1)
            },
            (EntryOp::Add, Err(_)) => post == pre,
            (EntryOp::Remove, Err(e)) => {
                &&& post == pre
                &&& e.code != ENOENT || !has_entry(pre, (dir, name))
            },
        },
        Step::HasChildren { ino, reply } => {
            &&& post == pre
            &&& match reply {
                Ok(some) => some == has_children(pre, ino),
                Err(e) => e.code != ENOENT || !pre.contains_key(ino),
            }
        },
        Step::Lookup { dir, name, reply } => {
            &&& post == pre
            &&& match reply {
                Ok(ino) => has_entry(pre, (dir, name)) && target(pre, (dir, name)) == ino,
                Err(e) => e.code != ENOENT || !has_entry(pre, (dir, name)),
            }
        },
        Step::Redirect { dir, name, ino } => post == set_entry(pre, (dir, name), ino),
        _ => post == pre,
    }
}

/// Whether a sound backend can have gone through `trees` while it answered the requests of a
/// history from position `i` on: `trees[k]` is what it held before request `k`.
pub open spec fn sound(h: Seq<Step>, trees: Seq<Tree>, i: int) -> bool {
    &&& trees.len() == h.len() + 1
    &&& forall|k: int| i <= k < h.len() ==> #[trigger] sound_at(h, trees, k)
}

/// The part of `sound` about request `k`.
pub open spec fn sound_at(h: Seq<Step>, trees: Seq<Tree>, k: int) -> bool {
    answers(trees[k], h[k], trees[k + 1])
}

/// The tree after an inode got another name.
pub open spec fn linked(t: Tree, p: Place, child: u32) -> Tree {
    count(set_entry(t, p, child), child, 1)
}

/// The tree after the entry in a place was unlinked. The inode goes with its last link; a
/// directory goes at once, and its parent loses the link by `..`.
pub open spec fn unlinked(t: Tree, p: Place) -> Tree {
    let child = target(t, p);
    if t[child].ty == InodeType::Directory {
        count(drop_entry(t, p), p.0, -1).remove(child)
    } else if t[child].links == 1 {
        drop_entry(t, p).remove(child)
    } else {
        count(drop_entry(t, p), child, -1)
    }
}

/// The tree after a new inode was put in a place. A directory has `.` and `..`, by which it
/// has a second link and its parent has one more.
pub open spec fn created(t: Tree, p: Place, child: u32, ty: InodeType, mode: u32) -> Tree {
    if ty == InodeType::Directory {
        let entries = Map::<Seq<char>, u32>::empty().insert("."@, child).insert(".."@, p.0);
        count(set_entry(t, p, child), p.0, 1).insert(child, Node { ty, links: 2, mode, entries })
    } else {
        set_entry(t, p, child).insert(
            child,
            Node { ty, links: 1, mode, entries: Map::empty() },
        )
    }
}

/// The tree after the entry in place `p` moved to the free place `q`. The `..` of a directory
/// follows.
pub open spec fn moved(t: Tree, p: Place, q: Place) -> Tree {
    let src = target(t, p);
    let there = set_entry(drop_entry(t, p), q, src);
    if t[src].ty == InodeType::Directory {
        count(count(set_entry(there, (src, ".."@), q.0), p.0, -1), q.0, 1)
    } else {
        there
    }
}

/// The tree after the `..` of a directory that is about to move from place `p` to place `q` has
/// been made to follow. Other inodes have none.
pub open spec fn redirected(t: Tree, p: Place, q: Place) -> Tree {
    let src = target(t, p);
    if t[src].ty == InodeType::Directory {
        count(count(set_entry(t, (src, ".."@), q.0), p.0, -1), q.0, 1)
    } else {
        t
    }
}

/// The tree after an entry moved to a place that may be taken: what is there is unlinked first.
pub open spec fn renamed(t: Tree, p: Place, q: Place) -> Tree {
    if has_entry(t, q) {
        moved(unlinked(t, q), p, q)
    } else {
        moved(t, p, q)
    }
}

} // verus!
