//! Steps towards the laws: what each part of an operation does to the tree of a sound backend,
//! and why the tree stays in order.

use crate::backend::Backend;
use crate::blockdev::BlockDevice;
use crate::contents::Files;
use crate::counts;
use crate::driver::Driver;
use crate::error::{Failure, ENOENT, ENOTEMPTY};
use crate::inode::InodeType;
use crate::laws;
use crate::protocol;
use crate::request;
use crate::request::{Event, Handle, State, Step};
use crate::superblock::SuperblockView;
use crate::tree;
use crate::tree::{Node, Place, Tree};
use vstd::prelude::*;

verus! {

/// `.` and `..` are two different names.
pub(crate) proof fn lemma_dots_differ()
    ensures
        "."@ != ".."@,
{
    reveal_strlit(".");
    reveal_strlit("..");
    assert("."@.len() == 1);
    assert(".."@.len() == 2);
}

pub(crate) proof fn lemma_target(h: Seq<Step>, trees: Seq<Tree>, i: int, dir: u32, name: Seq<char>)
    requires
        tree::sound(h, trees, i),
        0 <= i,
    ensures
        protocol::target_run(h, i, dir, name) matches Some((result, j)) ==> {
            &&& i <= j <= h.len()
            &&& trees[j] == trees[i]
            &&& match result {
                Ok(child) => {
                    &&& tree::has_entry(trees[i], (dir, name))
                    &&& tree::target(trees[i], (dir, name)) == child
                    &&& trees[i].contains_key(child)
                },
                Err(Failure::Error(e)) => e.code == ENOENT ==> {
                    ||| !tree::has_entry(trees[i], (dir, name))
                    ||| !trees[i].contains_key(tree::target(trees[i], (dir, name)))
                },
                Err(_) => true,
            }
        },
{
    if protocol::target_run(h, i, dir, name) is Some {
        assert(tree::sound_at(h, trees, i));
        if i + 1 < h.len() {
            assert(tree::sound_at(h, trees, i + 1));
        }
        if i + 2 < h.len() {
            assert(tree::sound_at(h, trees, i + 2));
        }
        if i + 3 < h.len() {
            assert(tree::sound_at(h, trees, i + 3));
        }
    }
}

pub(crate) proof fn lemma_childless(h: Seq<Step>, trees: Seq<Tree>, i: int, child: u32)
    requires
        tree::sound(h, trees, i),
        0 <= i,
    ensures
        protocol::childless_run(h, i, child) matches Some((result, j)) ==> {
            &&& i <= j <= h.len()
            &&& trees[j] == trees[i]
            &&& match result {
                Ok(_) => !tree::has_children(trees[i], child),
                Err(Failure::Error(e)) => e.code == ENOENT ==> !trees[i].contains_key(child),
                Err(_) => true,
            }
        },
{
    if protocol::childless_run(h, i, child) is Some {
        assert(tree::sound_at(h, trees, i));
        if i + 1 < h.len() {
            assert(tree::sound_at(h, trees, i + 1));
        }
    }
}

pub(crate) proof fn lemma_shrink(h: Seq<Step>, trees: Seq<Tree>, i: int, child: u32)
    requires
        tree::sound(h, trees, i),
        0 <= i,
    ensures
        protocol::shrink_run(h, i, child) matches Some((result, j)) ==> {
            &&& i <= j <= h.len()
            &&& trees[j] == trees[i]
            &&& result matches Err(Failure::Error(e)) ==> (e.code == ENOENT
                ==> !trees[i].contains_key(child))
        },
{
    if protocol::shrink_run(h, i, child) is Some {
        assert(tree::sound_at(h, trees, i));
        if i + 1 < h.len() {
            assert(tree::sound_at(h, trees, i + 1));
        }
        if i + 2 < h.len() {
            assert(tree::sound_at(h, trees, i + 2));
        }
    }
}

/// The tree once an entry is gone, and with it the links by `..` and `.` of a directory.
pub open spec fn detached(t: Tree, p: Place, child: u32) -> Tree {
    let gone = tree::count(tree::drop_entry(t, p), child, -1);
    if t[child].ty == InodeType::Directory {
        tree::count(tree::count(gone, p.0, -1), child, -1)
    } else {
        gone
    }
}

pub(crate) proof fn lemma_detach(
    h: Seq<Step>,
    trees: Seq<Tree>,
    i: int,
    dir: u32,
    name: Seq<char>,
    child: u32,
)
    requires
        tree::sound(h, trees, i),
        0 <= i,
    ensures
        protocol::detach_run(h, i, dir, name, child) matches Some((result, j)) ==> {
            &&& i <= j <= h.len()
            &&& match result {
                Ok(_) => {
                    &&& tree::has_entry(trees[i], (dir, name))
                    &&& tree::target(trees[i], (dir, name)) == child
                    &&& trees[j] == detached(trees[i], (dir, name), child)
                },
                Err(Failure::Error(e)) => {
                    &&& trees[j] == trees[i]
                    &&& e.code == ENOENT ==> !tree::has_entry(trees[i], (dir, name))
                },
                Err(_) => false,
            }
        },
{
    if protocol::detach_run(h, i, dir, name, child) is Some {
        assert(tree::sound_at(h, trees, i));
        if i + 1 < h.len() {
            assert(tree::sound_at(h, trees, i + 1));
        }
        if i + 2 < h.len() {
            assert(tree::sound_at(h, trees, i + 2));
        }
        if i + 3 < h.len() {
            assert(tree::sound_at(h, trees, i + 3));
        }
    }
}

pub(crate) proof fn lemma_reap(h: Seq<Step>, trees: Seq<Tree>, i: int, child: u32)
    requires
        tree::sound(h, trees, i),
        0 <= i,
    ensures
        protocol::reap_run(h, i, child) matches Some((result, j)) ==> {
            &&& i <= j <= h.len()
            &&& match result {
                Ok(_) => trees[j] == if trees[i][child].links == 0 {
                    trees[i].remove(child)
                } else {
                    trees[i]
                },
                Err(Failure::Error(e)) => {
                    &&& trees[j] == trees[i]
                    &&& e.code == ENOENT ==> !trees[i].contains_key(child)
                },
                Err(_) => false,
            }
        },
{
    if protocol::reap_run(h, i, child) is Some {
        assert(tree::sound_at(h, trees, i));
        if i + 1 < h.len() {
            assert(tree::sound_at(h, trees, i + 1));
        }
        if i + 2 < h.len() {
            assert(tree::sound_at(h, trees, i + 2));
        }
        if i + 3 < h.len() {
            assert(tree::sound_at(h, trees, i + 3));
        }
        if i + 4 < h.len() {
            assert(tree::sound_at(h, trees, i + 4));
        }
    }
}

/// A directory without children is named in two places: under its name, and by its own `.`.
pub(crate) proof fn lemma_childless_directory(t: Tree, p: Place)
    requires
        tree::well_formed(t),
        tree::has_entry(t, p),
        !tree::is_dot(p.1),
        t[tree::target(t, p)].ty == InodeType::Directory,
        !tree::has_children(t, tree::target(t, p)),
    ensures
        p.0 != tree::target(t, p),
        t[tree::target(t, p)].links == 2,
        tree::names(t, tree::target(t, p)) == Set::<Place>::empty().insert(p).insert(
            (tree::target(t, p), "."@),
        ),
{
    let child = tree::target(t, p);
    let dot = (child, "."@);
    if p.0 == child {
        assert(t[child].entries.contains_key(p.1));
    }
    assert(t.contains_key(child));
    assert forall|q: Place| tree::names(t, child).contains(q) implies q == p || q == dot by {
        assert(tree::has_entry(t, q));
        if !tree::is_dot(q.1) {
            assert(tree::has_entry(t, p) && tree::has_entry(t, q));
        } else if q.1 == "."@ {
            assert(t.contains_key(q.0));
            assert(tree::target(t, (q.0, "."@)) == q.0);
        } else {
            assert(t.contains_key(q.0));
            assert(t[q.0].ty == InodeType::Directory);
            if q.0 == child {
                assert(tree::target(t, (child, ".."@)) == p.0);
            } else {
                assert(tree::has_name_in(t, child, q.0));
                let name = choose|name: Seq<char>| #[trigger]
                    tree::has_entry(t, (child, name)) && tree::target(t, (child, name)) == q.0
                        && !tree::is_dot(name);
                assert(t[child].entries.contains_key(name));
            }
        }
    }
    assert(tree::names(t, child) =~= Set::<Place>::empty().insert(p).insert(dot));
}

pub(crate) proof fn lemma_unlinked_well_formed(t: Tree, p: Place)
    requires
        tree::well_formed(t),
        tree::has_entry(t, p),
        !tree::is_dot(p.1),
        !tree::has_children(t, tree::target(t, p)),
    ensures
        tree::well_formed(tree::unlinked(t, p)),
{
    let child = tree::target(t, p);
    let u = tree::unlinked(t, p);
    assert(t.contains_key(child));
    if t[child].ty == InodeType::Directory {
        lemma_childless_directory(t, p);
    }
    let removed = !u.contains_key(child);
    // Which entries are left, and that they are as they were.
    assert forall|q: Place| #[trigger]
        tree::has_entry(u, q) implies tree::has_entry(t, q) && q != p && !(removed && q.0 == child)
        && tree::target(u, q) == tree::target(t, q) && u[q.0].ty == t[q.0].ty by {}
    assert forall|q: Place| #[trigger]
        tree::has_entry(t, q) && q != p && !(removed && q.0 == child) implies tree::has_entry(
        u,
        q,
    ) by {}
    // An inode that went is named nowhere.
    if removed {
        assert forall|q: Place| #[trigger] tree::has_entry(u, q) implies tree::target(u, q)
            != child by {
            assert(tree::has_entry(t, q));
            if tree::target(t, q) == child {
                assert(tree::names(t, child).contains(q));
                if t[child].ty != InodeType::Directory {
                    assert(tree::names(t, child).contains(p));
                    assert(tree::names(t, child).remove(p).len() == 0);
                    assert(tree::names(t, child).remove(p).contains(q));
                }
            }
        }
    }
    assert forall|x: u32| #[trigger] u.contains_key(x) implies tree::names(u, x).finite()
        && tree::names(u, x).len() == u[x].links by {
        assert(t.contains_key(x));
        let up = (child, ".."@);
        if x == child {
            assert(tree::names(u, x) =~= tree::names(t, x).remove(p));
        } else if t[child].ty == InodeType::Directory && x == p.0 {
            assert(tree::has_entry(t, (child, "."@)));
            assert(tree::has_entry(t, up));
            assert(tree::target(t, up) == p.0);
            assert forall|q: Place| tree::names(t, x).contains(q) && q != up implies tree::names(
                u,
                x,
            ).contains(q) by {
                assert(tree::has_entry(t, q));
                if q.0 == child {
                    assert(t[child].entries.contains_key(q.1));
                    assert(tree::is_dot(q.1));
                }
            }
            assert(tree::names(u, x) =~= tree::names(t, x).remove(up));
        } else {
            assert forall|q: Place| tree::names(t, x).contains(q) implies tree::names(
                u,
                x,
            ).contains(q) by {
                assert(tree::has_entry(t, q));
                if q.0 == child && removed {
                    assert(t[child].entries.contains_key(q.1));
                    assert(tree::is_dot(q.1));
                }
            }
            assert(tree::names(u, x) =~= tree::names(t, x));
        }
    }
    assert forall|x: u32| #[trigger]
        u.contains_key(x) && u[x].ty == InodeType::Directory implies tree::has_entry(u, (x, "."@))
        && tree::target(u, (x, "."@)) == x && tree::has_entry(u, (x, ".."@))
        && u[tree::target(u, (x, ".."@))].ty == InodeType::Directory by {
        assert(t.contains_key(x));
        assert(tree::has_entry(t, (x, "."@)));
        assert(tree::has_entry(t, (x, ".."@)));
        assert(tree::has_entry(u, (x, "."@)));
        assert(tree::has_entry(u, (x, ".."@)));
        assert(tree::target(u, (x, ".."@)) == tree::target(t, (x, ".."@)));
    }
    assert forall|x: u32| #[trigger]
        u.contains_key(x) && u[x].ty == InodeType::Directory && tree::target(u, (x, ".."@))
            != x implies tree::has_name_in(u, tree::target(u, (x, ".."@)), x) by {
        assert(t.contains_key(x));
        let d = tree::target(t, (x, ".."@));
        assert(tree::has_entry(u, (x, ".."@)));
        assert(tree::has_name_in(t, d, x));
        let name = choose|name: Seq<char>| #[trigger]
            tree::has_entry(t, (d, name)) && tree::target(t, (d, name)) == x && !tree::is_dot(name);
        assert(tree::has_entry(u, (d, name)));
    }
}

/// What `unlink` comes to on a sound backend with a tree in order, whatever its result.
pub(crate) proof fn lemma_unlink(h: Seq<Step>, trees: Seq<Tree>, i: int, dir: u32, name: Seq<char>)
    requires
        tree::sound(h, trees, i),
        0 <= i <= h.len(),
        tree::well_formed(trees[i]),
        !tree::is_dot(name),
    ensures
        protocol::unlink_run(h, i, dir, name) matches Some((result, j)) ==> {
            &&& i <= j <= h.len()
            &&& match result {
                Ok(_) => {
                    &&& tree::has_entry(trees[i], (dir, name))
                    &&& !tree::has_children(trees[i], tree::target(trees[i], (dir, name)))
                    &&& trees[j] == tree::unlinked(trees[i], (dir, name))
                    &&& tree::well_formed(trees[j])
                },
                Err(Failure::Error(e)) => e.code == ENOENT ==> {
                    &&& !tree::has_entry(trees[i], (dir, name))
                    &&& trees[j] == trees[i]
                },
                Err(_) => true,
            }
        },
{
    let t = trees[i];
    let p = (dir, name);
    lemma_target(h, trees, i, dir, name);
    match protocol::target_run(h, i, dir, name) {
        Some((Ok(child), i1)) => {
            lemma_childless(h, trees, i1, child);
            match protocol::childless_run(h, i1, child) {
                Some((Ok(_), i2)) => {
                    lemma_shrink(h, trees, i2, child);
                    match protocol::shrink_run(h, i2, child) {
                        Some((Ok(_), i3)) => {
                            lemma_detach(h, trees, i3, dir, name, child);
                            match protocol::detach_run(h, i3, dir, name, child) {
                                Some((Ok(_), i4)) => {
                                    lemma_reap(h, trees, i4, child);
                                    lemma_unlinked_well_formed(t, p);
                                    if t[child].ty == InodeType::Directory {
                                        lemma_childless_directory(t, p);
                                        assert(detached(t, p, child).remove(child)
                                            =~= tree::unlinked(t, p));
                                    } else {
                                        assert(child != dir);
                                        assert(detached(t, p, child).remove(child)
                                            =~= tree::drop_entry(t, p).remove(child));
                                    }
                                },
                                _ => {},
                            }
                        },
                        _ => {},
                    }
                },
                _ => {},
            }
        },
        _ => {},
    }
}

/// What `unlink` fails for on a sound backend.
pub(crate) proof fn lemma_unlink_blame(
    h: Seq<Step>,
    trees: Seq<Tree>,
    i: int,
    dir: u32,
    name: Seq<char>,
)
    requires
        tree::sound(h, trees, i),
        0 <= i <= h.len(),
    ensures
        protocol::unlink_run(h, i, dir, name) matches Some((Err(failure), j)) ==> {
            let result = Err::<(), Failure>(failure);
            let child = tree::target(trees[i], (dir, name));
            ||| laws::broke(h[j - 1])
            ||| laws::fails_with(result, ENOENT) && !(tree::has_entry(trees[i], (dir, name))
                && trees[i].contains_key(child))
            ||| laws::fails_with(result, ENOTEMPTY) && tree::has_entry(trees[i], (dir, name))
                && tree::has_children(trees[i], child)
        },
{
    lemma_target(h, trees, i, dir, name);
    match protocol::target_run(h, i, dir, name) {
        Some((Ok(child), i1)) => {
            lemma_childless(h, trees, i1, child);
            if i1 < h.len() {
                assert(tree::sound_at(h, trees, i1));
            }
            if i1 + 1 < h.len() {
                assert(tree::sound_at(h, trees, i1 + 1));
            }
            match protocol::childless_run(h, i1, child) {
                Some((Ok(_), i2)) => {
                    lemma_shrink(h, trees, i2, child);
                    match protocol::shrink_run(h, i2, child) {
                        Some((Ok(_), i3)) => {
                            lemma_detach(h, trees, i3, dir, name, child);
                            match protocol::detach_run(h, i3, dir, name, child) {
                                Some((Ok(_), i4)) => {
                                    lemma_reap(h, trees, i4, child);
                                },
                                _ => {},
                            }
                        },
                        _ => {},
                    }
                },
                _ => {},
            }
        },
        Some((Err(_), _)) => {
            assert(tree::sound_at(h, trees, i));
            if i + 1 < h.len() {
                assert(tree::sound_at(h, trees, i + 1));
            }
            if i + 2 < h.len() {
                assert(tree::sound_at(h, trees, i + 2));
            }
            if i + 3 < h.len() {
                assert(tree::sound_at(h, trees, i + 3));
            }
        },
        None => {},
    }
}

pub(crate) proof fn lemma_linked_well_formed(t: Tree, p: Place, child: u32)
    requires
        tree::well_formed(t),
        t.contains_key(p.0),
        t[p.0].ty == InodeType::Directory,
        t.contains_key(child),
        t[child].ty != InodeType::Directory,
        !tree::has_entry(t, p),
    ensures
        tree::well_formed(tree::linked(t, p, child)),
{
    let u = tree::linked(t, p, child);
    assert(tree::has_entry(t, (p.0, "."@)));
    assert(tree::has_entry(t, (p.0, ".."@)));
    assert(!tree::is_dot(p.1));
    assert forall|q: Place| #[trigger] tree::has_entry(u, q) implies (if q == p {
        tree::target(u, q) == child
    } else {
        tree::has_entry(t, q) && tree::target(u, q) == tree::target(t, q)
    }) && u[q.0].ty == t[q.0].ty by {}
    assert forall|q: Place| #[trigger] tree::has_entry(t, q) implies tree::has_entry(u, q) by {}
    assert forall|x: u32| #[trigger] u.contains_key(x) implies tree::names(u, x).finite()
        && tree::names(u, x).len() == u[x].links by {
        assert(t.contains_key(x));
        assert(tree::has_entry(u, p));
        if x == child {
            assert(tree::names(u, x) =~= tree::names(t, x).insert(p));
        } else {
            assert(tree::names(u, x) =~= tree::names(t, x));
        }
    }
    assert forall|x: u32| #[trigger]
        u.contains_key(x) && u[x].ty == InodeType::Directory implies tree::has_entry(u, (x, "."@))
        && tree::target(u, (x, "."@)) == x && tree::has_entry(u, (x, ".."@))
        && u[tree::target(u, (x, ".."@))].ty == InodeType::Directory by {
        assert(t.contains_key(x));
        assert(tree::has_entry(t, (x, "."@)));
        assert(tree::has_entry(t, (x, ".."@)));
        assert(tree::has_entry(u, (x, "."@)));
        assert(tree::has_entry(u, (x, ".."@)));
    }
    assert forall|x: u32| #[trigger]
        u.contains_key(x) && u[x].ty == InodeType::Directory && tree::target(u, (x, ".."@))
            != x implies tree::has_name_in(u, tree::target(u, (x, ".."@)), x) by {
        assert(t.contains_key(x));
        let d = tree::target(t, (x, ".."@));
        assert(tree::has_entry(u, (x, ".."@)));
        assert(tree::has_name_in(t, d, x));
        let name = choose|name: Seq<char>| #[trigger]
            tree::has_entry(t, (d, name)) && tree::target(t, (d, name)) == x && !tree::is_dot(name);
        assert(tree::has_entry(u, (d, name)));
    }
}

pub(crate) proof fn lemma_created_well_formed(t: Tree, p: Place, child: u32, ty: InodeType, mode: u32)
    requires
        tree::well_formed(t),
        t.contains_key(p.0),
        t[p.0].ty == InodeType::Directory,
        !t.contains_key(child),
        !tree::has_entry(t, p),
    ensures
        tree::well_formed(tree::created(t, p, child, ty, mode)),
{
    let u = tree::created(t, p, child, ty, mode);
    let dot = (child, "."@);
    let up = (child, ".."@);
    lemma_dots_differ();
    assert(tree::has_entry(t, (p.0, "."@)));
    assert(tree::has_entry(t, (p.0, ".."@)));
    assert(!tree::is_dot(p.1));
    assert(p.0 != child);
    assert forall|q: Place| #[trigger] tree::has_entry(u, q) implies (if q == p {
        tree::target(u, q) == child
    } else if q.0 == child {
        &&& ty == InodeType::Directory
        &&& q == dot || q == up
        &&& tree::target(u, q) == if q == dot {
            child
        } else {
            p.0
        }
    } else {
        tree::has_entry(t, q) && tree::target(u, q) == tree::target(t, q) && u[q.0].ty == t[q.0].ty
    }) by {}
    assert forall|q: Place| #[trigger] tree::has_entry(t, q) implies tree::has_entry(u, q) && q
        != p && q.0 != child && tree::target(t, q) != child by {}
    assert(tree::has_entry(u, p));
    if ty == InodeType::Directory {
        assert(tree::has_entry(u, dot));
        assert(tree::has_entry(u, up));
    }
    assert forall|x: u32| #[trigger] u.contains_key(x) implies tree::names(u, x).finite()
        && tree::names(u, x).len() == u[x].links by {
        if x == child {
            let one = Set::<Place>::empty().insert(p);
            if ty == InodeType::Directory {
                assert(tree::names(u, x) =~= one.insert(dot));
            } else {
                assert(tree::names(u, x) =~= one);
            }
        } else {
            assert(t.contains_key(x));
            if ty == InodeType::Directory && x == p.0 {
                assert(tree::names(u, x) =~= tree::names(t, x).insert(up));
            } else {
                assert(tree::names(u, x) =~= tree::names(t, x));
            }
        }
    }
    assert forall|x: u32| #[trigger]
        u.contains_key(x) && u[x].ty == InodeType::Directory implies tree::has_entry(u, (x, "."@))
        && tree::target(u, (x, "."@)) == x && tree::has_entry(u, (x, ".."@))
        && u[tree::target(u, (x, ".."@))].ty == InodeType::Directory by {
        if x != child {
            assert(t.contains_key(x));
            assert(tree::has_entry(t, (x, "."@)));
            assert(tree::has_entry(t, (x, ".."@)));
            assert(tree::has_entry(u, (x, "."@)));
            assert(tree::has_entry(u, (x, ".."@)));
            assert(tree::target(u, (x, ".."@)) == tree::target(t, (x, ".."@)));
        }
    }
    assert forall|x: u32| #[trigger]
        u.contains_key(x) && u[x].ty == InodeType::Directory && tree::target(u, (x, ".."@))
            != x implies tree::has_name_in(u, tree::target(u, (x, ".."@)), x) by {
        if x == child {
            assert(tree::has_entry(u, (p.0, p.1)));
        } else {
            assert(t.contains_key(x));
            let d = tree::target(t, (x, ".."@));
            assert(tree::has_entry(t, (x, ".."@)));
            assert(tree::has_entry(u, (x, ".."@)));
            assert(tree::has_name_in(t, d, x));
            let name = choose|name: Seq<char>| #[trigger]
                tree::has_entry(t, (d, name)) && tree::target(t, (d, name)) == x && !tree::is_dot(
                    name,
                );
            assert(tree::has_entry(u, (d, name)));
        }
    }
}

/// The tree once a new inode has been allocated and put in a place.
pub open spec fn placed(t: Tree, p: Place, child: u32, node: Node) -> Tree {
    tree::count(tree::set_entry(t.insert(child, node), p, child), child, 1)
}

pub(crate) proof fn lemma_place(
    h: Seq<Step>,
    trees: Seq<Tree>,
    i: int,
    parent: u32,
    name: Seq<char>,
    ty: InodeType,
)
    requires
        tree::sound(h, trees, i),
        0 <= i <= h.len(),
        trees[i].contains_key(parent),
        !tree::has_entry(trees[i], (parent, name)),
    ensures
        protocol::place_run(h, i, parent, name, ty) matches Some((Ok(child), j)) ==> {
            &&& i <= j <= h.len()
            &&& !trees[i].contains_key(child)
            &&& trees[i + 1][child].ty == ty
            &&& trees[i + 1][child].links == 0
            &&& trees[i + 1][child].entries == Map::<Seq<char>, u32>::empty()
            &&& trees[j] == placed(trees[i], (parent, name), child, trees[i + 1][child])
        },
{
    match protocol::place_run(h, i, parent, name, ty) {
        Some((Ok(child), j)) => {
            assert(tree::sound_at(h, trees, i));
            assert(tree::sound_at(h, trees, i + 1));
            assert(tree::sound_at(h, trees, i + 2));
            assert(tree::sound_at(h, trees, i + 3));
            laws::law_entry_types_differ(trees[i + 1][child].ty, ty);
        },
        _ => {},
    }
}

/// The tree once a new directory has its entries `.` and `..`.
pub open spec fn dotted(t: Tree, parent: u32, child: u32) -> Tree {
    let dot = tree::count(tree::set_entry(t, (child, "."@), child), child, 1);
    tree::count(tree::set_entry(dot, (child, ".."@), parent), parent, 1)
}

pub(crate) proof fn lemma_dots(h: Seq<Step>, trees: Seq<Tree>, i: int, parent: u32, child: u32)
    requires
        tree::sound(h, trees, i),
        0 <= i <= h.len(),
        trees[i].contains_key(child),
        trees[i][child].entries == Map::<Seq<char>, u32>::empty(),
    ensures
        protocol::dots_run(h, i, parent, child) matches Some((Ok(_), j)) ==> {
            &&& i <= j <= h.len()
            &&& trees[j] == dotted(trees[i], parent, child)
        },
{
    lemma_dots_differ();
    match protocol::dots_run(h, i, parent, child) {
        Some((Ok(_), j)) => {
            assert(tree::sound_at(h, trees, i));
            assert(tree::sound_at(h, trees, i + 1));
            assert(tree::sound_at(h, trees, i + 2));
            assert(tree::sound_at(h, trees, i + 3));
        },
        _ => {},
    }
}

pub(crate) proof fn lemma_moved_well_formed(t: Tree, p: Place, q: Place)
    requires
        tree::well_formed(t),
        tree::has_entry(t, p),
        !tree::is_dot(p.1),
        t.contains_key(q.0),
        t[q.0].ty == InodeType::Directory,
        !tree::has_entry(t, q),
    ensures
        tree::well_formed(tree::moved(t, p, q)),
{
    let src = tree::target(t, p);
    let u = tree::moved(t, p, q);
    let up = (src, ".."@);
    let is_dir = t[src].ty == InodeType::Directory;
    lemma_dots_differ();
    assert(t.contains_key(src));
    assert(tree::has_entry(t, (q.0, "."@)));
    assert(tree::has_entry(t, (q.0, ".."@)));
    assert(!tree::is_dot(q.1));
    if is_dir {
        assert(tree::has_entry(t, up));
        assert(tree::target(t, up) == p.0);
    }
    assert forall|r: Place| #[trigger] tree::has_entry(u, r) implies (if r == q {
        tree::target(u, r) == src
    } else if is_dir && r == up {
        tree::target(u, r) == q.0
    } else {
        tree::has_entry(t, r) && r != p && tree::target(u, r) == tree::target(t, r)
    }) by {}
    assert forall|r: Place| #[trigger] tree::has_entry(t, r) && r != p implies tree::has_entry(
        u,
        r,
    ) by {}
    assert(tree::has_entry(u, q));
    assert forall|x: u32| u.contains_key(x) == #[trigger] t.contains_key(x) by {}
    assert forall|x: u32| #[trigger] t.contains_key(x) implies u[x].ty == t[x].ty by {}
    assert forall|x: u32| #[trigger] u.contains_key(x) implies tree::names(u, x).finite()
        && tree::names(u, x).len() == u[x].links by {
        assert(t.contains_key(x));
        let a = tree::names(t, x);
        let b = if x == src {
            a.remove(p).insert(q)
        } else {
            a
        };
        let c = if is_dir && x == p.0 {
            b.remove(up)
        } else {
            b
        };
        let d = if is_dir && x == q.0 {
            c.insert(up)
        } else {
            c
        };
        assert(a.contains(p) == (x == src));
        assert(!a.contains(q));
        assert(is_dir ==> a.contains(up) == (x == p.0));
        assert(tree::names(u, x) =~= d);
        assert(b.len() == a.len());
    }
    assert forall|x: u32| #[trigger]
        u.contains_key(x) && u[x].ty == InodeType::Directory implies tree::has_entry(u, (x, "."@))
        && tree::target(u, (x, "."@)) == x && tree::has_entry(u, (x, ".."@))
        && u[tree::target(u, (x, ".."@))].ty == InodeType::Directory by {
        assert(t.contains_key(x));
        assert(tree::has_entry(t, (x, "."@)));
        assert(tree::has_entry(t, (x, ".."@)));
        assert(tree::has_entry(u, (x, "."@)));
        assert(tree::has_entry(u, (x, ".."@)));
        assert(t.contains_key(tree::target(t, (x, ".."@))));
    }
    assert forall|x: u32| #[trigger]
        u.contains_key(x) && u[x].ty == InodeType::Directory && tree::target(u, (x, ".."@))
            != x implies tree::has_name_in(u, tree::target(u, (x, ".."@)), x) by {
        assert(t.contains_key(x));
        assert(tree::has_entry(u, (x, ".."@)));
        if x == src {
            assert(tree::has_entry(u, (q.0, q.1)));
        } else {
            let d = tree::target(t, (x, ".."@));
            assert(tree::has_name_in(t, d, x));
            let name = choose|name: Seq<char>| #[trigger]
                tree::has_entry(t, (d, name)) && tree::target(t, (d, name)) == x && !tree::is_dot(
                    name,
                );
            assert(tree::has_entry(u, (d, name)));
        }
    }
}

/// Unlinking what is in a place leaves its directory, with the place free.
pub(crate) proof fn lemma_unlinked_frees(t: Tree, q: Place)
    requires
        tree::well_formed(t),
        tree::has_entry(t, q),
        !tree::is_dot(q.1),
        !tree::has_children(t, tree::target(t, q)),
    ensures
        tree::unlinked(t, q).contains_key(q.0),
        tree::unlinked(t, q)[q.0].ty == InodeType::Directory,
        !tree::has_entry(tree::unlinked(t, q), q),
{
    if t[tree::target(t, q)].ty == InodeType::Directory {
        lemma_childless_directory(t, q);
    }
}

pub(crate) proof fn lemma_carry(
    h: Seq<Step>,
    trees: Seq<Tree>,
    i: int,
    src_dir: u32,
    src_name: Seq<char>,
    dst_dir: u32,
    dst_name: Seq<char>,
)
    requires
        tree::sound(h, trees, i),
        0 <= i <= h.len(),
        tree::well_formed(trees[i]),
        trees[i].contains_key(dst_dir),
        trees[i][dst_dir].ty == InodeType::Directory,
        !tree::has_entry(trees[i], (dst_dir, dst_name)),
        !tree::is_dot(src_name),
    ensures
        protocol::carry_run(h, i, src_dir, src_name, dst_dir, dst_name) matches Some((Ok(_), j))
            ==> {
            &&& i <= j <= h.len()
            &&& tree::has_entry(trees[i], (src_dir, src_name))
            &&& trees[j] == tree::moved(trees[i], (src_dir, src_name), (dst_dir, dst_name))
            &&& tree::well_formed(trees[j])
        },
{
    let t = trees[i];
    let p = (src_dir, src_name);
    let q = (dst_dir, dst_name);
    lemma_dots_differ();
    match protocol::carry_run(h, i, src_dir, src_name, dst_dir, dst_name) {
        Some((Ok(_), j)) => {
            assert(tree::sound_at(h, trees, i));
            assert(tree::sound_at(h, trees, i + 1));
            assert(tree::sound_at(h, trees, i + 2));
            assert(tree::sound_at(h, trees, i + 3));
            let src = tree::target(t, p);
            assert(trees[i + 4] == t);
            assert(tree::has_entry(t, p));
            assert(tree::has_entry(t, (dst_dir, "."@)));
            assert(tree::has_entry(t, (dst_dir, ".."@)));
            assert(!tree::is_dot(dst_name));
            lemma_moved_well_formed(t, p, q);
            let u = tree::moved(t, p, q);
            if t[src].ty == InodeType::Directory {
                assert(tree::sound_at(h, trees, i + 4));
                assert(tree::sound_at(h, trees, i + 5));
                assert(tree::sound_at(h, trees, i + 6));
                assert(tree::sound_at(h, trees, i + 7));
                assert(tree::sound_at(h, trees, i + 8));
                assert(tree::sound_at(h, trees, i + 9));
                assert(tree::sound_at(h, trees, i + 10));
            } else {
                assert(tree::sound_at(h, trees, i + 4));
                assert(tree::sound_at(h, trees, i + 5));
            }
            assert forall|x: u32| #[trigger] u.contains_key(x) implies trees[j][x] == u[x] by {
                assert(trees[j][x].entries =~= u[x].entries);
                assert(trees[j][x] =~= u[x]);
            }
            assert(trees[j] =~= u);
        },
        _ => {},
    }
}

/// What a move that fails leaves behind.
pub(crate) proof fn lemma_carry_failure(
    h: Seq<Step>,
    trees: Seq<Tree>,
    i: int,
    src_dir: u32,
    src_name: Seq<char>,
    dst_dir: u32,
    dst_name: Seq<char>,
)
    requires
        tree::sound(h, trees, i),
        0 <= i <= h.len(),
    ensures
        protocol::carry_run(h, i, src_dir, src_name, dst_dir, dst_name) matches Some((Err(_), j))
            ==> trees[j] == trees[i] || tree::has_entry(trees[i], (src_dir, src_name)) && ({
            let p = (src_dir, src_name);
            let ready = tree::redirected(trees[i], p, (dst_dir, dst_name));
            ||| trees[j] == ready
            ||| trees[j] == tree::count(
                tree::drop_entry(ready, p),
                tree::target(trees[i], p),
                -1,
            )
        }),
{
    match protocol::carry_run(h, i, src_dir, src_name, dst_dir, dst_name) {
        Some((Err(_), j)) => {
            assert(tree::sound_at(h, trees, i));
            if i + 1 < h.len() {
                assert(tree::sound_at(h, trees, i + 1));
            }
            if i + 2 < h.len() {
                assert(tree::sound_at(h, trees, i + 2));
            }
            if i + 3 < h.len() {
                assert(tree::sound_at(h, trees, i + 3));
            }
            if i + 4 < h.len() {
                assert(tree::sound_at(h, trees, i + 4));
            }
            if i + 5 < h.len() {
                assert(tree::sound_at(h, trees, i + 5));
            }
            if i + 6 < h.len() {
                assert(tree::sound_at(h, trees, i + 6));
            }
            if i + 7 < h.len() {
                assert(tree::sound_at(h, trees, i + 7));
            }
            if i + 8 < h.len() {
                assert(tree::sound_at(h, trees, i + 8));
            }
            if i + 9 < h.len() {
                assert(tree::sound_at(h, trees, i + 9));
            }
            if i + 10 < h.len() {
                assert(tree::sound_at(h, trees, i + 10));
            }
        },
        _ => {},
    }
}

pub(crate) proof fn lemma_carry_fails(
    h: Seq<Step>,
    i: int,
    src_dir: u32,
    src_name: Seq<char>,
    dst_dir: u32,
    dst_name: Seq<char>,
)
    ensures
        protocol::carry_run(h, i, src_dir, src_name, dst_dir, dst_name) matches Some((Err(_), j))
            ==> laws::failed(h[j - 1]),
{
}

/// What `create` does to the number of free inodes.
pub(crate) proof fn lemma_create_counts(
    h: Seq<Step>,
    sbs: Seq<SuperblockView>,
    i: int,
    parent: u32,
    name: Seq<char>,
    ty: InodeType,
    permissions: u32,
)
    requires
        counts::sound(h, sbs, i),
        0 <= i <= h.len(),
    ensures
        protocol::create_run(h, i, parent, name, ty, permissions) matches Some((Ok(_), j))
            ==> sbs[j].free_inodes_count == sbs[i].free_inodes_count - 1,
{
    match protocol::create_run(h, i, parent, name, ty, permissions) {
        Some((Ok(_), _)) => {
            if i < h.len() {
                assert(counts::sound_at(h, sbs, i));
            }
            if i + 1 < h.len() {
                assert(counts::sound_at(h, sbs, i + 1));
            }
            if i + 2 < h.len() {
                assert(counts::sound_at(h, sbs, i + 2));
            }
            if i + 3 < h.len() {
                assert(counts::sound_at(h, sbs, i + 3));
            }
            if i + 4 < h.len() {
                assert(counts::sound_at(h, sbs, i + 4));
            }
            if i + 5 < h.len() {
                assert(counts::sound_at(h, sbs, i + 5));
            }
            if i + 6 < h.len() {
                assert(counts::sound_at(h, sbs, i + 6));
            }
            if i + 7 < h.len() {
                assert(counts::sound_at(h, sbs, i + 7));
            }
            if i + 8 < h.len() {
                assert(counts::sound_at(h, sbs, i + 8));
            }
            if i + 9 < h.len() {
                assert(counts::sound_at(h, sbs, i + 9));
            }
        },
        _ => {},
    }
}

/// `link` does nothing to the number of free inodes.
pub(crate) proof fn lemma_link_counts(
    h: Seq<Step>,
    sbs: Seq<SuperblockView>,
    i: int,
    dir: u32,
    name: Seq<char>,
    child: u32,
)
    requires
        counts::sound(h, sbs, i),
        0 <= i <= h.len(),
    ensures
        protocol::link_run(h, i, dir, name, child) matches Some((Ok(_), j))
            ==> sbs[j].free_inodes_count == sbs[i].free_inodes_count,
{
    match protocol::link_run(h, i, dir, name, child) {
        Some((Ok(_), _)) => {
            if i < h.len() {
                assert(counts::sound_at(h, sbs, i));
            }
            if i + 1 < h.len() {
                assert(counts::sound_at(h, sbs, i + 1));
            }
            if i + 2 < h.len() {
                assert(counts::sound_at(h, sbs, i + 2));
            }
            if i + 3 < h.len() {
                assert(counts::sound_at(h, sbs, i + 3));
            }
        },
        _ => {},
    }
}

/// The part of `unlink` up to freeing the inode does nothing to the number of free inodes.
proof fn lemma_detach_counts(
    h: Seq<Step>,
    sbs: Seq<SuperblockView>,
    i: int,
    dir: u32,
    name: Seq<char>,
    child: u32,
)
    requires
        counts::sound(h, sbs, i),
        0 <= i <= h.len(),
    ensures
        protocol::target_run(h, i, dir, name) matches Some((_, j)) ==> sbs[j] == sbs[i],
        protocol::childless_run(h, i, child) matches Some((_, j)) ==> sbs[j] == sbs[i],
        protocol::shrink_run(h, i, child) matches Some((_, j)) ==> sbs[j].free_inodes_count
            == sbs[i].free_inodes_count,
        protocol::detach_run(h, i, dir, name, child) matches Some((_, j))
            ==> sbs[j].free_inodes_count == sbs[i].free_inodes_count,
{
    if i < h.len() {
        assert(counts::sound_at(h, sbs, i));
    }
    if i + 1 < h.len() {
        assert(counts::sound_at(h, sbs, i + 1));
    }
    if i + 2 < h.len() {
        assert(counts::sound_at(h, sbs, i + 2));
    }
    if i + 3 < h.len() {
        assert(counts::sound_at(h, sbs, i + 3));
    }
}

/// What `unlink` does to the number of free inodes.
pub(crate) proof fn lemma_unlink_counts(
    h: Seq<Step>,
    trees: Seq<Tree>,
    sbs: Seq<SuperblockView>,
    i: int,
    dir: u32,
    name: Seq<char>,
)
    requires
        tree::sound(h, trees, i),
        counts::sound(h, sbs, i),
        0 <= i <= h.len(),
    ensures
        protocol::unlink_run(h, i, dir, name) matches Some((Ok(_), j))
            ==> sbs[j].free_inodes_count == sbs[i].free_inodes_count + if trees[j].contains_key(
            tree::target(trees[i], (dir, name)),
        ) {
            0int
        } else {
            1int
        },
{
    match protocol::unlink_run(h, i, dir, name) {
        Some((Ok(_), _)) => {
            lemma_target(h, trees, i, dir, name);
            lemma_detach_counts(h, sbs, i, dir, name, 0);
            let (child, i1) = (
                tree::target(trees[i], (dir, name)),
                protocol::target_run(h, i, dir, name).unwrap().1,
            );
            lemma_childless(h, trees, i1, child);
            lemma_detach_counts(h, sbs, i1, dir, name, child);
            let i2 = protocol::childless_run(h, i1, child).unwrap().1;
            lemma_shrink(h, trees, i2, child);
            lemma_detach_counts(h, sbs, i2, dir, name, child);
            let i3 = protocol::shrink_run(h, i2, child).unwrap().1;
            lemma_detach(h, trees, i3, dir, name, child);
            lemma_detach_counts(h, sbs, i3, dir, name, child);
            let i4 = protocol::detach_run(h, i3, dir, name, child).unwrap().1;
            lemma_reap(h, trees, i4, child);
            if i4 < h.len() {
                assert(tree::sound_at(h, trees, i4));
            }
            if i4 < h.len() {
                assert(counts::sound_at(h, sbs, i4));
            }
            if i4 + 1 < h.len() {
                assert(counts::sound_at(h, sbs, i4 + 1));
            }
            if i4 + 2 < h.len() {
                assert(counts::sound_at(h, sbs, i4 + 2));
            }
            if i4 + 3 < h.len() {
                assert(counts::sound_at(h, sbs, i4 + 3));
            }
            if i4 + 4 < h.len() {
                assert(counts::sound_at(h, sbs, i4 + 4));
            }
        },
        _ => {},
    }
}

/// Contents that differ for one inode only.
pub(crate) proof fn lemma_only_change(pre: Files, post: Files, ino: u32)
    requires
        post.remove(ino) == pre.remove(ino),
        post.contains_key(ino),
    ensures
        post == pre.insert(ino, post[ino]),
{
    assert(post =~= post.remove(ino).insert(ino, post[ino]));
    assert(pre.remove(ino).insert(ino, post[ino]) =~= pre.insert(ino, post[ino]));
}

/// The part of `law_backend_obeys` about request `k`, with what carries over to the next one.
pub(crate) proof fn lemma_obeys<Dev: BlockDevice, B: Backend<Dev>>(
    driver: Driver<Dev, B>,
    fine: spec_fn(State<Dev, B>) -> bool,
    right: spec_fn(Handle<B::Inode, B::Entry>) -> bool,
    obeys: spec_fn(State<Dev, B>, Step, State<Dev, B>) -> bool,
    i: int,
    k: int,
)
    requires
        driver.wf(),
        0 <= i <= k < driver.events().len(),
        driver.setup() <= i,
        fine(laws::state_at(driver, i)),
        forall|k: int, handle: Handle<B::Inode, B::Entry>|
            0 <= k < i && #[trigger] driver.events()[k].gives.contains(handle) ==> right(handle),
        forall|e: Event<Dev, B>|
            {
                &&& #[trigger] request::made(e)
                &&& fine(e.before)
                &&& forall|handle: Handle<B::Inode, B::Entry>| #[trigger]
                    e.takes.contains(handle) ==> right(handle)
            } ==> {
                &&& obeys(e.before, e.step, e.after)
                &&& fine(e.after)
                &&& forall|handle: Handle<B::Inode, B::Entry>| #[trigger]
                    e.gives.contains(handle) ==> right(handle)
            },
    ensures
        obeys(laws::state_at(driver, k), driver.history()[k], laws::state_at(driver, k + 1)),
        fine(laws::state_at(driver, k + 1)),
        forall|handle: Handle<B::Inode, B::Entry>| #[trigger]
            driver.events()[k].gives.contains(handle) ==> right(handle),
    decreases k,
{
    let events = driver.events();
    let e = events[k];
    if i < k {
        lemma_obeys(driver, fine, right, obeys, i, k - 1);
    }
    assert forall|handle: Handle<B::Inode, B::Entry>| #[trigger]
        e.takes.contains(handle) implies right(handle) by {
        assert(events[k].takes.contains(handle));
        assert(request::given(events, k, handle));
        let m = choose|m: int| 0 <= m < k && (#[trigger] events[m]).gives.contains(handle);
        if i <= m {
            lemma_obeys(driver, fine, right, obeys, i, m);
        }
        assert(events[m].gives.contains(handle));
    }
    assert(request::made(e));
    if k + 1 < events.len() {
        assert(request::linked(events, k + 1));
        assert(!request::sets_up(driver.history()[k + 1]));
    }
    assert(driver.history()[k] == e.step);
    assert(laws::state_at(driver, k + 1) == e.after);
}

} // verus!
