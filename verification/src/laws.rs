//! What the operations promise.
//!
//! Most of the laws speak of a sound backend: one that goes through a sequence of trees while it
//! answers the requests in a history, as `tree::sound` says.

use crate::backend::{Backend, ChangeView, Field, LibCall};
use crate::blockdev;
use crate::blockdev::{BlockDevice, Ext4BlockDevice};
use crate::contents;
use crate::contents::Files;
use crate::counts;
use crate::driver::Driver;
use crate::request;
use crate::request::{Event, Handle, State, Step};
use crate::superblock::SuperblockView;
use crate::error::{Ext4Error, Ext4Result, Failure, EISDIR, ENOENT, ENOTEMPTY, EOK};
use crate::inode;
use crate::inode::InodeType;
use crate::lemmas;
use crate::protocol;
use crate::tree;
use crate::tree::{Node, Place, Tree};
use crate::world;
use crate::world::World;
use vstd::prelude::*;

verus! {

/// The code of the error with which the backend answered a request, if it did.
pub open spec fn error_code(step: Step) -> Option<i32> {
    match step {
        Step::Open { reply: Err(code), .. } => Some(code),
        Step::Alloc { reply: Err(code), .. } => Some(code),
        Step::Change { reply: Err(e), .. } => Some(e.code),
        Step::Entry { reply: Err(e), .. } => Some(e.code),
        Step::HasChildren { reply: Err(e), .. } => Some(e.code),
        Step::Lookup { reply: Err(e), .. } => Some(e.code),
        _ => None,
    }
}

/// Whether the backend answered a request with an error.
pub open spec fn failed(step: Step) -> bool {
    error_code(step) is Some
}

/// Whether the backend could not do what was asked for: it answered with an error, and not
/// just that something is not there.
pub open spec fn broke(step: Step) -> bool {
    error_code(step) matches Some(code) && code != ENOENT
}

/// Whether an operation came to an error with that code.
pub open spec fn fails_with<T>(result: Result<T, Failure>, code: i32) -> bool {
    result matches Err(Failure::Error(e)) && e.code == code
}

/// A filesystem that holds nothing but its root directory is in order.
pub proof fn law_bare_root(root: u32, mode: u32)
    ensures
        tree::well_formed(
            Map::<u32, Node>::empty().insert(
                root,
                Node {
                    ty: InodeType::Directory,
                    links: 2,
                    mode,
                    entries: Map::<Seq<char>, u32>::empty().insert("."@, root).insert(".."@, root),
                },
            ),
        ),
{
    let entries = Map::<Seq<char>, u32>::empty().insert("."@, root).insert(".."@, root);
    let node = Node { ty: InodeType::Directory, links: 2, mode, entries };
    let t = Map::<u32, Node>::empty().insert(root, node);
    let dot = (root, "."@);
    let up = (root, ".."@);
    lemmas::lemma_dots_differ();
    assert(tree::has_entry(t, dot));
    assert(tree::has_entry(t, up));
    assert(tree::names(t, root) =~= Set::<Place>::empty().insert(dot).insert(up));
}

/// No two inode types share a directory entry type code.
pub proof fn law_entry_types_differ(a: InodeType, b: InodeType)
    requires
        inode::entry_type(a) == inode::entry_type(b),
    ensures
        a == b,
{
}

/// When `create` succeeds under a free name, that name stands for a new inode of the type asked
/// for, with the permission bits asked for and the mode bits besides that it was allocated with;
/// a directory has its entries `.` and `..`. Nothing else has changed but the parent's link
/// count, for the `..` of a directory.
pub proof fn law_create(
    h: Seq<Step>,
    trees: Seq<Tree>,
    i: int,
    j: int,
    parent: u32,
    name: Seq<char>,
    ty: InodeType,
    permissions: u32,
    child: u32,
)
    requires
        tree::sound(h, trees, i),
        0 <= i <= h.len(),
        tree::well_formed(trees[i]),
        trees[i].contains_key(parent),
        trees[i][parent].ty == InodeType::Directory,
        !tree::has_entry(trees[i], (parent, name)),
        protocol::create_run(h, i, parent, name, ty, permissions) == Some(
            (Ok::<u32, Failure>(child), j),
        ),
    ensures
        !trees[i].contains_key(child),
        trees[j] == tree::created(trees[i], (parent, name), child, ty, trees[j][child].mode),
        trees[j][child].mode == inode::mode_with_permissions(
            trees[i + 1][child].mode,
            permissions,
        ),
        tree::well_formed(trees[j]),
{
    let t = trees[i];
    let p = (parent, name);
    lemmas::lemma_dots_differ();
    lemmas::lemma_place(h, trees, i, parent, name, ty);
    match protocol::place_run(h, i, parent, name, ty) {
        Some((Ok(c), i1)) => {
            let i2 = if ty == InodeType::Directory {
                lemmas::lemma_dots(h, trees, i1, parent, c);
                protocol::dots_run(h, i1, parent, c).unwrap().1
            } else {
                i1
            };
            assert(tree::sound_at(h, trees, i2));
            assert(tree::sound_at(h, trees, i2 + 1));
            let mode = trees[j][child].mode;
            let u = tree::created(t, p, child, ty, mode);
            lemmas::lemma_created_well_formed(t, p, child, ty, mode);
            assert(trees[j][child].entries =~= u[child].entries);
            assert(trees[j][child] =~= u[child]);
            assert(trees[j][parent].entries =~= u[parent].entries);
            assert(trees[j][parent] =~= u[parent]);
            assert(trees[j] =~= u);
        },
        _ => {},
    }
}

/// On a sound backend a new directory always has two links.
pub proof fn law_create_counts_two_links(
    h: Seq<Step>,
    trees: Seq<Tree>,
    i: int,
    parent: u32,
    name: Seq<char>,
    ty: InodeType,
    permissions: u32,
)
    requires
        tree::sound(h, trees, i),
        0 <= i <= h.len(),
        trees[i].contains_key(parent),
        !tree::has_entry(trees[i], (parent, name)),
    ensures
        protocol::create_run(h, i, parent, name, ty, permissions) matches Some((result, _))
            ==> result != Err::<u32, Failure>(
            Failure::Broken("a new directory must have two links"),
        ),
{
    reveal_strlit("a new directory must have two links");
    reveal_strlit("inode ref clone failed");
    assert("a new directory must have two links"@.len() != "inode ref clone failed"@.len());
    lemmas::lemma_dots_differ();
    lemmas::lemma_place(h, trees, i, parent, name, ty);
    match protocol::place_run(h, i, parent, name, ty) {
        Some((Ok(child), k)) => {
            if ty == InodeType::Directory && protocol::dots_run(h, k, parent, child) is Some {
                assert(tree::sound_at(h, trees, k));
                if k + 1 < h.len() {
                    assert(tree::sound_at(h, trees, k + 1));
                }
                if k + 2 < h.len() {
                    assert(tree::sound_at(h, trees, k + 2));
                }
                if k + 3 < h.len() {
                    assert(tree::sound_at(h, trees, k + 3));
                }
            }
        },
        _ => {},
    }
}

/// A `create` that fails has left all inodes as they were. There may be one more, which has no
/// name. Only a directory can fail later, when it has its name but not yet both of its own
/// entries: if the name was free, that is then all that has changed besides.
pub proof fn law_create_failure(
    h: Seq<Step>,
    trees: Seq<Tree>,
    i: int,
    j: int,
    parent: u32,
    name: Seq<char>,
    ty: InodeType,
    permissions: u32,
    failure: Failure,
)
    requires
        tree::sound(h, trees, i),
        0 <= i <= h.len(),
        protocol::create_run(h, i, parent, name, ty, permissions) == Some(
            (Err::<u32, Failure>(failure), j),
        ),
    ensures
        trees[j] == trees[i] || exists|child: u32|
            {
                &&& !trees[i].contains_key(child)
                &&& trees[j] == trees[i].insert(child, #[trigger] trees[j][child])
                &&& trees[j][child].links == 0
            } || {
                &&& ty == InodeType::Directory
                &&& !trees[i].contains_key(child)
                &&& trees[i].contains_key(parent) && !tree::has_entry(trees[i], (parent, name))
                    ==> trees[j] == tree::set_entry(trees[i], (parent, name), child).insert(
                    child,
                    trees[j][child],
                )
            },
{
    let t = trees[i];
    let p = (parent, name);
    assert(tree::sound_at(h, trees, i));
    if i + 1 < h.len() {
        assert(tree::sound_at(h, trees, i + 1));
    }
    if i + 2 < h.len() {
        assert(tree::sound_at(h, trees, i + 2));
    }
    if i + 3 < h.len() {
        assert(tree::sound_at(h, trees, i + 3));
    }
    match protocol::place_run(h, i, parent, name, ty) {
        Some((Ok(child), k)) => {
            let left = trees[j][child];
            if t.contains_key(parent) && !tree::has_entry(t, p) {
                lemmas::lemma_place(h, trees, i, parent, name, ty);
                law_create_counts_two_links(h, trees, i, parent, name, ty, permissions);
                assert(tree::sound_at(h, trees, k));
                if k + 1 < h.len() {
                    assert(tree::sound_at(h, trees, k + 1));
                }
                if k + 2 < h.len() {
                    assert(tree::sound_at(h, trees, k + 2));
                }
                assert(trees[j] =~= tree::set_entry(t, p, child).insert(child, left));
            }
        },
        _ => {
            match protocol::alloc_run(h, i, ty) {
                Some((Ok(child), _)) => {
                    assert(trees[j] == t.insert(child, trees[j][child]));
                },
                _ => {},
            }
        },
    }
}

/// When `link` succeeds on a free name, that name stands for the inode, which has one link more,
/// and nothing else has changed.
pub proof fn law_link(
    h: Seq<Step>,
    trees: Seq<Tree>,
    i: int,
    j: int,
    dir: u32,
    name: Seq<char>,
    child: u32,
)
    requires
        tree::sound(h, trees, i),
        0 <= i <= h.len(),
        tree::well_formed(trees[i]),
        trees[i].contains_key(dir),
        trees[i][dir].ty == InodeType::Directory,
        !tree::has_entry(trees[i], (dir, name)),
        protocol::link_run(h, i, dir, name, child) == Some((Ok::<(), Failure>(()), j)),
    ensures
        trees[j] == tree::linked(trees[i], (dir, name), child),
        tree::well_formed(trees[j]),
{
    assert(tree::sound_at(h, trees, i));
    assert(tree::sound_at(h, trees, i + 1));
    assert(tree::sound_at(h, trees, i + 2));
    assert(tree::sound_at(h, trees, i + 3));
    lemmas::lemma_linked_well_formed(trees[i], (dir, name), child);
}

/// `link` never succeeds for a directory, and changes nothing then. It says `EISDIR`, unless
/// the backend could not do what was asked for.
pub proof fn law_link_refuses_directories(
    h: Seq<Step>,
    trees: Seq<Tree>,
    i: int,
    dir: u32,
    name: Seq<char>,
    child: u32,
)
    requires
        tree::sound(h, trees, i),
        0 <= i <= h.len(),
        trees[i][child].ty == InodeType::Directory,
    ensures
        protocol::link_run(h, i, dir, name, child) matches Some((result, j)) ==> {
            &&& result is Err
            &&& trees[j] == trees[i]
            &&& trees[i].contains_key(child) ==> broke(h[j - 1]) || fails_with(result, EISDIR)
        },
{
    if protocol::link_run(h, i, dir, name, child) is Some {
        assert(tree::sound_at(h, trees, i));
        if i + 1 < h.len() {
            assert(tree::sound_at(h, trees, i + 1));
        }
    }
}

/// A `link` that fails has changed nothing.
pub proof fn law_link_failure(
    h: Seq<Step>,
    trees: Seq<Tree>,
    i: int,
    j: int,
    dir: u32,
    name: Seq<char>,
    child: u32,
    failure: Failure,
)
    requires
        tree::sound(h, trees, i),
        0 <= i <= h.len(),
        protocol::link_run(h, i, dir, name, child) == Some((Err::<(), Failure>(failure), j)),
    ensures
        trees[j] == trees[i],
{
    assert(tree::sound_at(h, trees, i));
    if i + 1 < h.len() {
        assert(tree::sound_at(h, trees, i + 1));
    }
    if i + 2 < h.len() {
        assert(tree::sound_at(h, trees, i + 2));
    }
    if i + 3 < h.len() {
        assert(tree::sound_at(h, trees, i + 3));
    }
}

/// When `unlink` succeeds, the entry is gone, and nothing else has changed but what goes with
/// it: the inode has one link less and is freed with its last one; an empty directory is freed
/// at once, and its parent has one link less. All link counts are right again.
pub proof fn law_unlink(
    h: Seq<Step>,
    trees: Seq<Tree>,
    i: int,
    j: int,
    dir: u32,
    name: Seq<char>,
)
    requires
        tree::sound(h, trees, i),
        0 <= i <= h.len(),
        tree::well_formed(trees[i]),
        !tree::is_dot(name),
        protocol::unlink_run(h, i, dir, name) == Some((Ok::<(), Failure>(()), j)),
    ensures
        tree::has_entry(trees[i], (dir, name)),
        trees[j] == tree::unlinked(trees[i], (dir, name)),
        tree::well_formed(trees[j]),
{
    lemmas::lemma_unlink(h, trees, i, dir, name);
}

/// `unlink` never succeeds for a directory that has children, and changes nothing then. It says
/// `ENOTEMPTY`, unless the backend could not do what was asked for.
pub proof fn law_unlink_keeps_children(
    h: Seq<Step>,
    trees: Seq<Tree>,
    i: int,
    dir: u32,
    name: Seq<char>,
)
    requires
        tree::sound(h, trees, i),
        0 <= i <= h.len(),
        tree::has_entry(trees[i], (dir, name)),
        tree::has_children(trees[i], tree::target(trees[i], (dir, name))),
    ensures
        protocol::unlink_run(h, i, dir, name) matches Some((result, j)) ==> {
            &&& result is Err
            &&& trees[j] == trees[i]
            &&& trees[i].contains_key(tree::target(trees[i], (dir, name))) ==> broke(h[j - 1])
                || fails_with(result, ENOTEMPTY)
        },
{
    lemmas::lemma_target(h, trees, i, dir, name);
    lemmas::lemma_unlink_blame(h, trees, i, dir, name);
    match protocol::target_run(h, i, dir, name) {
        Some((Ok(child), k)) => {
            lemmas::lemma_childless(h, trees, k, child);
        },
        _ => {},
    }
}

/// `unlink` of a name that does not exist never succeeds, and changes nothing. It says `ENOENT`,
/// unless the backend could not do what was asked for.
pub proof fn law_unlink_needs_an_entry(
    h: Seq<Step>,
    trees: Seq<Tree>,
    i: int,
    dir: u32,
    name: Seq<char>,
)
    requires
        tree::sound(h, trees, i),
        0 <= i <= h.len(),
        !tree::has_entry(trees[i], (dir, name)),
    ensures
        protocol::unlink_run(h, i, dir, name) matches Some((result, j)) ==> {
            &&& result is Err
            &&& trees[j] == trees[i]
            &&& broke(h[j - 1]) || fails_with(result, ENOENT)
        },
{
    lemmas::lemma_target(h, trees, i, dir, name);
    lemmas::lemma_unlink_blame(h, trees, i, dir, name);
}

/// An `unlink` that fails has changed nothing, or has done all but free the inode.
pub proof fn law_unlink_failure(
    h: Seq<Step>,
    trees: Seq<Tree>,
    i: int,
    j: int,
    dir: u32,
    name: Seq<char>,
    failure: Failure,
)
    requires
        tree::sound(h, trees, i),
        0 <= i <= h.len(),
        tree::well_formed(trees[i]),
        !tree::is_dot(name),
        protocol::unlink_run(h, i, dir, name) == Some((Err::<(), Failure>(failure), j)),
    ensures
        trees[j] == trees[i] || ({
            let child = tree::target(trees[i], (dir, name));
            &&& tree::has_entry(trees[i], (dir, name))
            &&& trees[j].contains_key(child)
            &&& trees[j][child].links == 0
            &&& trees[j].remove(child) == tree::unlinked(trees[i], (dir, name))
        }),
{
    let t = trees[i];
    let p = (dir, name);
    lemmas::lemma_target(h, trees, i, dir, name);
    match protocol::target_run(h, i, dir, name) {
        Some((Ok(child), i1)) => {
            lemmas::lemma_childless(h, trees, i1, child);
            match protocol::childless_run(h, i1, child) {
                Some((Ok(_), i2)) => {
                    lemmas::lemma_shrink(h, trees, i2, child);
                    match protocol::shrink_run(h, i2, child) {
                        Some((Ok(_), i3)) => {
                            lemmas::lemma_detach(h, trees, i3, dir, name, child);
                            match protocol::detach_run(h, i3, dir, name, child) {
                                Some((Ok(_), i4)) => {
                                    lemmas::lemma_reap(h, trees, i4, child);
                                    assert(tree::sound_at(h, trees, i4));
                                    if t[child].ty == InodeType::Directory {
                                        lemmas::lemma_childless_directory(t, p);
                                    }
                                    assert(lemmas::detached(t, p, child).remove(child) =~= tree::unlinked(
                                        t,
                                        p,
                                    ));
                                },
                                _ => {},
                            }
                        },
                        _ => {},
                    }
                },
                _ => {},
            }
        },
        _ => {},
    }
}

/// When `rename` succeeds, the entry stands under its new name and no longer under the old one;
/// what had the new name before was unlinked. Nothing else has changed but what goes with a
/// directory that moves: its `..`, and the link counts of the two parents for it.
pub proof fn law_rename(
    h: Seq<Step>,
    trees: Seq<Tree>,
    i: int,
    j: int,
    src_dir: u32,
    src_name: Seq<char>,
    dst_dir: u32,
    dst_name: Seq<char>,
)
    requires
        tree::sound(h, trees, i),
        0 <= i <= h.len(),
        tree::well_formed(trees[i]),
        trees[i].contains_key(dst_dir),
        trees[i][dst_dir].ty == InodeType::Directory,
        !tree::is_dot(src_name),
        !tree::is_dot(dst_name),
        protocol::rename_run(h, i, src_dir, src_name, dst_dir, dst_name) == Some(
            (Ok::<(), Failure>(()), j),
        ),
    ensures
        (src_dir, src_name) != (dst_dir, dst_name),
        tree::has_entry(trees[i], (src_dir, src_name)),
        tree::has_entry(trees[j], (dst_dir, dst_name)),
        tree::target(trees[j], (dst_dir, dst_name)) == tree::target(trees[i], (src_dir, src_name)),
        trees[j] == tree::renamed(trees[i], (src_dir, src_name), (dst_dir, dst_name)),
        tree::well_formed(trees[j]),
{
    let t = trees[i];
    let q = (dst_dir, dst_name);
    assert(tree::sound_at(h, trees, i));
    assert(tree::sound_at(h, trees, i + 1));
    assert(trees[i + 2] == t);
    lemmas::lemma_unlink(h, trees, i + 2, dst_dir, dst_name);
    if tree::has_entry(t, q) {
        lemmas::lemma_unlinked_frees(t, q);
    }
    match protocol::clear_run(h, i + 2, dst_dir, dst_name) {
        Some((Ok(_), k)) => {
            lemmas::lemma_carry(h, trees, k, src_dir, src_name, dst_dir, dst_name);
            let p = (src_dir, src_name);
            assert(tree::has_entry(trees[k], p));
            assert(tree::target(trees[k], p) == tree::target(t, p));
            assert(tree::target(trees[j], q) == tree::target(trees[k], p));
        },
        _ => {},
    }
}

/// `rename` never succeeds onto a directory that has children, and changes nothing then. It says
/// `ENOTEMPTY`, unless the backend could not do what was asked for.
pub proof fn law_rename_keeps_children(
    h: Seq<Step>,
    trees: Seq<Tree>,
    i: int,
    src_dir: u32,
    src_name: Seq<char>,
    dst_dir: u32,
    dst_name: Seq<char>,
)
    requires
        tree::sound(h, trees, i),
        0 <= i <= h.len(),
        tree::well_formed(trees[i]),
        !tree::is_dot(dst_name),
        tree::has_entry(trees[i], (dst_dir, dst_name)),
        tree::has_children(trees[i], tree::target(trees[i], (dst_dir, dst_name))),
    ensures
        protocol::rename_run(h, i, src_dir, src_name, dst_dir, dst_name) matches Some((result, j))
            ==> {
            &&& result is Err
            &&& trees[j] == trees[i]
            &&& trees[i].contains_key(src_dir) ==> broke(h[j - 1]) || fails_with(result, ENOTEMPTY)
        },
{
    if protocol::rename_run(h, i, src_dir, src_name, dst_dir, dst_name) is Some {
        assert(tree::sound_at(h, trees, i));
        if i + 1 < h.len() {
            assert(tree::sound_at(h, trees, i + 1));
        }
        if i + 2 <= h.len() {
            if trees[i + 2] == trees[i] {
                lemmas::lemma_unlink(h, trees, i + 2, dst_dir, dst_name);
                law_unlink_keeps_children(h, trees, i + 2, dst_dir, dst_name);
                assert(trees[i].contains_key(tree::target(trees[i], (dst_dir, dst_name))));
            }
        }
    }
}

/// `rename` of an entry that does not exist, or onto its own name, never succeeds. What had the
/// new name is gone then, and nothing else has changed. It says `ENOENT`, unless the backend
/// could not do what was asked for.
pub proof fn law_rename_needs_an_entry(
    h: Seq<Step>,
    trees: Seq<Tree>,
    i: int,
    src_dir: u32,
    src_name: Seq<char>,
    dst_dir: u32,
    dst_name: Seq<char>,
)
    requires
        tree::sound(h, trees, i),
        0 <= i <= h.len(),
        tree::well_formed(trees[i]),
        trees[i].contains_key(src_dir),
        !tree::is_dot(dst_name),
        !tree::has_entry(trees[i], (src_dir, src_name)) || (src_dir, src_name) == (
            dst_dir,
            dst_name,
        ),
        tree::has_entry(trees[i], (dst_dir, dst_name)) ==> !tree::has_children(
            trees[i],
            tree::target(trees[i], (dst_dir, dst_name)),
        ),
    ensures
        protocol::rename_run(h, i, src_dir, src_name, dst_dir, dst_name) matches Some((result, j))
            ==> {
            &&& result is Err
            &&& broke(h[j - 1]) || {
                &&& fails_with(result, ENOENT)
                &&& !tree::has_entry(trees[j], (dst_dir, dst_name))
                &&& trees[j] == if tree::has_entry(trees[i], (dst_dir, dst_name)) {
                    tree::unlinked(trees[i], (dst_dir, dst_name))
                } else {
                    trees[i]
                }
            }
        },
{
    let t = trees[i];
    let q = (dst_dir, dst_name);
    if protocol::rename_run(h, i, src_dir, src_name, dst_dir, dst_name) is Some {
        assert(tree::sound_at(h, trees, i));
        if i + 1 < h.len() {
            assert(tree::sound_at(h, trees, i + 1));
        }
        if protocol::open_run(h, i, src_dir) matches Some((Ok(_), _)) && protocol::open_run(
            h,
            i + 1,
            dst_dir,
        ) matches Some((Ok(_), _)) {
            assert(trees[i + 2] == t);
            lemmas::lemma_unlink(h, trees, i + 2, dst_dir, dst_name);
            lemmas::lemma_unlink_blame(h, trees, i + 2, dst_dir, dst_name);
            if tree::has_entry(t, q) {
                lemmas::lemma_unlinked_frees(t, q);
            }
            let k = protocol::clear_run(h, i + 2, dst_dir, dst_name).unwrap().1;
            if k < h.len() {
                assert(tree::sound_at(h, trees, k));
            }
            if k + 1 < h.len() {
                assert(tree::sound_at(h, trees, k + 1));
            }
        }
    }
}

/// When what has the new name cannot be unlinked, `rename` fails with the same failure, and the
/// entry to move keeps its name.
pub proof fn law_rename_keeps_the_entry(
    h: Seq<Step>,
    trees: Seq<Tree>,
    i: int,
    j: int,
    src_dir: u32,
    src_name: Seq<char>,
    dst_dir: u32,
    dst_name: Seq<char>,
    failure: Failure,
)
    requires
        tree::sound(h, trees, i),
        0 <= i <= h.len(),
        tree::well_formed(trees[i]),
        !tree::is_dot(src_name),
        !tree::is_dot(dst_name),
        tree::has_entry(trees[i], (src_dir, src_name)),
        (src_dir, src_name) != (dst_dir, dst_name),
        protocol::open_run(h, i, src_dir) == Some((Ok::<(), Failure>(()), i + 1)),
        protocol::open_run(h, i + 1, dst_dir) == Some((Ok::<(), Failure>(()), i + 2)),
        protocol::unlink_run(h, i + 2, dst_dir, dst_name) == Some((Err::<(), Failure>(failure), j)),
        !fails_with(Err::<(), Failure>(failure), ENOENT),
    ensures
        protocol::rename_run(h, i, src_dir, src_name, dst_dir, dst_name) == Some(
            (Err::<(), Failure>(failure), j),
        ),
        tree::has_entry(trees[j], (src_dir, src_name)),
        tree::target(trees[j], (src_dir, src_name)) == tree::target(trees[i], (src_dir, src_name)),
{
    let t = trees[i];
    let p = (src_dir, src_name);
    let q = (dst_dir, dst_name);
    assert(tree::sound_at(h, trees, i));
    assert(tree::sound_at(h, trees, i + 1));
    law_unlink_failure(h, trees, i + 2, j, dst_dir, dst_name, failure);
    if trees[j] != t {
        let child = tree::target(t, q);
        assert(trees[j].remove(child) == tree::unlinked(t, q));
        if child == src_dir {
            assert(t[child].entries.contains_key(src_name));
            law_unlink_keeps_children(h, trees, i + 2, dst_dir, dst_name);
        }
        assert(trees[j].remove(child)[src_dir] == trees[j][src_dir]);
    }
}

/// A `rename` that fails once the new name is free has left the entry in its old place, or, if
/// its very last request failed, without a place. The `..` of a directory may point to the new
/// parent already.
pub proof fn law_rename_failure(
    h: Seq<Step>,
    trees: Seq<Tree>,
    i: int,
    j: int,
    k: int,
    src_dir: u32,
    src_name: Seq<char>,
    dst_dir: u32,
    dst_name: Seq<char>,
    failure: Failure,
)
    requires
        tree::sound(h, trees, i),
        0 <= i <= h.len(),
        tree::well_formed(trees[i]),
        !tree::is_dot(dst_name),
        protocol::open_run(h, i, src_dir) == Some((Ok::<(), Failure>(()), i + 1)),
        protocol::open_run(h, i + 1, dst_dir) == Some((Ok::<(), Failure>(()), i + 2)),
        protocol::clear_run(h, i + 2, dst_dir, dst_name) == Some((Ok::<(), Failure>(()), j)),
        protocol::rename_run(h, i, src_dir, src_name, dst_dir, dst_name) == Some(
            (Err::<(), Failure>(failure), k),
        ),
    ensures
        trees[j] == if tree::has_entry(trees[i], (dst_dir, dst_name)) {
            tree::unlinked(trees[i], (dst_dir, dst_name))
        } else {
            trees[i]
        },
        trees[k] == trees[j] || tree::has_entry(trees[j], (src_dir, src_name)) && ({
            let p = (src_dir, src_name);
            let ready = tree::redirected(trees[j], p, (dst_dir, dst_name));
            ||| trees[k] == ready
            ||| trees[k] == tree::count(
                tree::drop_entry(ready, p),
                tree::target(trees[j], p),
                -1,
            )
        }),
{
    assert(tree::sound_at(h, trees, i));
    assert(tree::sound_at(h, trees, i + 1));
    lemmas::lemma_unlink(h, trees, i + 2, dst_dir, dst_name);
    lemmas::lemma_carry_failure(h, trees, j, src_dir, src_name, dst_dir, dst_name);
}

/// `lookup` changes nothing. When it succeeds, the name stands for the inode it gives; when it
/// says `ENOENT`, and the directory exists, there is no such name in it.
pub proof fn law_lookup(h: Seq<Step>, trees: Seq<Tree>, i: int, dir: u32, name: Seq<char>)
    requires
        tree::sound(h, trees, i),
        0 <= i <= h.len(),
    ensures
        protocol::lookup_run(h, i, dir, name) matches Some((result, j)) ==> {
            &&& trees[j] == trees[i]
            &&& match result {
                Ok(ino) => {
                    &&& tree::has_entry(trees[i], (dir, name))
                    &&& tree::target(trees[i], (dir, name)) == ino
                },
                Err(Failure::Error(e)) => e.code == ENOENT ==> !tree::has_entry(
                    trees[i],
                    (dir, name),
                ),
                Err(_) => false,
            }
        },
{
    if protocol::lookup_run(h, i, dir, name) is Some {
        assert(tree::sound_at(h, trees, i));
        if i + 1 < h.len() {
            assert(tree::sound_at(h, trees, i + 1));
        }
    }
}

/// `lookup` finds what `create` made: if the two follow each other and succeed, they give the
/// same inode.
pub proof fn law_lookup_finds_created(
    h: Seq<Step>,
    trees: Seq<Tree>,
    i: int,
    j: int,
    k: int,
    parent: u32,
    name: Seq<char>,
    ty: InodeType,
    permissions: u32,
    child: u32,
    found: u32,
)
    requires
        tree::sound(h, trees, i),
        0 <= i <= h.len(),
        tree::well_formed(trees[i]),
        trees[i].contains_key(parent),
        trees[i][parent].ty == InodeType::Directory,
        !tree::has_entry(trees[i], (parent, name)),
        protocol::create_run(h, i, parent, name, ty, permissions) == Some(
            (Ok::<u32, Failure>(child), j),
        ),
        protocol::lookup_run(h, j, parent, name) == Some((Ok::<u32, Failure>(found), k)),
    ensures
        found == child,
{
    law_create(h, trees, i, j, parent, name, ty, permissions, child);
    law_lookup(h, trees, j, parent, name);
}

/// `lookup` finds what `rename` moved: under the new name there is the inode that had the old
/// one.
pub proof fn law_lookup_finds_renamed(
    h: Seq<Step>,
    trees: Seq<Tree>,
    i: int,
    j: int,
    k: int,
    src_dir: u32,
    src_name: Seq<char>,
    dst_dir: u32,
    dst_name: Seq<char>,
    found: u32,
)
    requires
        tree::sound(h, trees, i),
        0 <= i <= h.len(),
        tree::well_formed(trees[i]),
        trees[i].contains_key(dst_dir),
        trees[i][dst_dir].ty == InodeType::Directory,
        !tree::is_dot(src_name),
        !tree::is_dot(dst_name),
        protocol::rename_run(h, i, src_dir, src_name, dst_dir, dst_name) == Some(
            (Ok::<(), Failure>(()), j),
        ),
        protocol::lookup_run(h, j, dst_dir, dst_name) == Some((Ok::<u32, Failure>(found), k)),
    ensures
        found == tree::target(trees[i], (src_dir, src_name)),
{
    law_rename(h, trees, i, j, src_dir, src_name, dst_dir, dst_name);
    law_lookup(h, trees, j, dst_dir, dst_name);
}

/// `unlink` undoes `create`: if the two follow each other and succeed, all is as before: names,
/// links and the number of free inodes.
pub proof fn law_unlink_undoes_create(
    h: Seq<Step>,
    trees: Seq<Tree>,
    sbs: Seq<SuperblockView>,
    i: int,
    j: int,
    k: int,
    parent: u32,
    name: Seq<char>,
    ty: InodeType,
    permissions: u32,
    child: u32,
)
    requires
        tree::sound(h, trees, i),
        counts::sound(h, sbs, i),
        0 <= i <= h.len(),
        tree::well_formed(trees[i]),
        trees[i].contains_key(parent),
        trees[i][parent].ty == InodeType::Directory,
        !tree::has_entry(trees[i], (parent, name)),
        protocol::create_run(h, i, parent, name, ty, permissions) == Some(
            (Ok::<u32, Failure>(child), j),
        ),
        protocol::unlink_run(h, j, parent, name) == Some((Ok::<(), Failure>(()), k)),
    ensures
        trees[k] == trees[i],
        sbs[k].free_inodes_count == sbs[i].free_inodes_count,
{
    let t = trees[i];
    assert(tree::has_entry(t, (parent, "."@)));
    assert(tree::has_entry(t, (parent, ".."@)));
    law_create(h, trees, i, j, parent, name, ty, permissions, child);
    protocol::lemma_create_bounds(h, i, parent, name, ty, permissions);
    law_unlink(h, trees, j, k, parent, name);
    lemmas::lemma_create_counts(h, sbs, i, parent, name, ty, permissions);
    lemmas::lemma_unlink_counts(h, trees, sbs, j, parent, name);
    assert(trees[k][parent].entries =~= t[parent].entries);
    assert(trees[k][parent] =~= t[parent]);
    assert(trees[k] =~= t);
}

/// `unlink` undoes `link` in the same way, for an inode that has a link besides.
pub proof fn law_unlink_undoes_link(
    h: Seq<Step>,
    trees: Seq<Tree>,
    sbs: Seq<SuperblockView>,
    i: int,
    j: int,
    k: int,
    dir: u32,
    name: Seq<char>,
    child: u32,
)
    requires
        tree::sound(h, trees, i),
        counts::sound(h, sbs, i),
        0 <= i <= h.len(),
        tree::well_formed(trees[i]),
        trees[i].contains_key(dir),
        trees[i][dir].ty == InodeType::Directory,
        !tree::has_entry(trees[i], (dir, name)),
        trees[i][child].links > 0,
        protocol::link_run(h, i, dir, name, child) == Some((Ok::<(), Failure>(()), j)),
        protocol::unlink_run(h, j, dir, name) == Some((Ok::<(), Failure>(()), k)),
    ensures
        trees[k] == trees[i],
        sbs[k].free_inodes_count == sbs[i].free_inodes_count,
{
    let t = trees[i];
    assert(tree::has_entry(t, (dir, "."@)));
    assert(tree::has_entry(t, (dir, ".."@)));
    assert(tree::sound_at(h, trees, i));
    assert(tree::sound_at(h, trees, i + 1));
    law_link(h, trees, i, j, dir, name, child);
    law_unlink(h, trees, j, k, dir, name);
    lemmas::lemma_link_counts(h, sbs, i, dir, name, child);
    lemmas::lemma_unlink_counts(h, trees, sbs, j, dir, name);
    assert(trees[k][dir].entries =~= t[dir].entries);
    assert(trees[k][dir] =~= t[dir]);
    assert(trees[k][child] =~= t[child]);
    assert(trees[k] =~= t);
}

/// `rename` to a free name is undone by `rename` back.
pub proof fn law_rename_back(
    h: Seq<Step>,
    trees: Seq<Tree>,
    i: int,
    j: int,
    k: int,
    src_dir: u32,
    src_name: Seq<char>,
    dst_dir: u32,
    dst_name: Seq<char>,
)
    requires
        tree::sound(h, trees, i),
        0 <= i <= h.len(),
        tree::well_formed(trees[i]),
        trees[i].contains_key(dst_dir),
        trees[i][dst_dir].ty == InodeType::Directory,
        !tree::is_dot(src_name),
        !tree::is_dot(dst_name),
        !tree::has_entry(trees[i], (dst_dir, dst_name)),
        protocol::rename_run(h, i, src_dir, src_name, dst_dir, dst_name) == Some(
            (Ok::<(), Failure>(()), j),
        ),
        protocol::rename_run(h, j, dst_dir, dst_name, src_dir, src_name) == Some(
            (Ok::<(), Failure>(()), k),
        ),
    ensures
        trees[k] == trees[i],
{
    let t = trees[i];
    let p = (src_dir, src_name);
    let q = (dst_dir, dst_name);
    lemmas::lemma_dots_differ();
    law_rename(h, trees, i, j, src_dir, src_name, dst_dir, dst_name);
    protocol::lemma_rename_bounds(h, i, src_dir, src_name, dst_dir, dst_name);
    assert(tree::has_entry(t, p));
    assert(!tree::has_entry(trees[j], p));
    law_rename(h, trees, j, k, dst_dir, dst_name, src_dir, src_name);
    let src = tree::target(t, p);
    let up = (src, ".."@);
    if t[src].ty == InodeType::Directory {
        assert(tree::has_entry(t, up));
        assert(tree::target(t, up) == src_dir);
    }
    assert forall|x: u32| #[trigger] t.contains_key(x) implies trees[k][x] == t[x] by {
        assert(trees[k][x].entries =~= t[x].entries);
        assert(trees[k][x] =~= t[x]);
    }
    assert(trees[k] =~= t);
}

/// `create` takes one free inode.
pub proof fn law_create_takes_an_inode(
    h: Seq<Step>,
    sbs: Seq<SuperblockView>,
    i: int,
    j: int,
    parent: u32,
    name: Seq<char>,
    ty: InodeType,
    permissions: u32,
    child: u32,
)
    requires
        counts::sound(h, sbs, i),
        0 <= i <= h.len(),
        protocol::create_run(h, i, parent, name, ty, permissions) == Some(
            (Ok::<u32, Failure>(child), j),
        ),
    ensures
        sbs[j].free_inodes_count == sbs[i].free_inodes_count - 1,
{
    lemmas::lemma_create_counts(h, sbs, i, parent, name, ty, permissions);
}

/// `unlink` gives a free inode back just when the inode is gone with its last link.
pub proof fn law_unlink_gives_the_inode_back(
    h: Seq<Step>,
    trees: Seq<Tree>,
    sbs: Seq<SuperblockView>,
    i: int,
    j: int,
    dir: u32,
    name: Seq<char>,
)
    requires
        tree::sound(h, trees, i),
        counts::sound(h, sbs, i),
        0 <= i <= h.len(),
        tree::well_formed(trees[i]),
        !tree::is_dot(name),
        protocol::unlink_run(h, i, dir, name) == Some((Ok::<(), Failure>(()), j)),
    ensures
        sbs[j].free_inodes_count == sbs[i].free_inodes_count + if trees[j].contains_key(
            tree::target(trees[i], (dir, name)),
        ) {
            0int
        } else {
            1int
        },
{
    lemmas::lemma_unlink_counts(h, trees, sbs, i, dir, name);
}

/// `stat` tells the superblock as it is, and changes nothing: two calls in a row agree.
pub proof fn law_stat(
    h: Seq<Step>,
    trees: Seq<Tree>,
    files: Seq<Files>,
    sbs: Seq<SuperblockView>,
    i: int,
    first: Result<SuperblockView, Failure>,
    second: Result<SuperblockView, Failure>,
    j: int,
    k: int,
)
    requires
        tree::sound(h, trees, i),
        contents::sound(h, files, i),
        counts::sound(h, sbs, i),
        0 <= i <= h.len(),
        protocol::stat_run(h, i) == Some((first, j)),
        protocol::stat_run(h, j) == Some((second, k)),
    ensures
        first == Ok::<SuperblockView, Failure>(sbs[i]),
        second == first,
        trees[j] == trees[i] && files[j] == files[i] && sbs[j] == sbs[i],
{
    assert(tree::sound_at(h, trees, i));
    assert(contents::sound_at(h, files, i));
    assert(counts::sound_at(h, sbs, i));
    assert(counts::sound_at(h, sbs, j));
}

/// `read_at` gives what the inode holds at the offset, as far as it goes and the buffer takes it,
/// and changes nothing.
pub proof fn law_read_at(
    h: Seq<Step>,
    files: Seq<Files>,
    i: int,
    j: int,
    ino: u32,
    before: Seq<u8>,
    offset: u64,
    n: usize,
    after: Seq<u8>,
)
    requires
        contents::sound(h, files, i),
        0 <= i <= h.len(),
        protocol::read_at_run(h, i, ino, before, offset) == Some(
            (Ok::<usize, Failure>(n), after, j),
        ),
    ensures
        files[j] == files[i],
        n == contents::readable(files[i][ino], offset as int, before.len() as int),
        forall|k: int| 0 <= k < n ==> #[trigger] after[k] == files[i][ino][offset + k],
{
    assert(contents::sound_at(h, files, i));
    assert(contents::sound_at(h, files, i + 1));
}

/// `write_at` puts as many bytes as it says at the offset. Nothing else changes, in that inode
/// or in others.
pub proof fn law_write_at(
    h: Seq<Step>,
    files: Seq<Files>,
    i: int,
    j: int,
    ino: u32,
    bytes: Seq<u8>,
    offset: u64,
    n: usize,
)
    requires
        contents::sound(h, files, i),
        0 <= i <= h.len(),
        protocol::write_at_run(h, i, ino, bytes, offset) == Some((Ok::<usize, Failure>(n), j)),
    ensures
        n <= bytes.len(),
        files[j] == files[i].insert(
            ino,
            contents::overwritten(files[i][ino], offset as int, bytes.take(n as int)),
        ),
{
    assert(contents::sound_at(h, files, i));
    assert(contents::sound_at(h, files, i + 1));
    lemmas::lemma_only_change(files[i], files[j], ino);
}

/// `read_at` gives back what `write_at` wrote, as long as no request in between can change the
/// contents of the inode.
pub proof fn law_read_after_write(
    h: Seq<Step>,
    files: Seq<Files>,
    i: int,
    j: int,
    k: int,
    l: int,
    ino: u32,
    bytes: Seq<u8>,
    offset: u64,
    n: usize,
    before: Seq<u8>,
    m: usize,
    after: Seq<u8>,
)
    requires
        contents::sound(h, files, i),
        0 <= i <= h.len(),
        protocol::write_at_run(h, i, ino, bytes, offset) == Some((Ok::<usize, Failure>(n), j)),
        j <= k <= h.len(),
        contents::spared(h, j, k, ino),
        before.len() == n,
        protocol::read_at_run(h, k, ino, before, offset) == Some(
            (Ok::<usize, Failure>(m), after, l),
        ),
    ensures
        m == n,
        after == bytes.take(n as int),
{
    law_write_at(h, files, i, j, ino, bytes, offset, n);
    contents::lemma_spared(h, files, j, k, ino);
    assert(contents::sound_at(h, files, k));
    assert(contents::sound_at(h, files, k + 1));
    law_read_at(h, files, k, l, ino, before, offset, m, after);
    assert(after =~= bytes.take(n as int));
}

/// `set_len` cuts the contents off, or fills them up with zeros; `get_attr` then tells that
/// length, as long as no request in between can change the contents of the inode.
pub proof fn law_set_len(
    h: Seq<Step>,
    files: Seq<Files>,
    i: int,
    j: int,
    k: int,
    ino: u32,
    len: u64,
)
    requires
        contents::sound(h, files, i),
        0 <= i <= h.len(),
        protocol::edit_run(h, i, ino, ChangeView::SetLen(len)) == Some((Ok::<(), Failure>(()), j)),
        j <= k <= h.len(),
        contents::spared(h, j, k, ino),
    ensures
        files[j] == files[i].insert(ino, contents::resized(files[i][ino], len as nat)),
        protocol::get_attr_run(h, k, ino) matches Some((Ok(attr), _)) ==> attr.size == len,
{
    assert(contents::sound_at(h, files, i));
    assert(contents::sound_at(h, files, i + 1));
    lemmas::lemma_only_change(files[i], files[j], ino);
    contents::lemma_spared(h, files, j, k, ino);
    if k < h.len() {
        assert(contents::sound_at(h, files, k));
    }
    if k + 1 < h.len() {
        assert(contents::sound_at(h, files, k + 1));
    }
}

/// `set_symlink` makes the target the contents of the inode, and changes no other.
pub proof fn law_set_symlink(
    h: Seq<Step>,
    files: Seq<Files>,
    i: int,
    j: int,
    ino: u32,
    target: Seq<u8>,
)
    requires
        contents::sound(h, files, i),
        0 <= i <= h.len(),
        protocol::edit_run(h, i, ino, ChangeView::SetSymlink(target)) == Some(
            (Ok::<(), Failure>(()), j),
        ),
    ensures
        files[j] == files[i].insert(ino, target),
{
    assert(contents::sound_at(h, files, i));
    assert(contents::sound_at(h, files, i + 1));
    lemmas::lemma_only_change(files[i], files[j], ino);
}

/// What was there before request `k`; after the last one, what is there now.
pub open spec fn state_at<Dev: BlockDevice, B: Backend<Dev>>(
    driver: Driver<Dev, B>,
    k: int,
) -> State<Dev, B> {
    if k < driver.events().len() {
        driver.events()[k].before
    } else {
        driver.state()
    }
}

/// From what each single request does to a backend follows what holds of the whole history.
/// `fine` is an invariant of the backend with its device, `right` says of a handle that it is
/// one on the inode or the entry that it is taken for, and `obeys` is what a request does.
/// Given that every request that starts out fine, with right handles, obeys, stays fine and
/// gives right handles, all requests do so since the device was set up.
pub proof fn law_backend_obeys<Dev: BlockDevice, B: Backend<Dev>>(
    driver: Driver<Dev, B>,
    fine: spec_fn(State<Dev, B>) -> bool,
    right: spec_fn(Handle<B::Inode, B::Entry>) -> bool,
    obeys: spec_fn(State<Dev, B>, Step, State<Dev, B>) -> bool,
    i: int,
)
    requires
        driver.wf(),
        0 <= i <= driver.events().len(),
        driver.setup() <= i,
        fine(state_at(driver, i)),
        forall|k: int, handle: Handle<B::Inode, B::Entry>|
            0 <= k < i && #[trigger] driver.events()[k].gives.contains(handle) ==> right(handle),
        forall|e: Event<Dev, B>|
            {
                &&& #[trigger] request::made(e)
                &&& fine(e.before)
                &&& forall|handle: Handle<B::Inode, B::Entry>| #[trigger]
                    e.takes.contains(handle) ==> right(handle)
            } ==> {
                &&& obeys(e.before, e.step, e.after)
                &&& fine(e.after)
                &&& forall|handle: Handle<B::Inode, B::Entry>| #[trigger]
                    e.gives.contains(handle) ==> right(handle)
            },
    ensures
        forall|k: int|
            i <= k < driver.events().len() ==> obeys(
                #[trigger] state_at(driver, k),
                driver.history()[k],
                state_at(driver, k + 1),
            ),
{
    assert forall|k: int| i <= k < driver.events().len() implies obeys(
        #[trigger] state_at(driver, k),
        driver.history()[k],
        state_at(driver, k + 1),
    ) by {
        lemmas::lemma_obeys(driver, fine, right, obeys, i, k);
    }
}

/// A backend whose requests each do right by its tree, its contents and its superblock is sound
/// in all three respects, and the other laws hold of it.
pub proof fn law_backend_is_sound<Dev: BlockDevice, B: Backend<Dev>>(
    driver: Driver<Dev, B>,
    fine: spec_fn(State<Dev, B>) -> bool,
    right: spec_fn(Handle<B::Inode, B::Entry>) -> bool,
    tree_of: spec_fn(State<Dev, B>) -> Tree,
    files_of: spec_fn(State<Dev, B>) -> Files,
    sb_of: spec_fn(State<Dev, B>) -> SuperblockView,
    i: int,
)
    requires
        driver.wf(),
        0 <= i <= driver.events().len(),
        driver.setup() <= i,
        fine(state_at(driver, i)),
        forall|k: int, handle: Handle<B::Inode, B::Entry>|
            0 <= k < i && #[trigger] driver.events()[k].gives.contains(handle) ==> right(handle),
        forall|e: Event<Dev, B>|
            {
                &&& #[trigger] request::made(e)
                &&& fine(e.before)
                &&& forall|handle: Handle<B::Inode, B::Entry>| #[trigger]
                    e.takes.contains(handle) ==> right(handle)
            } ==> {
                &&& tree::answers(tree_of(e.before), e.step, tree_of(e.after))
                &&& contents::answers(files_of(e.before), e.step, files_of(e.after))
                &&& counts::answers(sb_of(e.before), e.step, sb_of(e.after))
                &&& fine(e.after)
                &&& forall|handle: Handle<B::Inode, B::Entry>| #[trigger]
                    e.gives.contains(handle) ==> right(handle)
            },
    ensures
        tree::sound(
            driver.history(),
            Seq::new(driver.history().len() + 1, |k: int| tree_of(state_at(driver, k))),
            i,
        ),
        contents::sound(
            driver.history(),
            Seq::new(driver.history().len() + 1, |k: int| files_of(state_at(driver, k))),
            i,
        ),
        counts::sound(
            driver.history(),
            Seq::new(driver.history().len() + 1, |k: int| sb_of(state_at(driver, k))),
            i,
        ),
{
    let obeys = |pre: State<Dev, B>, step: Step, post: State<Dev, B>|
        {
            &&& tree::answers(tree_of(pre), step, tree_of(post))
            &&& contents::answers(files_of(pre), step, files_of(post))
            &&& counts::answers(sb_of(pre), step, sb_of(post))
        };
    law_backend_obeys(driver, fine, right, obeys, i);
    let h = driver.history();
    let trees = Seq::new(h.len() + 1, |k: int| tree_of(state_at(driver, k)));
    let files = Seq::new(h.len() + 1, |k: int| files_of(state_at(driver, k)));
    let sbs = Seq::new(h.len() + 1, |k: int| sb_of(state_at(driver, k)));
    assert forall|k: int| i <= k < h.len() implies tree::sound_at(h, trees, k)
        && contents::sound_at(h, files, k) && counts::sound_at(h, sbs, k) by {
        assert(obeys(state_at(driver, k), h[k], state_at(driver, k + 1)));
    }
}

/// A backend whose requests each do right by all that it keeps is sound in every respect.
pub proof fn law_backend_keeps_its_world<Dev: BlockDevice, B: Backend<Dev>>(
    driver: Driver<Dev, B>,
    fine: spec_fn(State<Dev, B>) -> bool,
    right: spec_fn(Handle<B::Inode, B::Entry>) -> bool,
    world_of: spec_fn(State<Dev, B>) -> World,
    i: int,
)
    requires
        driver.wf(),
        0 <= i <= driver.events().len(),
        driver.setup() <= i,
        fine(state_at(driver, i)),
        forall|k: int, handle: Handle<B::Inode, B::Entry>|
            0 <= k < i && #[trigger] driver.events()[k].gives.contains(handle) ==> right(handle),
        forall|e: Event<Dev, B>|
            {
                &&& #[trigger] request::made(e)
                &&& fine(e.before)
                &&& forall|handle: Handle<B::Inode, B::Entry>| #[trigger]
                    e.takes.contains(handle) ==> right(handle)
            } ==> {
                &&& world::answers(world_of(e.before), e.step, world_of(e.after))
                &&& fine(e.after)
                &&& forall|handle: Handle<B::Inode, B::Entry>| #[trigger]
                    e.gives.contains(handle) ==> right(handle)
            },
    ensures
        world::sound(
            driver.history(),
            Seq::new(driver.history().len() + 1, |k: int| world_of(state_at(driver, k))),
            i,
        ),
{
    let obeys = |pre: State<Dev, B>, step: Step, post: State<Dev, B>|
        world::answers(world_of(pre), step, world_of(post));
    law_backend_obeys(driver, fine, right, obeys, i);
    let h = driver.history();
    let w = Seq::new(h.len() + 1, |k: int| world_of(state_at(driver, k)));
    assert forall|k: int| i <= k < h.len() implies world::sound_at(h, w, k) by {
        assert(obeys(state_at(driver, k), h[k], state_at(driver, k + 1)));
    }
}

/// What `dev_bwrite` wrote, `dev_bread` reads back, if both succeed, nothing is done in between,
/// and the device is a faithful one: it holds bytes of which a write replaces the part it is
/// about, and a read gives the part it is about and changes none.
pub proof fn law_block_reads_back<Dev: BlockDevice>(
    bytes: spec_fn(Dev) -> Seq<u8>,
    before: Ext4BlockDevice<Dev>,
    between: Ext4BlockDevice<Dev>,
    after: Ext4BlockDevice<Dev>,
    blk_id: u64,
    written: &[u8],
    found: Seq<u8>,
    left: Seq<u8>,
)
    requires
        forall|dev: &mut Dev, id: u64, buf: &[u8], reply: Ext4Result<usize>| #[trigger]
            call_ensures(Dev::write_blocks, (dev, id, buf), reply) && reply is Ok ==> {
                let held = bytes(*dev);
                let end = 512 * id + buf@.len();
                &&& end <= held.len()
                &&& bytes(*final(dev)) == held.take(512 * id) + buf@ + held.skip(end)
            },
        forall|dev: &mut Dev, id: u64, space: &mut [u8], reply: Ext4Result<usize>| #[trigger]
            call_ensures(Dev::read_blocks, (dev, id, space), reply) && reply is Ok ==> {
                let end = 512 * id + space@.len();
                &&& bytes(*final(dev)) == bytes(*dev)
                &&& final(space)@ == bytes(*dev).subrange(512 * id, end)
            },
        exists|dev: &mut Dev, reply: Ext4Result<usize>|
            {
                &&& #[trigger] call_ensures(Dev::write_blocks, (dev, blk_id, written), reply)
                &&& *dev == before.device()
                &&& *final(dev) == between.device()
                &&& blockdev::io_status(reply) == EOK
            },
        exists|dev: &mut Dev, space: &mut [u8], reply: Ext4Result<usize>|
            {
                &&& #[trigger] call_ensures(Dev::read_blocks, (dev, blk_id, space), reply)
                &&& *dev == between.device()
                &&& *final(dev) == after.device()
                &&& space@ == found
                &&& final(space)@ == left
                &&& blockdev::io_status(reply) == EOK
            },
        found.len() == written@.len(),
    ensures
        left == written@,
{
    let held = bytes(before.device());
    let end = 512 * blk_id + written@.len();
    assert((held.take(512 * blk_id) + written@ + held.skip(end)).subrange(512 * blk_id, end)
        =~= written@);
}

/// If setting the filesystem up fails after the block device was set up, the device is taken
/// down again: that is the last thing done.
pub proof fn law_new_takes_down(h: Seq<Step>, i: int, bcache_size: u32)
    requires
        protocol::device_run(h, i) matches Some((Ok(_), _)),
        protocol::new_run(h, i, bcache_size) matches Some((Err(_), _)),
    ensures
        protocol::call_at(
            h,
            protocol::new_run(h, i, bcache_size).unwrap().1 - 1,
            LibCall::BlockFini,
        ),
{
}

/// Whether the backend answered that an inode has children.
pub open spec fn found_children(step: Step) -> bool {
    step matches Step::HasChildren { reply, .. } && reply == Ok::<bool, Ext4Error>(true)
}

/// `create` fails only where its last request failed, or told a wrong link count: it makes no
/// request after one that failed, and gives up for no other reason.
pub proof fn law_create_fails_for_a_reason(
    h: Seq<Step>,
    i: int,
    j: int,
    parent: u32,
    name: Seq<char>,
    ty: InodeType,
    permissions: u32,
    failure: Failure,
)
    requires
        protocol::create_run(h, i, parent, name, ty, permissions) == Some(
            (Err::<u32, Failure>(failure), j),
        ),
    ensures
        failed(h[j - 1]) || (h[j - 1] matches Step::Field { field, value, .. } && field
            == Field::Nlink && value != 2),
        forall|k: int| i <= k < j - 1 ==> !failed(#[trigger] h[k]),
{
}

/// `link` fails only where its last request failed, or told that the inode is a directory.
pub proof fn law_link_fails_for_a_reason(
    h: Seq<Step>,
    i: int,
    j: int,
    dir: u32,
    name: Seq<char>,
    child: u32,
    failure: Failure,
)
    requires
        protocol::link_run(h, i, dir, name, child) == Some((Err::<(), Failure>(failure), j)),
    ensures
        failed(h[j - 1]) || h[j - 1] == (Step::InodeType { ino: child, ty: InodeType::Directory }),
        forall|k: int| i <= k < j - 1 ==> !failed(#[trigger] h[k]),
{
}

/// `unlink` fails only where its last request failed, or told that the inode has children.
pub proof fn law_unlink_fails_for_a_reason(
    h: Seq<Step>,
    i: int,
    j: int,
    dir: u32,
    name: Seq<char>,
    failure: Failure,
)
    requires
        protocol::unlink_run(h, i, dir, name) == Some((Err::<(), Failure>(failure), j)),
    ensures
        failed(h[j - 1]) || found_children(h[j - 1]),
        forall|k: int| i <= k < j - 1 ==> !failed(#[trigger] h[k]),
{
}

/// `rename` fails only where its last request failed, or told that what has the new name has
/// children.
pub proof fn law_rename_fails_for_a_reason(
    h: Seq<Step>,
    i: int,
    j: int,
    src_dir: u32,
    src_name: Seq<char>,
    dst_dir: u32,
    dst_name: Seq<char>,
    failure: Failure,
)
    requires
        protocol::rename_run(h, i, src_dir, src_name, dst_dir, dst_name) == Some(
            (Err::<(), Failure>(failure), j),
        ),
    ensures
        failed(h[j - 1]) || found_children(h[j - 1]),
{
    match protocol::clear_run(h, i + 2, dst_dir, dst_name) {
        Some((Err(f), k)) => {
            law_unlink_fails_for_a_reason(h, i + 2, k, dst_dir, dst_name, f);
        },
        Some((Ok(_), k)) => {
            lemmas::lemma_carry_fails(h, k, src_dir, src_name, dst_dir, dst_name);
        },
        None => {},
    }
}

} // verus!
