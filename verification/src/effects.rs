//! What each operation does to all that a sound backend keeps, told place by place and inode by
//! inode.

use crate::backend::{ChangeView, EntryOp, Touch};
use crate::contents;
use crate::error::Failure;
use crate::inode;
use crate::inode::{FileAttr, InodeType};
use crate::laws;
use crate::lemmas;
use crate::library;
use crate::protocol;
use crate::request::Step;
use crate::superblock::SuperblockView;
use crate::tree;
use crate::tree::{Place, Tree};
use crate::world;
use crate::world::World;
use vstd::prelude::*;

verus! {

/// Bit `k` of a number.
pub open spec fn bit(n: u32, k: u32) -> bool {
    n & (1u32 << k) != 0
}

/// Whether a place is as it was: free, or taken by the same inode.
pub open spec fn same_place(pre: Tree, post: Tree, q: Place) -> bool {
    &&& tree::has_entry(post, q) == tree::has_entry(pre, q)
    &&& tree::has_entry(pre, q) ==> tree::target(post, q) == tree::target(pre, q)
}

/// Whether the contents of an inode are as they were.
pub open spec fn same_contents(pre: World, post: World, ino: u32) -> bool {
    pre.files.contains_key(ino) ==> post.files.contains_key(ino) && post.files[ino]
        == pre.files[ino]
}

/// Whether the superblock is as it was, but for the number of free inodes, which differs by
/// `by`, and for that of free blocks.
pub open spec fn counted(pre: World, post: World, by: int) -> bool {
    post.sb == SuperblockView {
        free_inodes_count: pre.sb.free_inodes_count + by,
        free_blocks_count: post.sb.free_blocks_count,
        ..pre.sb
    }
}

/// Whether records, counts and the C library are as they were.
spec fn quiet(pre: World, post: World) -> bool {
    &&& post.ledger == pre.ledger
    &&& counted(pre, post, 0)
    &&& library::same_but_held(pre.library, post.library)
}

/// Whether one inode was freed, and that with its deletion noted and written back, while the
/// records of all others are as they were.
pub open spec fn freed_one(pre: World, post: World, ino: u32) -> bool {
    &&& post.ledger.freed.len() == pre.ledger.freed.len() + 1
    &&& post.ledger.freed.drop_last() == pre.ledger.freed
    &&& post.ledger.freed.last().0 == ino
    &&& post.ledger.freed.last().1.dtime == u32::MAX
    &&& !post.ledger.freed.last().1.unsaved
    &&& post.ledger.live == pre.ledger.live.remove(ino)
}

/// `get_attr` tells the very attributes that the backend keeps for the inode, and changes
/// nothing.
pub proof fn law_get_attr(h: Seq<Step>, w: Seq<World>, i: int, j: int, ino: u32, attr: FileAttr)
    requires
        world::sound(h, w, i),
        0 <= i <= h.len(),
        protocol::get_attr_run(h, i, ino) == Some((Ok::<FileAttr, Failure>(attr), j)),
    ensures
        attr == w[i].attrs[ino],
        w[j] == w[i],
{
    world::lemma_reads(h, w, i, j);
    assert(world::sound_at(h, w, i));
    assert(world::sound_at(h, w, i + 1));
}

/// `get_attr`, `lookup` and `stat` change nothing, however they end.
pub proof fn law_asking_changes_nothing(
    h: Seq<Step>,
    w: Seq<World>,
    i: int,
    ino: u32,
    name: Seq<char>,
)
    requires
        world::sound(h, w, i),
        0 <= i <= h.len(),
    ensures
        protocol::get_attr_run(h, i, ino) matches Some((_, j)) ==> w[j] == w[i],
        protocol::lookup_run(h, i, ino, name) matches Some((_, j)) ==> w[j] == w[i],
        protocol::stat_run(h, i) matches Some((_, j)) ==> w[j] == w[i],
{
    if protocol::get_attr_run(h, i, ino) is Some {
        world::lemma_reads(h, w, i, protocol::get_attr_run(h, i, ino).unwrap().1);
    }
    if protocol::lookup_run(h, i, ino, name) is Some {
        world::lemma_reads(h, w, i, protocol::lookup_run(h, i, ino, name).unwrap().1);
    }
    if protocol::stat_run(h, i) is Some {
        world::lemma_reads(h, w, i, protocol::stat_run(h, i).unwrap().1);
    }
}

/// `read_at` and `read_dir` change nothing but the attributes of the inode that is read.
pub proof fn law_reading_changes_nothing(
    h: Seq<Step>,
    w: Seq<World>,
    i: int,
    ino: u32,
    before: Seq<u8>,
    offset: u64,
)
    requires
        world::sound(h, w, i),
        0 <= i <= h.len(),
    ensures
        protocol::read_at_run(h, i, ino, before, offset) matches Some((_, _, j)) ==> only_attrs(
            w[i],
            w[j],
            ino,
        ),
        protocol::read_dir_run(h, i, ino, offset) matches Some((_, j)) ==> only_attrs(
            w[i],
            w[j],
            ino,
        ),
{
    if i < h.len() {
        assert(world::sound_at(h, w, i));
    }
    if i + 1 < h.len() {
        assert(world::sound_at(h, w, i + 1));
    }
}

/// Whether all is as it was, but for the attributes of one inode, and for what is held back.
pub open spec fn only_attrs(pre: World, post: World, ino: u32) -> bool {
    &&& post.tree == pre.tree
    &&& post.files == pre.files
    &&& post.ledger == pre.ledger
    &&& post.sb == pre.sb
    &&& library::same_but_held(pre.library, post.library)
    &&& forall|x: u32| x != ino ==> #[trigger] post.attrs[x] == pre.attrs[x]
}

/// `write_at`, `set_len` and `set_symlink` change nothing but the contents and attributes of the
/// inode, however they end.
pub proof fn law_editing_changes_one_inode(
    h: Seq<Step>,
    w: Seq<World>,
    i: int,
    ino: u32,
    bytes: Seq<u8>,
    offset: u64,
    len: u64,
)
    requires
        world::sound(h, w, i),
        0 <= i <= h.len(),
    ensures
        protocol::write_at_run(h, i, ino, bytes, offset) matches Some((_, j)) ==> only_contents(
            w[i],
            w[j],
            ino,
        ),
        protocol::edit_run(h, i, ino, ChangeView::SetLen(len)) matches Some((_, j))
            ==> only_contents(w[i], w[j], ino),
        protocol::edit_run(h, i, ino, ChangeView::SetSymlink(bytes)) matches Some((_, j))
            ==> only_contents(w[i], w[j], ino),
{
    if i < h.len() {
        assert(world::sound_at(h, w, i));
    }
    if i + 1 < h.len() {
        assert(world::sound_at(h, w, i + 1));
    }
}

/// Whether all is as it was, but for the contents and attributes of one inode, the number of
/// free blocks, and what is held back.
pub open spec fn only_contents(pre: World, post: World, ino: u32) -> bool {
    &&& post.tree == pre.tree
    &&& post.files.remove(ino) == pre.files.remove(ino)
    &&& post.ledger == pre.ledger
    &&& counted(pre, post, 0)
    &&& library::same_but_held(pre.library, post.library)
    &&& forall|x: u32| x != ino ==> #[trigger] post.attrs[x] == pre.attrs[x]
}

/// `write_at` offers all its bytes: a backend that takes all it is offered takes them all.
pub proof fn law_write_at_offers_all(
    h: Seq<Step>,
    i: int,
    j: int,
    ino: u32,
    bytes: Seq<u8>,
    offset: u64,
    n: usize,
)
    requires
        protocol::write_at_run(h, i, ino, bytes, offset) == Some((Ok::<usize, Failure>(n), j)),
        forall|k: int|
            0 <= k < h.len() ==> (#[trigger] h[k] matches Step::WriteAt { data, reply: Ok(m), .. }
                ==> m == data.len()),
    ensures
        n == bytes.len(),
{
    assert(h[j - 1] is WriteAt);
}

/// Whether bit by bit a mode has its nine permission bits from one number, and all others from
/// another.
pub open spec fn permits(mode: u32, permissions: u32, rest: u32) -> bool {
    forall|k: u32|
        k < 32 ==> #[trigger] bit(mode, k) == if k < 9 {
            bit(permissions, k)
        } else {
            bit(rest, k)
        }
}

proof fn lemma_permits(mode: u32, permissions: u32, merged: u32)
    requires
        merged == mode - mode % 512 + permissions % 512,
    ensures
        permits(merged, permissions, mode),
{
    assert forall|k: u32| k < 32 implies #[trigger] bit(merged, k) == if k < 9 {
        bit(permissions, k)
    } else {
        bit(mode, k)
    } by {
        if k < 9 {
            assert((merged & (1u32 << k) != 0) == (permissions & (1u32 << k) != 0)) by (bit_vector)
                requires
                    merged == mode - mode % 512 + permissions % 512,
                    k < 9,
            ;
        } else {
            assert((merged & (1u32 << k) != 0) == (mode & (1u32 << k) != 0)) by (bit_vector)
                requires
                    merged == mode - mode % 512 + permissions % 512,
                    9 <= k < 32,
            ;
        }
    }
}

/// The permission bits that a number stands for replace those of a mode, bit by bit, and no
/// others.
pub proof fn law_permissions(mode: u32, permissions: u32, merged: u32)
    requires
        merged == inode::mode_with_permissions(mode, permissions),
    ensures
        permits(merged, permissions, mode),
{
    lemma_permits(mode, permissions, merged);
}

/// What `create` does to names and links when it succeeds under a free name. The new inode has
/// that name and the type asked for; a directory has just `.` and `..`. All other places and
/// inodes are as they were, except that a parent gets a link from the `..` of a directory.
pub proof fn law_create_names(
    h: Seq<Step>,
    w: Seq<World>,
    i: int,
    j: int,
    parent: u32,
    name: Seq<char>,
    ty: InodeType,
    permissions: u32,
    child: u32,
)
    requires
        world::sound(h, w, i),
        0 <= i <= h.len(),
        tree::well_formed(w[i].tree),
        w[i].tree.contains_key(parent),
        w[i].tree[parent].ty == InodeType::Directory,
        !tree::has_entry(w[i].tree, (parent, name)),
        protocol::create_run(h, i, parent, name, ty, permissions) == Some(
            (Ok::<u32, Failure>(child), j),
        ),
    ensures
        !w[i].tree.contains_key(child),
        tree::has_entry(w[j].tree, (parent, name)),
        tree::target(w[j].tree, (parent, name)) == child,
        w[j].tree[child].ty == ty,
        w[j].tree[child].links == if ty == InodeType::Directory {
            2int
        } else {
            1int
        },
        forall|n: Seq<char>| #[trigger]
            tree::has_entry(w[j].tree, (child, n)) <==> ty == InodeType::Directory && tree::is_dot(
                n,
            ),
        ty == InodeType::Directory ==> tree::target(w[j].tree, (child, "."@)) == child
            && tree::target(w[j].tree, (child, ".."@)) == parent,
        forall|q: Place|
            q != (parent, name) && q.0 != child ==> #[trigger] same_place(w[i].tree, w[j].tree, q),
        forall|x: u32| #[trigger]
            w[j].tree.contains_key(x) <==> w[i].tree.contains_key(x) || x == child,
        forall|x: u32| #[trigger]
            w[i].tree.contains_key(x) ==> {
                &&& w[j].tree[x].ty == w[i].tree[x].ty
                &&& w[j].tree[x].mode == w[i].tree[x].mode
                &&& w[j].tree[x].links == w[i].tree[x].links + if x == parent && ty
                    == InodeType::Directory {
                    1int
                } else {
                    0int
                }
            },
{
    world::law_sound_in_each_respect(h, w, i);
    laws::law_create(h, world::trees(w), i, j, parent, name, ty, permissions, child);
    lemmas::lemma_dots_differ();
    protocol::lemma_create_bounds(h, i, parent, name, ty, permissions);
    assert(world::trees(w)[i] == w[i].tree && world::trees(w)[j] == w[j].tree);
}

/// The new inode of a `create` has the permission bits asked for, and all other mode bits as it
/// was allocated with.
pub proof fn law_create_mode(
    h: Seq<Step>,
    w: Seq<World>,
    i: int,
    j: int,
    parent: u32,
    name: Seq<char>,
    ty: InodeType,
    permissions: u32,
    child: u32,
)
    requires
        world::sound(h, w, i),
        0 <= i <= h.len(),
        tree::well_formed(w[i].tree),
        w[i].tree.contains_key(parent),
        w[i].tree[parent].ty == InodeType::Directory,
        !tree::has_entry(w[i].tree, (parent, name)),
        protocol::create_run(h, i, parent, name, ty, permissions) == Some(
            (Ok::<u32, Failure>(child), j),
        ),
    ensures
        exists|k: int|
            {
                &&& i <= k < j
                &&& #[trigger] h[k] matches Step::Alloc { reply, .. } && reply == Ok::<u32, i32>(
                    child,
                )
                &&& permits(w[j].tree[child].mode, permissions, w[k + 1].tree[child].mode)
            },
{
    world::law_sound_in_each_respect(h, w, i);
    laws::law_create(h, world::trees(w), i, j, parent, name, ty, permissions, child);
    protocol::lemma_create_bounds(h, i, parent, name, ty, permissions);
    assert(world::trees(w)[i + 1] == w[i + 1].tree && world::trees(w)[j] == w[j].tree);
    lemma_permits(w[i + 1].tree[child].mode, permissions, w[j].tree[child].mode);
    assert(h[i] matches Step::Alloc { reply, .. } && reply == Ok::<u32, i32>(child));
}

/// `create`, however it ends, leaves the contents of all inodes but the parent as they were.
pub proof fn law_create_spares_contents(
    h: Seq<Step>,
    w: Seq<World>,
    i: int,
    parent: u32,
    name: Seq<char>,
    ty: InodeType,
    permissions: u32,
    x: u32,
)
    requires
        world::sound(h, w, i),
        0 <= i <= h.len(),
        w[i].tree.contains_key(x),
        x != parent,
    ensures
        protocol::create_run(h, i, parent, name, ty, permissions) matches Some((_, j))
            ==> same_contents(w[i], w[j], x),
{
    if protocol::create_run(h, i, parent, name, ty, permissions) is Some
        && w[i].files.contains_key(x) {
        let j = protocol::create_run(h, i, parent, name, ty, permissions).unwrap().1;
        assert(world::sound_at(h, w, i));
        assert(contents::spared(h, i, j, x));
        world::law_sound_in_each_respect(h, w, i);
        contents::lemma_spared(h, world::files(w), i, j, x);
    }
}

/// What `create` makes is empty, unless it is a directory.
pub proof fn law_create_makes_empty(
    h: Seq<Step>,
    w: Seq<World>,
    i: int,
    j: int,
    parent: u32,
    name: Seq<char>,
    ty: InodeType,
    permissions: u32,
    child: u32,
)
    requires
        world::sound(h, w, i),
        0 <= i <= h.len(),
        w[i].tree.contains_key(parent),
        ty != InodeType::Directory,
        protocol::create_run(h, i, parent, name, ty, permissions) == Some(
            (Ok::<u32, Failure>(child), j),
        ),
    ensures
        w[j].files.contains_key(child),
        w[j].files[child].len() == 0,
{
    assert(world::sound_at(h, w, i));
    protocol::lemma_create_bounds(h, i, parent, name, ty, permissions);
    assert(contents::spared(h, i + 1, j, child));
    world::law_sound_in_each_respect(h, w, i);
    contents::lemma_spared(h, world::files(w), i + 1, j, child);
}

/// `create` sets up the blocks of the new inode, once, and of no other, frees none, and takes one
/// free inode.
pub proof fn law_create_records(
    h: Seq<Step>,
    w: Seq<World>,
    i: int,
    j: int,
    parent: u32,
    name: Seq<char>,
    ty: InodeType,
    permissions: u32,
    child: u32,
)
    requires
        world::sound(h, w, i),
        0 <= i <= h.len(),
        protocol::create_run(h, i, parent, name, ty, permissions) == Some(
            (Ok::<u32, Failure>(child), j),
        ),
    ensures
        w[j].ledger.freed == w[i].ledger.freed,
        w[j].ledger.live == w[i].ledger.live.insert(child, w[j].ledger.live[child]),
        w[j].ledger.live[child].setups == 1,
        counted(w[i], w[j], -1),
        library::same_but_held(w[i].library, w[j].library),
{
    lemma_place_spares(h, w, i, parent, name, ty);
    let i1 = protocol::place_run(h, i, parent, name, ty).unwrap().1;
    let i2 = if ty == InodeType::Directory {
        lemma_dots_spare(h, w, i1, parent, child);
        protocol::dots_run(h, i1, parent, child).unwrap().1
    } else {
        i1
    };
    lemma_permit_quiet(h, w, i2, child, permissions);
}

proof fn lemma_permit_quiet(h: Seq<Step>, w: Seq<World>, i: int, child: u32, permissions: u32)
    requires
        world::sound(h, w, i),
        0 <= i <= h.len(),
    ensures
        protocol::permit_run(h, i, child, permissions) matches Some((_, j)) ==> quiet(w[i], w[j]),
{
    if protocol::permit_run(h, i, child, permissions) is Some {
        assert(world::sound_at(h, w, i));
        assert(world::sound_at(h, w, i + 1));
    }
}

/// `create`, however it ends and also under a name that is taken, leaves all inodes but the
/// parent as they were, and in the parent all places but the one asked for. It frees none.
pub proof fn law_create_spares(
    h: Seq<Step>,
    w: Seq<World>,
    i: int,
    parent: u32,
    name: Seq<char>,
    ty: InodeType,
    permissions: u32,
)
    requires
        world::sound(h, w, i),
        0 <= i <= h.len(),
    ensures
        protocol::create_run(h, i, parent, name, ty, permissions) matches Some((result, j)) ==> {
            &&& forall|x: u32| #[trigger]
                w[i].tree.contains_key(x) ==> w[j].tree.contains_key(x) && (x != parent
                    ==> w[j].tree[x] == w[i].tree[x])
            &&& w[i].tree.contains_key(parent) ==> {
                &&& w[j].tree[parent].ty == w[i].tree[parent].ty
                &&& w[j].tree[parent].mode == w[i].tree[parent].mode
                &&& w[j].tree[parent].entries.remove(name) == w[i].tree[parent].entries.remove(name)
            }
            &&& w[j].ledger.freed == w[i].ledger.freed
            &&& result is Err ==> counted(w[i], w[j], 0) || counted(w[i], w[j], -1)
        },
{
    lemma_place_spares(h, w, i, parent, name, ty);
    match protocol::place_run(h, i, parent, name, ty) {
        Some((Ok(child), i1)) => {
            let i2 = if ty == InodeType::Directory {
                lemma_dots_spare(h, w, i1, parent, child);
                match protocol::dots_run(h, i1, parent, child) {
                    Some((_, i2)) => i2,
                    None => i1,
                }
            } else {
                i1
            };
            if i2 < h.len() {
                assert(world::sound_at(h, w, i2));
            }
            if i2 + 1 < h.len() {
                assert(world::sound_at(h, w, i2 + 1));
            }
        },
        _ => {},
    }
}

/// Whether the inodes in use are in use still, and all but two are as they were; of the two, one
/// is new, and of the other only one place may have changed, and the number of links.
spec fn spared_but(pre: World, post: World, parent: u32, name: Seq<char>, child: u32) -> bool {
    &&& forall|x: u32| #[trigger]
        pre.tree.contains_key(x) ==> post.tree.contains_key(x) && (x != parent && x != child
            ==> post.tree[x] == pre.tree[x])
    &&& pre.tree.contains_key(parent) && parent != child ==> {
        &&& post.tree[parent].ty == pre.tree[parent].ty
        &&& post.tree[parent].mode == pre.tree[parent].mode
        &&& post.tree[parent].entries.remove(name) == pre.tree[parent].entries.remove(name)
    }
    &&& post.ledger.freed == pre.ledger.freed
}

proof fn lemma_place_spares(
    h: Seq<Step>,
    w: Seq<World>,
    i: int,
    parent: u32,
    name: Seq<char>,
    ty: InodeType,
)
    requires
        world::sound(h, w, i),
        0 <= i <= h.len(),
    ensures
        protocol::place_run(h, i, parent, name, ty) matches Some((result, j)) ==> {
            &&& i < j <= h.len()
            &&& result matches Err(_) ==> {
                &&& forall|x: u32| #[trigger]
                    w[i].tree.contains_key(x) ==> w[j].tree.contains_key(x) && w[j].tree[x]
                        == w[i].tree[x]
                &&& w[j].ledger.freed == w[i].ledger.freed
                &&& counted(w[i], w[j], 0) || counted(w[i], w[j], -1)
            }
            &&& result matches Ok(child) ==> {
                &&& !w[i].tree.contains_key(child)
                &&& w[j].tree.contains_key(child)
                &&& spared_but(w[i], w[j], parent, name, child)
                &&& w[j].ledger.live == w[i].ledger.live.insert(child, w[j].ledger.live[child])
                &&& w[j].ledger.live[child].setups == 1
                &&& counted(w[i], w[j], -1)
                &&& library::same_but_held(w[i].library, w[j].library)
            }
        },
{
    if protocol::place_run(h, i, parent, name, ty) is Some {
        if i < h.len() {
            assert(world::sound_at(h, w, i));
        }
        if i + 1 < h.len() {
            assert(world::sound_at(h, w, i + 1));
        }
        if i + 2 < h.len() {
            assert(world::sound_at(h, w, i + 2));
        }
        if i + 3 < h.len() {
            assert(world::sound_at(h, w, i + 3));
        }
        match protocol::place_run(h, i, parent, name, ty) {
            Some((Ok(child), j)) => {
                let live = w[i].ledger.live;
                assert(w[j].ledger.live =~= live.insert(child, w[j].ledger.live[child]));
            },
            _ => {},
        }
    }
}

proof fn lemma_dots_spare(h: Seq<Step>, w: Seq<World>, i: int, parent: u32, child: u32)
    requires
        world::sound(h, w, i),
        0 <= i <= h.len(),
    ensures
        protocol::dots_run(h, i, parent, child) matches Some((_, j)) ==> {
            &&& i < j <= h.len()
            &&& forall|x: u32| #[trigger]
                w[i].tree.contains_key(x) ==> w[j].tree.contains_key(x) && (x != parent && x
                    != child ==> w[j].tree[x] == w[i].tree[x])
            &&& w[i].tree.contains_key(parent) && parent != child ==> {
                &&& w[j].tree[parent].ty == w[i].tree[parent].ty
                &&& w[j].tree[parent].mode == w[i].tree[parent].mode
                &&& w[j].tree[parent].entries == w[i].tree[parent].entries
            }
            &&& w[j].ledger == w[i].ledger
            &&& counted(w[i], w[j], 0)
            &&& library::same_but_held(w[i].library, w[j].library)
        },
{
    if protocol::dots_run(h, i, parent, child) is Some {
        if i < h.len() {
            assert(world::sound_at(h, w, i));
        }
        if i + 1 < h.len() {
            assert(world::sound_at(h, w, i + 1));
        }
        if i + 2 < h.len() {
            assert(world::sound_at(h, w, i + 2));
        }
        if i + 3 < h.len() {
            assert(world::sound_at(h, w, i + 3));
        }
    }
}

/// What `link` does when it succeeds on a free name: that name stands for the inode, which has
/// one link more. All else is as it was, contents, records and counts included.
pub proof fn law_link_names(
    h: Seq<Step>,
    w: Seq<World>,
    i: int,
    j: int,
    dir: u32,
    name: Seq<char>,
    child: u32,
)
    requires
        world::sound(h, w, i),
        0 <= i <= h.len(),
        tree::well_formed(w[i].tree),
        w[i].tree.contains_key(dir),
        w[i].tree[dir].ty == InodeType::Directory,
        !tree::has_entry(w[i].tree, (dir, name)),
        protocol::link_run(h, i, dir, name, child) == Some((Ok::<(), Failure>(()), j)),
    ensures
        w[i].tree.contains_key(child),
        w[i].tree[child].ty != InodeType::Directory,
        tree::has_entry(w[j].tree, (dir, name)),
        tree::target(w[j].tree, (dir, name)) == child,
        forall|q: Place| q != (dir, name) ==> #[trigger] same_place(w[i].tree, w[j].tree, q),
        forall|x: u32| #[trigger] w[j].tree.contains_key(x) <==> w[i].tree.contains_key(x),
        forall|x: u32| #[trigger]
            w[i].tree.contains_key(x) ==> {
                &&& w[j].tree[x].ty == w[i].tree[x].ty
                &&& w[j].tree[x].mode == w[i].tree[x].mode
                &&& w[j].tree[x].links == w[i].tree[x].links + if x == child {
                    1int
                } else {
                    0int
                }
            },
{
    world::law_sound_in_each_respect(h, w, i);
    laws::law_link(h, world::trees(w), i, j, dir, name, child);
    assert(world::sound_at(h, w, i));
    assert(world::sound_at(h, w, i + 1));
    assert(world::trees(w)[i] == w[i].tree && world::trees(w)[j] == w[j].tree);
}

/// `link`, however it ends and also on a name that is taken, leaves all contents but those of
/// the directory, all records and the counts as they were; of names and links, only the one
/// place and the number of links of the inode can have changed, and that only if it succeeds.
pub proof fn law_link_spares(
    h: Seq<Step>,
    w: Seq<World>,
    i: int,
    dir: u32,
    name: Seq<char>,
    child: u32,
)
    requires
        world::sound(h, w, i),
        0 <= i <= h.len(),
    ensures
        protocol::link_run(h, i, dir, name, child) matches Some((result, j)) ==> {
            &&& result is Err ==> w[j].tree == w[i].tree
            &&& forall|x: u32| #[trigger]
                w[i].tree.contains_key(x) ==> {
                    &&& w[j].tree.contains_key(x)
                    &&& w[j].tree[x].ty == w[i].tree[x].ty
                    &&& w[j].tree[x].mode == w[i].tree[x].mode
                    &&& x != child ==> w[j].tree[x].links == w[i].tree[x].links
                    &&& x != dir ==> w[j].tree[x].entries == w[i].tree[x].entries
                }
            &&& w[j].tree[dir].entries.remove(name) == w[i].tree[dir].entries.remove(name)
            &&& w[j].files.remove(dir) == w[i].files.remove(dir)
            &&& w[j].ledger == w[i].ledger
            &&& counted(w[i], w[j], 0)
            &&& library::same_but_held(w[i].library, w[j].library)
        },
{
    if protocol::link_run(h, i, dir, name, child) is Some {
        if i < h.len() {
            assert(world::sound_at(h, w, i));
        }
        if i + 1 < h.len() {
            assert(world::sound_at(h, w, i + 1));
        }
        if i + 2 < h.len() {
            assert(world::sound_at(h, w, i + 2));
        }
        if i + 3 < h.len() {
            assert(world::sound_at(h, w, i + 3));
        }
    }
}

/// What `unlink` does to names and links when it succeeds: the name is free, and the inode has
/// one link less; with its last one it is gone, and so is a directory, from which the parent had
/// a link. All other places and inodes are as they were.
pub proof fn law_unlink_names(
    h: Seq<Step>,
    w: Seq<World>,
    i: int,
    j: int,
    dir: u32,
    name: Seq<char>,
    child: u32,
)
    requires
        world::sound(h, w, i),
        0 <= i <= h.len(),
        tree::well_formed(w[i].tree),
        !tree::is_dot(name),
        child == tree::target(w[i].tree, (dir, name)),
        protocol::unlink_run(h, i, dir, name) == Some((Ok::<(), Failure>(()), j)),
    ensures
        tree::has_entry(w[i].tree, (dir, name)),
        !tree::has_entry(w[j].tree, (dir, name)),
        forall|q: Place|
            q != (dir, name) && w[j].tree.contains_key(q.0) ==> #[trigger] same_place(
                w[i].tree,
                w[j].tree,
                q,
            ),
        forall|x: u32| #[trigger]
            w[j].tree.contains_key(x) <==> w[i].tree.contains_key(x) && !(x == child && (
            w[i].tree[child].ty == InodeType::Directory || w[i].tree[child].links == 1)),
        forall|x: u32| #[trigger]
            w[j].tree.contains_key(x) ==> {
                &&& w[j].tree[x].ty == w[i].tree[x].ty
                &&& w[j].tree[x].mode == w[i].tree[x].mode
                &&& w[j].tree[x].links == w[i].tree[x].links - if x == child {
                    1int
                } else if x == dir && w[i].tree[child].ty == InodeType::Directory {
                    1int
                } else {
                    0int
                }
            },
{
    world::law_sound_in_each_respect(h, w, i);
    let t = w[i].tree;
    assert(world::trees(w)[i] == t);
    laws::law_unlink(h, world::trees(w), i, j, dir, name);
    lemmas::lemma_unlink(h, world::trees(w), i, dir, name);
    assert(world::trees(w)[j] == w[j].tree);
    if t[child].ty == InodeType::Directory {
        lemmas::lemma_childless_directory(t, (dir, name));
    }
}

/// The part of an `unlink` up to the removal of the entry, and what goes with it for a directory.
spec fn head_run(h: Seq<Step>, i: int, dir: u32, name: Seq<char>) -> protocol::Run<u32> {
    match protocol::target_run(h, i, dir, name) {
        None => None,
        Some((Err(f), i)) => Some((Err(f), i)),
        Some((Ok(child), i)) => match protocol::childless_run(h, i, child) {
            None => None,
            Some((Err(f), i)) => Some((Err(f), i)),
            Some((Ok(_), i)) => match protocol::shrink_run(h, i, child) {
                None => None,
                Some((Err(f), i)) => Some((Err(f), i)),
                Some((Ok(_), i)) => match protocol::detach_run(h, i, dir, name, child) {
                    None => None,
                    Some((Err(f), i)) => Some((Err(f), i)),
                    Some((Ok(_), i)) => Some((Ok(child), i)),
                },
            },
        },
    }
}

proof fn lemma_parts_quiet(
    h: Seq<Step>,
    w: Seq<World>,
    i: int,
    dir: u32,
    name: Seq<char>,
    child: u32,
)
    requires
        world::sound(h, w, i),
        0 <= i <= h.len(),
    ensures
        protocol::target_run(h, i, dir, name) matches Some((_, j)) ==> {
            &&& i < j <= h.len()
            &&& w[j] == w[i]
        },
        protocol::childless_run(h, i, child) matches Some((_, j)) ==> {
            &&& i < j <= h.len()
            &&& w[j] == w[i]
        },
        protocol::shrink_run(h, i, child) matches Some((_, j)) ==> {
            &&& i < j <= h.len()
            &&& quiet(w[i], w[j])
        },
        protocol::detach_run(h, i, dir, name, child) matches Some((_, j)) ==> {
            &&& i < j <= h.len()
            &&& quiet(w[i], w[j])
        },
{
    if protocol::target_run(h, i, dir, name) is Some {
        world::lemma_reads(h, w, i, protocol::target_run(h, i, dir, name).unwrap().1);
    }
    if protocol::childless_run(h, i, child) is Some {
        world::lemma_reads(h, w, i, protocol::childless_run(h, i, child).unwrap().1);
    }
    if i < h.len() {
        assert(world::sound_at(h, w, i));
    }
    if i + 1 < h.len() {
        assert(world::sound_at(h, w, i + 1));
    }
    if i + 2 < h.len() {
        assert(world::sound_at(h, w, i + 2));
    }
    if i + 3 < h.len() {
        assert(world::sound_at(h, w, i + 3));
    }
}

proof fn lemma_head_quiet(h: Seq<Step>, w: Seq<World>, i: int, dir: u32, name: Seq<char>)
    requires
        world::sound(h, w, i),
        0 <= i <= h.len(),
    ensures
        head_run(h, i, dir, name) matches Some((_, j)) ==> i < j <= h.len() && quiet(w[i], w[j]),
{
    lemma_parts_quiet(h, w, i, dir, name, 0);
    match protocol::target_run(h, i, dir, name) {
        Some((Ok(child), i1)) => {
            lemma_parts_quiet(h, w, i1, dir, name, child);
            match protocol::childless_run(h, i1, child) {
                Some((Ok(_), i2)) => {
                    lemma_parts_quiet(h, w, i2, dir, name, child);
                    match protocol::shrink_run(h, i2, child) {
                        Some((Ok(_), i3)) => {
                            lemma_parts_quiet(h, w, i3, dir, name, child);
                        },
                        _ => {},
                    }
                },
                _ => {},
            }
        },
        _ => {},
    }
}

/// Noting the deletion of an inode, marking that for write-back, and freeing the inode.
proof fn lemma_free(h: Seq<Step>, w: Seq<World>, i: int, child: u32)
    requires
        world::sound(h, w, i),
        0 <= i,
        i + 2 < h.len(),
        h[i] == (Step::Touch { ino: child, touch: Touch::SetDelTime(u32::MAX) }),
        h[i + 1] == (Step::Touch { ino: child, touch: Touch::MarkDirty }),
        h[i + 2] == (Step::Touch { ino: child, touch: Touch::Free }),
    ensures
        freed_one(w[i], w[i + 3], child),
        counted(w[i], w[i + 3], 1),
        library::same_but_held(w[i].library, w[i + 3].library),
        w[i + 2].files == w[i].files,
{
    assert(world::sound_at(h, w, i));
    assert(world::sound_at(h, w, i + 1));
    assert(world::sound_at(h, w, i + 2));
    assert(w[i + 3].ledger.freed.drop_last() =~= w[i].ledger.freed);
    assert(w[i + 3].ledger.live =~= w[i].ledger.live.remove(child));
}

proof fn lemma_reap_records(h: Seq<Step>, w: Seq<World>, i: int, child: u32)
    requires
        world::sound(h, w, i),
        0 <= i <= h.len(),
    ensures
        protocol::reap_run(h, i, child) matches Some((result, j)) ==> {
            &&& i < j <= h.len()
            &&& result is Ok && w[i].tree[child].links == 0 ==> {
                &&& freed_one(w[i], w[j], child)
                &&& counted(w[i], w[j], 1)
                &&& library::same_but_held(w[i].library, w[j].library)
                &&& exists|k: int|
                    {
                        &&& i <= k < j
                        &&& #[trigger] h[k] == (Step::Touch { ino: child, touch: Touch::Free })
                        &&& w[k].files[child].len() == 0
                    }
            }
            &&& result is Err || w[i].tree[child].links != 0 ==> quiet(w[i], w[j])
        },
{
    match protocol::reap_run(h, i, child) {
        Some((result, j)) => {
            assert(world::sound_at(h, w, i));
            if w[i].tree[child].links == 0 {
                assert(world::sound_at(h, w, i + 1));
                assert(quiet(w[i], w[i + 2]));
                if result is Ok {
                    lemma_free(h, w, i + 2, child);
                    assert(h[i + 4] == (Step::Touch { ino: child, touch: Touch::Free }));
                }
            }
        },
        None => {},
    }
}

/// `unlink` frees the inode just when it is gone, with its deletion noted and written back, after
/// its contents were cut to nothing; then there is one free inode more. It frees no other, sets
/// no blocks up, and does none of this when it fails.
pub proof fn law_unlink_records(
    h: Seq<Step>,
    w: Seq<World>,
    i: int,
    dir: u32,
    name: Seq<char>,
    child: u32,
)
    requires
        world::sound(h, w, i),
        0 <= i <= h.len(),
        child == tree::target(w[i].tree, (dir, name)),
    ensures
        protocol::unlink_run(h, i, dir, name) matches Some((result, j)) ==> {
            &&& result is Ok && !w[j].tree.contains_key(child) ==> {
                &&& freed_one(w[i], w[j], child)
                &&& counted(w[i], w[j], 1)
                &&& exists|k: int|
                    {
                        &&& i <= k < j
                        &&& #[trigger] h[k] == (Step::Touch { ino: child, touch: Touch::Free })
                        &&& w[k].files[child].len() == 0
                    }
            }
            &&& result is Err || w[j].tree.contains_key(child) ==> w[j].ledger == w[i].ledger
                && counted(w[i], w[j], 0)
            &&& library::same_but_held(w[i].library, w[j].library)
        },
{
    lemma_head_quiet(h, w, i, dir, name);
    let trees = world::trees(w);
    world::law_sound_in_each_respect(h, w, i);
    match head_run(h, i, dir, name) {
        Some((Ok(c), i4)) => {
            lemma_head_tree(h, w, i, dir, name);
            lemma_reap_records(h, w, i4, c);
            lemmas::lemma_reap(h, trees, i4, c);
            match protocol::reap_run(h, i4, c) {
                Some((Ok(_), j)) => {
                    assert(trees[i4] == w[i4].tree && trees[j] == w[j].tree);
                    if w[i4].tree[c].links == 0 {
                        let k = choose|k: int|
                            {
                                &&& i4 <= k < j
                                &&& #[trigger] h[k] == (Step::Touch { ino: c, touch: Touch::Free })
                                &&& w[k].files[c].len() == 0
                            };
                        assert(i <= k < j);
                    }
                },
                _ => {},
            }
        },
        _ => {},
    }
}

/// What the first part of an `unlink` leaves: the inode found has a place in the tree still.
proof fn lemma_head_tree(h: Seq<Step>, w: Seq<World>, i: int, dir: u32, name: Seq<char>)
    requires
        world::sound(h, w, i),
        0 <= i <= h.len(),
    ensures
        head_run(h, i, dir, name) matches Some((Ok(child), j)) ==> {
            &&& tree::has_entry(w[i].tree, (dir, name))
            &&& child == tree::target(w[i].tree, (dir, name))
            &&& !tree::has_children(w[i].tree, child)
            &&& w[j].tree == lemmas::detached(w[i].tree, (dir, name), child)
            &&& w[j].tree.contains_key(child)
        },
{
    let trees = world::trees(w);
    world::law_sound_in_each_respect(h, w, i);
    match head_run(h, i, dir, name) {
        Some((Ok(child), j)) => {
            lemmas::lemma_target(h, trees, i, dir, name);
            let i1 = protocol::target_run(h, i, dir, name).unwrap().1;
            lemmas::lemma_childless(h, trees, i1, child);
            let i2 = protocol::childless_run(h, i1, child).unwrap().1;
            lemmas::lemma_shrink(h, trees, i2, child);
            let i3 = protocol::shrink_run(h, i2, child).unwrap().1;
            lemmas::lemma_detach(h, trees, i3, dir, name, child);
            assert(trees[i] == w[i].tree && trees[j] == w[j].tree);
        },
        _ => {},
    }
}

proof fn lemma_head_spares(h: Seq<Step>, w: Seq<World>, i: int, dir: u32, name: Seq<char>, x: u32)
    requires
        world::sound(h, w, i),
        0 <= i <= h.len(),
        tree::well_formed(w[i].tree),
        w[i].tree.contains_key(x),
        w[i].tree[x].ty != InodeType::Directory,
    ensures
        head_run(h, i, dir, name) matches Some((_, j)) ==> contents::spared(h, i, j, x),
{
    lemma_parts_quiet(h, w, i, dir, name, 0);
    world::law_sound_in_each_respect(h, w, i);
    lemmas::lemma_target(h, world::trees(w), i, dir, name);
    assert(world::trees(w)[i] == w[i].tree);
    match protocol::target_run(h, i, dir, name) {
        Some((Ok(child), i1)) => {
            assert(contents::spared(h, i, i1, x));
            lemma_parts_quiet(h, w, i1, dir, name, child);
            assert(tree::has_entry(w[i].tree, (dir, name)));
            assert(x != dir);
            match protocol::childless_run(h, i1, child) {
                Some((Ok(_), i2)) => {
                    assert(contents::spared(h, i1, i2, x));
                    lemma_parts_quiet(h, w, i2, dir, name, child);
                    if i2 < h.len() {
                        assert(world::sound_at(h, w, i2));
                    }
                    match protocol::shrink_run(h, i2, child) {
                        Some((Ok(_), i3)) => {
                            assert(contents::spared(h, i2, i3, x));
                            lemma_parts_quiet(h, w, i3, dir, name, child);
                        },
                        _ => {},
                    }
                },
                _ => {},
            }
        },
        _ => {},
    }
}

/// `unlink` leaves the contents of every inode that is not a directory as they were, as long as
/// the inode is still there afterwards: above all those of one that has other names. When it
/// fails, that goes for all inodes but one without links.
pub proof fn law_unlink_spares_contents(
    h: Seq<Step>,
    w: Seq<World>,
    i: int,
    dir: u32,
    name: Seq<char>,
    x: u32,
)
    requires
        world::sound(h, w, i),
        0 <= i <= h.len(),
        tree::well_formed(w[i].tree),
        w[i].tree.contains_key(x),
        w[i].tree[x].ty != InodeType::Directory,
    ensures
        protocol::unlink_run(h, i, dir, name) matches Some((result, j)) ==> {
            &&& result is Ok && w[j].tree.contains_key(x) ==> same_contents(w[i], w[j], x)
            &&& result is Err && w[j].tree[x].links > 0 ==> same_contents(w[i], w[j], x)
            &&& !(tree::has_entry(w[i].tree, (dir, name)) && x == tree::target(
                w[i].tree,
                (dir, name),
            )) ==> same_contents(w[i], w[j], x)
        },
{
    lemma_head_quiet(h, w, i, dir, name);
    lemma_head_spares(h, w, i, dir, name, x);
    lemma_head_tree(h, w, i, dir, name);
    world::law_sound_in_each_respect(h, w, i);
    match protocol::unlink_run(h, i, dir, name) {
        Some((result, j)) => {
            match head_run(h, i, dir, name) {
                Some((Ok(child), i4)) => {
                    lemmas::lemma_reap(h, world::trees(w), i4, child);
                    assert(world::trees(w)[i4] == w[i4].tree && world::trees(w)[j] == w[j].tree);
                    assert(world::sound_at(h, w, i4));
                    if x != child || w[i4].tree[child].links != 0 {
                        assert(contents::spared(h, i4, j, x));
                        assert(contents::spared(h, i, j, x));
                    }
                },
                _ => {},
            }
            if w[i].files.contains_key(x) && contents::spared(h, i, j, x) {
                contents::lemma_spared(h, world::files(w), i, j, x);
            }
        },
        None => {},
    }
}

/// When `unlink` removes the entry, a directory has been cut back to its first block, and any
/// other inode still holds what it held.
pub proof fn law_unlink_cuts_directories_first(
    h: Seq<Step>,
    w: Seq<World>,
    i: int,
    j: int,
    dir: u32,
    name: Seq<char>,
    child: u32,
)
    requires
        world::sound(h, w, i),
        0 <= i <= h.len(),
        0 <= w[i].sb.block_size <= u32::MAX,
        child == tree::target(w[i].tree, (dir, name)),
        w[i].files.contains_key(child),
        protocol::unlink_run(h, i, dir, name) == Some((Ok::<(), Failure>(()), j)),
    ensures
        exists|k: int|
            {
                &&& i <= k < j
                &&& #[trigger] removes(h[k], dir, name, child)
                &&& w[k].files.contains_key(child)
                &&& w[k].files[child] == if w[i].tree[child].ty == InodeType::Directory
                    && w[i].sb.block_size < w[i].files[child].len() {
                    w[i].files[child].take(w[i].sb.block_size)
                } else {
                    w[i].files[child]
                }
            },
{
    let trees = world::trees(w);
    world::law_sound_in_each_respect(h, w, i);
    lemmas::lemma_target(h, trees, i, dir, name);
    assert(trees[i] == w[i].tree);
    lemma_parts_quiet(h, w, i, dir, name, child);
    let i1 = protocol::target_run(h, i, dir, name).unwrap().1;
    lemma_parts_quiet(h, w, i1, dir, name, child);
    let i2 = protocol::childless_run(h, i1, child).unwrap().1;
    lemma_parts_quiet(h, w, i2, dir, name, child);
    let i3 = protocol::shrink_run(h, i2, child).unwrap().1;
    lemma_parts_quiet(h, w, i3, dir, name, child);
    let i4 = protocol::detach_run(h, i3, dir, name, child).unwrap().1;
    lemma_reap_records(h, w, i4, child);
    if i2 < h.len() {
        assert(world::sound_at(h, w, i2));
    }
    if i2 + 1 < h.len() {
        assert(world::sound_at(h, w, i2 + 1));
    }
    if i2 + 2 < h.len() {
        assert(world::sound_at(h, w, i2 + 2));
    }
    assert(removes(h[i3], dir, name, child));
}

/// Whether a request takes that entry away.
pub open spec fn removes(step: Step, dir: u32, name: Seq<char>, child: u32) -> bool {
    step matches Step::Entry { op: EntryOp::Remove, dir: d, name: n, child: c, reply: Ok(_) } && d
        == dir && n == name && c == child
}

proof fn lemma_carry_quiet(
    h: Seq<Step>,
    w: Seq<World>,
    i: int,
    src_dir: u32,
    src_name: Seq<char>,
    dst_dir: u32,
    dst_name: Seq<char>,
)
    requires
        world::sound(h, w, i),
        0 <= i <= h.len(),
    ensures
        protocol::carry_run(h, i, src_dir, src_name, dst_dir, dst_name) matches Some((_, j)) ==> {
            &&& i < j <= h.len()
            &&& quiet(w[i], w[j])
        },
{
    match protocol::lookup_run(h, i, src_dir, src_name) {
        Some((result, i1)) => {
            world::lemma_reads(h, w, i, i1);
            if result is Ok && i1 < h.len() {
                let src = result.unwrap();
                assert(world::sound_at(h, w, i1));
                lemma_reparent_quiet(h, w, i1 + 1, src_dir, dst_dir, src);
                match protocol::reparent_run(h, i1 + 1, src_dir, dst_dir, src) {
                    Some((Ok(_), i2)) => {
                        if i2 < h.len() {
                            assert(world::sound_at(h, w, i2));
                        }
                        if i2 + 1 < h.len() {
                            assert(world::sound_at(h, w, i2 + 1));
                        }
                    },
                    _ => {},
                }
            }
        },
        None => {},
    }
}

proof fn lemma_reparent_quiet(
    h: Seq<Step>,
    w: Seq<World>,
    i: int,
    src_dir: u32,
    dst_dir: u32,
    src: u32,
)
    requires
        world::sound(h, w, i),
        0 <= i <= h.len(),
    ensures
        protocol::reparent_run(h, i, src_dir, dst_dir, src) matches Some((_, j)) ==> {
            &&& i < j <= h.len()
            &&& quiet(w[i], w[j])
            &&& forall|x: u32|
                w[i].tree[src].ty != InodeType::Directory || x != src ==> #[trigger]
                contents::spared(h, i, j, x)
            &&& w[i].tree[src].ty != InodeType::Directory ==> w[j] == w[i]
        },
{
    if protocol::reparent_run(h, i, src_dir, dst_dir, src) is Some {
        if i < h.len() {
            assert(world::sound_at(h, w, i));
        }
        if i + 1 < h.len() {
            assert(world::sound_at(h, w, i + 1));
        }
        if i + 2 < h.len() {
            assert(world::sound_at(h, w, i + 2));
        }
        if i + 3 < h.len() {
            assert(world::sound_at(h, w, i + 3));
        }
        if i + 4 < h.len() {
            assert(world::sound_at(h, w, i + 4));
        }
        if i + 5 < h.len() {
            assert(world::sound_at(h, w, i + 5));
        }
    }
}

proof fn lemma_carry_spares(
    h: Seq<Step>,
    w: Seq<World>,
    i: int,
    src_dir: u32,
    src_name: Seq<char>,
    dst_dir: u32,
    dst_name: Seq<char>,
    x: u32,
)
    requires
        world::sound(h, w, i),
        0 <= i <= h.len(),
        tree::well_formed(w[i].tree),
        w[i].tree.contains_key(x),
        w[i].tree[x].ty != InodeType::Directory,
        x != dst_dir,
    ensures
        protocol::carry_run(h, i, src_dir, src_name, dst_dir, dst_name) matches Some((_, j)) ==> {
            &&& i < j <= h.len()
            &&& contents::spared(h, i, j, x)
        },
{
    lemma_carry_quiet(h, w, i, src_dir, src_name, dst_dir, dst_name);
    match protocol::lookup_run(h, i, src_dir, src_name) {
        Some((result, i1)) => {
            world::lemma_reads(h, w, i, i1);
            assert(contents::spared(h, i, i1, x));
            if result is Ok && i1 < h.len() {
                let src = result.unwrap();
                world::law_sound_in_each_respect(h, w, i);
                laws::law_lookup(h, world::trees(w), i, src_dir, src_name);
                assert(world::trees(w)[i] == w[i].tree);
                assert(tree::has_entry(w[i].tree, (src_dir, src_name)));
                assert(x != src_dir);
                assert(world::sound_at(h, w, i1));
                lemma_reparent_quiet(h, w, i1 + 1, src_dir, dst_dir, src);
                if protocol::open_run(h, i1, src) is Some {
                    assert(w[i1 + 1].tree == w[i].tree);
                    match protocol::reparent_run(h, i1 + 1, src_dir, dst_dir, src) {
                        Some((_, i2)) => {
                            assert(contents::spared(h, i1 + 1, i2, x));
                        },
                        None => {},
                    }
                }
            }
        },
        None => {},
    }
}

/// What `rename` does to names and links when it succeeds. The entry stands under the new name,
/// for the same inode, and no longer under the old one. What had the new name has one link less,
/// and is gone with its last one; so is a directory. The `..` of a directory that moves names the
/// new parent, and that link counts there instead of in the old parent. All other places and
/// inodes are as they were.
pub proof fn law_rename_names(
    h: Seq<Step>,
    w: Seq<World>,
    i: int,
    j: int,
    src_dir: u32,
    src_name: Seq<char>,
    dst_dir: u32,
    dst_name: Seq<char>,
    src: u32,
    old_target: u32,
)
    requires
        world::sound(h, w, i),
        0 <= i <= h.len(),
        tree::well_formed(w[i].tree),
        w[i].tree.contains_key(dst_dir),
        w[i].tree[dst_dir].ty == InodeType::Directory,
        !tree::is_dot(src_name),
        !tree::is_dot(dst_name),
        src == tree::target(w[i].tree, (src_dir, src_name)),
        old_target == tree::target(w[i].tree, (dst_dir, dst_name)),
        protocol::rename_run(h, i, src_dir, src_name, dst_dir, dst_name) == Some(
            (Ok::<(), Failure>(()), j),
        ),
    ensures
        tree::has_entry(w[i].tree, (src_dir, src_name)),
        !tree::has_entry(w[j].tree, (src_dir, src_name)),
        tree::has_entry(w[j].tree, (dst_dir, dst_name)),
        tree::target(w[j].tree, (dst_dir, dst_name)) == src,
        w[j].tree.contains_key(src),
        w[i].tree[src].ty == InodeType::Directory ==> tree::has_entry(w[j].tree, (src, ".."@))
            && tree::target(w[j].tree, (src, ".."@)) == dst_dir,
        forall|q: Place|
            q != (src_dir, src_name) && q != (dst_dir, dst_name) && q != (src, ".."@)
                && w[j].tree.contains_key(q.0) ==> #[trigger] same_place(w[i].tree, w[j].tree, q),
        w[i].tree[src].ty != InodeType::Directory ==> same_place(
            w[i].tree,
            w[j].tree,
            (src, ".."@),
        ),
        forall|x: u32| #[trigger]
            w[j].tree.contains_key(x) <==> w[i].tree.contains_key(x) && !(tree::has_entry(
                w[i].tree,
                (dst_dir, dst_name),
            ) && x == old_target && (w[i].tree[x].ty == InodeType::Directory || w[i].tree[x].links
                == 1)),
        forall|x: u32| #[trigger]
            w[j].tree.contains_key(x) ==> {
                &&& w[j].tree[x].ty == w[i].tree[x].ty
                &&& w[j].tree[x].mode == w[i].tree[x].mode
                &&& w[j].tree[x].links == w[i].tree[x].links + links_gained(
                    w[i].tree,
                    (src_dir, src_name),
                    (dst_dir, dst_name),
                    x,
                )
            },
{
    world::law_sound_in_each_respect(h, w, i);
    let t = w[i].tree;
    let p = (src_dir, src_name);
    let q = (dst_dir, dst_name);
    lemmas::lemma_dots_differ();
    assert(world::trees(w)[i] == t);
    laws::law_rename(h, world::trees(w), i, j, src_dir, src_name, dst_dir, dst_name);
    protocol::lemma_rename_bounds(h, i, src_dir, src_name, dst_dir, dst_name);
    assert(world::trees(w)[j] == w[j].tree);
    if tree::has_entry(t, q) {
        lemma_renamed_frees(h, w, i, src_dir, src_name, dst_dir, dst_name);
    }
    lemma_renamed(t, p, q);
}

/// By how much a `rename` changes the number of links of an inode: for the `..` of a directory
/// that moves, and for what had the new name.
pub open spec fn links_gained(t: Tree, p: Place, q: Place, x: u32) -> int {
    let moves = t[tree::target(t, p)].ty == InodeType::Directory;
    let unlinks = tree::has_entry(t, q);
    let drops = unlinks && t[tree::target(t, q)].ty == InodeType::Directory;
    (if moves && x == q.0 {
        1int
    } else {
        0int
    }) - (if moves && x == p.0 {
        1int
    } else {
        0int
    }) - (if drops && x == q.0 {
        1int
    } else {
        0int
    }) - (if unlinks && !drops && x == tree::target(t, q) {
        1int
    } else {
        0int
    })
}

/// What had the new name, if anything, had no children when a `rename` succeeded.
proof fn lemma_renamed_frees(
    h: Seq<Step>,
    w: Seq<World>,
    i: int,
    src_dir: u32,
    src_name: Seq<char>,
    dst_dir: u32,
    dst_name: Seq<char>,
)
    requires
        world::sound(h, w, i),
        0 <= i <= h.len(),
        tree::well_formed(w[i].tree),
        !tree::is_dot(dst_name),
        protocol::rename_run(h, i, src_dir, src_name, dst_dir, dst_name) matches Some((Ok(_), _)),
        tree::has_entry(w[i].tree, (dst_dir, dst_name)),
    ensures
        !tree::has_children(w[i].tree, tree::target(w[i].tree, (dst_dir, dst_name))),
{
    assert(world::sound_at(h, w, i));
    assert(world::sound_at(h, w, i + 1));
    world::law_sound_in_each_respect(h, w, i);
    assert(world::trees(w)[i + 2] == w[i].tree);
    lemmas::lemma_unlink(h, world::trees(w), i + 2, dst_dir, dst_name);
}

proof fn lemma_renamed(t: Tree, p: Place, q: Place)
    requires
        tree::well_formed(t),
        tree::has_entry(t, p),
        p != q,
        t.contains_key(q.0),
        t[q.0].ty == InodeType::Directory,
        !tree::is_dot(p.1),
        !tree::is_dot(q.1),
        tree::has_entry(t, q) ==> !tree::has_children(t, tree::target(t, q)),
    ensures
        ({
            let u = tree::renamed(t, p, q);
            let src = tree::target(t, p);
            &&& !tree::has_entry(u, p)
            &&& tree::has_entry(u, q)
            &&& tree::target(u, q) == src
            &&& u.contains_key(src)
            &&& t[src].ty == InodeType::Directory ==> tree::has_entry(u, (src, ".."@))
                && tree::target(u, (src, ".."@)) == q.0
            &&& t[src].ty != InodeType::Directory ==> same_place(t, u, (src, ".."@))
            &&& forall|r: Place|
                r != p && r != q && r != (src, ".."@) && u.contains_key(r.0) ==> #[trigger]
                same_place(t, u, r)
            &&& forall|x: u32| #[trigger]
                u.contains_key(x) <==> t.contains_key(x) && !(tree::has_entry(t, q) && x
                    == tree::target(t, q) && (t[x].ty == InodeType::Directory || t[x].links == 1))
            &&& forall|x: u32| #[trigger]
                u.contains_key(x) ==> {
                    &&& u[x].ty == t[x].ty
                    &&& u[x].mode == t[x].mode
                    &&& u[x].links == t[x].links + links_gained(t, p, q, x)
                }
        }),
{
    lemmas::lemma_dots_differ();
    let src = tree::target(t, p);
    let old_target = tree::target(t, q);
    assert(tree::has_entry(t, p));
    if t[src].ty == InodeType::Directory {
        assert(tree::has_entry(t, (src, ".."@)));
    }
    if tree::has_entry(t, q) {
        if t[old_target].ty == InodeType::Directory {
            lemmas::lemma_childless_directory(t, q);
            assert(p.0 != old_target) by {
                if p.0 == old_target {
                    assert(t[old_target].entries.contains_key(p.1));
                }
            }
        } else if old_target == src {
            assert(tree::names(t, src).contains(p));
            assert(tree::names(t, src).contains(q));
            lemma_two_names(tree::names(t, src), p, q);
        }
    }
}

proof fn lemma_two_names(names: Set<Place>, p: Place, q: Place)
    requires
        names.finite(),
        names.contains(p),
        names.contains(q),
        p != q,
    ensures
        names.len() >= 2,
{
    assert(names.remove(p).contains(q));
    assert(names.remove(p).remove(q).len() >= 0);
}

/// `rename` leaves the contents of every inode that is not a directory as they were, above all
/// those of the one that moves, as long as the inode is still there afterwards. When it fails,
/// that goes for all but what had the new name.
pub proof fn law_rename_spares_contents(
    h: Seq<Step>,
    w: Seq<World>,
    i: int,
    src_dir: u32,
    src_name: Seq<char>,
    dst_dir: u32,
    dst_name: Seq<char>,
    x: u32,
)
    requires
        world::sound(h, w, i),
        0 <= i <= h.len(),
        tree::well_formed(w[i].tree),
        w[i].tree.contains_key(dst_dir) ==> w[i].tree[dst_dir].ty == InodeType::Directory,
        !tree::is_dot(src_name),
        !tree::is_dot(dst_name),
        w[i].tree.contains_key(x),
        w[i].tree[x].ty != InodeType::Directory,
    ensures
        protocol::rename_run(h, i, src_dir, src_name, dst_dir, dst_name) matches Some((result, j))
            ==> {
            &&& result is Ok && w[j].tree.contains_key(x) ==> same_contents(w[i], w[j], x)
            &&& !(tree::has_entry(w[i].tree, (dst_dir, dst_name)) && x == tree::target(
                w[i].tree,
                (dst_dir, dst_name),
            )) ==> same_contents(w[i], w[j], x)
        },
{
    match protocol::rename_run(h, i, src_dir, src_name, dst_dir, dst_name) {
        Some((result, j)) => {
            assert(world::sound_at(h, w, i));
            if i + 1 < h.len() {
                assert(world::sound_at(h, w, i + 1));
            }
            if protocol::open_run(h, i, src_dir) matches Some((Ok(_), _)) && protocol::open_run(
                h,
                i + 1,
                dst_dir,
            ) matches Some((Ok(_), _)) {
                world::lemma_reads(h, w, i, i + 2);
                lemma_rename_rest(h, w, i + 2, src_dir, src_name, dst_dir, dst_name, x);
            }
        },
        None => {},
    }
}

proof fn lemma_rename_rest(
    h: Seq<Step>,
    w: Seq<World>,
    i: int,
    src_dir: u32,
    src_name: Seq<char>,
    dst_dir: u32,
    dst_name: Seq<char>,
    x: u32,
)
    requires
        world::sound(h, w, i),
        0 <= i <= h.len(),
        tree::well_formed(w[i].tree),
        w[i].tree.contains_key(dst_dir),
        w[i].tree[dst_dir].ty == InodeType::Directory,
        !tree::is_dot(src_name),
        !tree::is_dot(dst_name),
        w[i].tree.contains_key(x),
        w[i].tree[x].ty != InodeType::Directory,
    ensures
        protocol::clear_run(h, i, dst_dir, dst_name) matches Some((result, k)) ==> {
            let taken = tree::has_entry(w[i].tree, (dst_dir, dst_name)) && x == tree::target(
                w[i].tree,
                (dst_dir, dst_name),
            );
            &&& result is Err && !taken ==> same_contents(w[i], w[k], x)
            &&& result is Ok ==> (protocol::carry_run(
                h,
                k,
                src_dir,
                src_name,
                dst_dir,
                dst_name,
            ) matches Some((moved, j)) ==> {
                &&& !taken ==> same_contents(w[i], w[j], x)
                &&& moved is Ok && w[j].tree.contains_key(x) ==> same_contents(w[i], w[j], x)
            })
        },
{
    world::law_sound_in_each_respect(h, w, i);
    let trees = world::trees(w);
    assert(trees[i] == w[i].tree);
    lemmas::lemma_unlink(h, trees, i, dst_dir, dst_name);
    law_unlink_spares_contents(h, w, i, dst_dir, dst_name, x);
    match protocol::clear_run(h, i, dst_dir, dst_name) {
        Some((Ok(_), k)) => {
            assert(trees[k] == w[k].tree);
            if tree::has_entry(w[i].tree, (dst_dir, dst_name)) {
                lemmas::lemma_unlinked_frees(w[i].tree, (dst_dir, dst_name));
            }
            if w[k].tree.contains_key(x) {
                lemma_carry_spares(h, w, k, src_dir, src_name, dst_dir, dst_name, x);
                match protocol::carry_run(h, k, src_dir, src_name, dst_dir, dst_name) {
                    Some((_, j)) => {
                        world::law_sound_in_each_respect(h, w, k);
                        if w[k].files.contains_key(x) {
                            contents::lemma_spared(h, world::files(w), k, j, x);
                        }
                    },
                    None => {},
                }
            } else {
                lemmas::lemma_carry(h, trees, k, src_dir, src_name, dst_dir, dst_name);
            }
        },
        _ => {},
    }
}

/// `rename` frees no inode but what had the new name, and that just when it is gone with its last
/// link, as `unlink` does; it sets no blocks up.
pub proof fn law_rename_records(
    h: Seq<Step>,
    w: Seq<World>,
    i: int,
    src_dir: u32,
    src_name: Seq<char>,
    dst_dir: u32,
    dst_name: Seq<char>,
    old_target: u32,
)
    requires
        world::sound(h, w, i),
        0 <= i <= h.len(),
        tree::well_formed(w[i].tree),
        !tree::is_dot(dst_name),
        old_target == tree::target(w[i].tree, (dst_dir, dst_name)),
    ensures
        protocol::rename_run(h, i, src_dir, src_name, dst_dir, dst_name) matches Some((result, j))
            ==> {
            let goes = tree::has_entry(w[i].tree, (dst_dir, dst_name)) && (
            w[i].tree[old_target].ty == InodeType::Directory || w[i].tree[old_target].links == 1);
            &&& library::same_but_held(w[i].library, w[j].library)
            &&& {
                ||| {
                    &&& w[j].ledger == w[i].ledger
                    &&& counted(w[i], w[j], 0)
                    &&& result is Ok ==> !goes
                }
                ||| goes && freed_one(w[i], w[j], old_target) && counted(w[i], w[j], 1)
            }
        },
{
    match protocol::rename_run(h, i, src_dir, src_name, dst_dir, dst_name) {
        Some((result, j)) => {
            assert(world::sound_at(h, w, i));
            if i + 1 < h.len() {
                assert(world::sound_at(h, w, i + 1));
            }
            if protocol::open_run(h, i, src_dir) matches Some((Ok(_), _)) && protocol::open_run(
                h,
                i + 1,
                dst_dir,
            ) matches Some((Ok(_), _)) {
                world::lemma_reads(h, w, i, i + 2);
                lemma_clear_records(h, w, i + 2, dst_dir, dst_name, old_target);
                match protocol::clear_run(h, i + 2, dst_dir, dst_name) {
                    Some((Ok(_), k)) => {
                        lemma_carry_quiet(h, w, k, src_dir, src_name, dst_dir, dst_name);
                    },
                    _ => {},
                }
            }
        },
        None => {},
    }
}

proof fn lemma_clear_records(
    h: Seq<Step>,
    w: Seq<World>,
    i: int,
    dir: u32,
    name: Seq<char>,
    child: u32,
)
    requires
        world::sound(h, w, i),
        0 <= i <= h.len(),
        tree::well_formed(w[i].tree),
        !tree::is_dot(name),
        child == tree::target(w[i].tree, (dir, name)),
    ensures
        protocol::clear_run(h, i, dir, name) matches Some((result, j)) ==> {
            let goes = tree::has_entry(w[i].tree, (dir, name)) && (w[i].tree[child].ty
                == InodeType::Directory || w[i].tree[child].links == 1);
            &&& i <= j <= h.len()
            &&& library::same_but_held(w[i].library, w[j].library)
            &&& {
                ||| {
                    &&& w[j].ledger == w[i].ledger
                    &&& counted(w[i], w[j], 0)
                    &&& result is Ok ==> !goes
                }
                ||| goes && freed_one(w[i], w[j], child) && counted(w[i], w[j], 1)
            }
        },
{
    world::law_sound_in_each_respect(h, w, i);
    assert(world::trees(w)[i] == w[i].tree);
    lemmas::lemma_unlink(h, world::trees(w), i, dir, name);
    law_unlink_records(h, w, i, dir, name, child);
    match protocol::unlink_run(h, i, dir, name) {
        Some((Ok(_), j)) => {
            law_unlink_names(h, w, i, j, dir, name, child);
        },
        _ => {},
    }
}

/// `flush` changes nothing but what is held back.
pub proof fn law_flush_changes_nothing(h: Seq<Step>, w: Seq<World>, i: int)
    requires
        world::sound(h, w, i),
        0 <= i <= h.len(),
    ensures
        protocol::flush_run(h, i) matches Some((_, j)) ==> {
            &&& w[j].tree == w[i].tree
            &&& w[j].files == w[i].files
            &&& w[j].ledger == w[i].ledger
            &&& w[j].sb == w[i].sb
            &&& forall|x: u32| #[trigger] w[j].attrs[x] == w[i].attrs[x]
        },
{
    if protocol::flush_run(h, i) is Some {
        assert(world::sound_at(h, w, i));
        if i + 1 < h.len() {
            assert(world::sound_at(h, w, i + 1));
        }
    }
}

/// Unlinking what is in a place leaves what is in another, unless that is in what goes.
pub(crate) proof fn lemma_unlinked_keeps(t: Tree, p: Place, q: Place)
    requires
        tree::well_formed(t),
        tree::has_entry(t, p),
        tree::has_entry(t, q),
        p != q,
        !tree::is_dot(p.1),
        !tree::is_dot(q.1),
        !tree::has_children(t, tree::target(t, q)),
    ensures
        tree::has_entry(tree::unlinked(t, q), p),
        tree::target(tree::unlinked(t, q), p) == tree::target(t, p),
{
    let child = tree::target(t, q);
    if t[child].ty == InodeType::Directory {
        lemmas::lemma_childless_directory(t, q);
    }
    if p.0 == child {
        assert(t[child].entries.contains_key(p.1));
    }
}

/// Whether no request from position `i` up to `j` may change the attributes of an inode.
pub open spec fn left_alone(h: Seq<Step>, i: int, j: int, x: u32) -> bool {
    forall|k: int| i <= k < j ==> !world::may_change(#[trigger] h[k], x)
}

proof fn lemma_left_alone(h: Seq<Step>, w: Seq<World>, i: int, j: int, x: u32)
    requires
        world::sound(h, w, i),
        0 <= i <= j <= h.len(),
        left_alone(h, i, j, x),
    ensures
        w[j].attrs[x] == w[i].attrs[x],
    decreases j - i,
{
    if i < j {
        lemma_left_alone(h, w, i, j - 1, x);
        assert(world::sound_at(h, w, j - 1));
        assert(!world::may_change(h[j - 1], x));
    }
}

/// `create` and `link`, however they end, leave the attributes of all inodes but the directory and
/// the inode that gets a name.
pub proof fn law_naming_spares_attributes(
    h: Seq<Step>,
    w: Seq<World>,
    i: int,
    dir: u32,
    name: Seq<char>,
    ty: InodeType,
    permissions: u32,
    child: u32,
    x: u32,
)
    requires
        world::sound(h, w, i),
        0 <= i <= h.len(),
        x != dir,
    ensures
        protocol::create_run(h, i, dir, name, ty, permissions) matches Some((_, j))
            ==> w[i].tree.contains_key(x) ==> w[j].attrs[x] == w[i].attrs[x],
        x != child ==> (protocol::link_run(h, i, dir, name, child) matches Some((_, j))
            ==> w[j].attrs[x] == w[i].attrs[x]),
{
    match protocol::create_run(h, i, dir, name, ty, permissions) {
        Some((_, j)) => {
            if w[i].tree.contains_key(x) {
                assert(world::sound_at(h, w, i));
                assert(left_alone(h, i, j, x));
                lemma_left_alone(h, w, i, j, x);
            }
        },
        None => {},
    }
    match protocol::link_run(h, i, dir, name, child) {
        Some((_, j)) => {
            if x != child {
                assert(left_alone(h, i, j, x));
                lemma_left_alone(h, w, i, j, x);
            }
        },
        None => {},
    }
}

proof fn lemma_head_leaves(h: Seq<Step>, w: Seq<World>, i: int, dir: u32, name: Seq<char>, x: u32)
    requires
        world::sound(h, w, i),
        0 <= i <= h.len(),
        x != dir,
        x != tree::target(w[i].tree, (dir, name)),
    ensures
        head_run(h, i, dir, name) matches Some((_, j)) ==> {
            &&& left_alone(h, i, j, x)
            &&& w[i].tree.contains_key(x) ==> w[j].tree.contains_key(x) && w[j].tree[x]
                == w[i].tree[x]
        },
{
    lemma_parts_quiet(h, w, i, dir, name, 0);
    world::law_sound_in_each_respect(h, w, i);
    let trees = world::trees(w);
    lemmas::lemma_target(h, trees, i, dir, name);
    assert(trees[i] == w[i].tree);
    match protocol::target_run(h, i, dir, name) {
        Some((Ok(child), i1)) => {
            assert(left_alone(h, i, i1, x));
            lemma_parts_quiet(h, w, i1, dir, name, child);
            match protocol::childless_run(h, i1, child) {
                Some((Ok(_), i2)) => {
                    assert(left_alone(h, i1, i2, x));
                    lemma_parts_quiet(h, w, i2, dir, name, child);
                    lemmas::lemma_shrink(h, trees, i2, child);
                    match protocol::shrink_run(h, i2, child) {
                        Some((result, i3)) => {
                            assert(left_alone(h, i2, i3, x));
                            assert(trees[i3] == w[i3].tree && trees[i2] == w[i2].tree);
                            if result is Ok {
                                lemma_parts_quiet(h, w, i3, dir, name, child);
                                lemmas::lemma_detach(h, trees, i3, dir, name, child);
                                match protocol::detach_run(h, i3, dir, name, child) {
                                    Some((_, i4)) => {
                                        assert(left_alone(h, i3, i4, x));
                                        assert(trees[i4] == w[i4].tree);
                                    },
                                    None => {},
                                }
                            }
                        },
                        None => {},
                    }
                },
                _ => {},
            }
        },
        _ => {},
    }
}

/// `unlink`, whatever the name and however it ends, leaves all inodes but the directory and the
/// one that the name stands for: their names, links and modes, and their attributes.
pub proof fn law_unlink_spares(
    h: Seq<Step>,
    w: Seq<World>,
    i: int,
    dir: u32,
    name: Seq<char>,
    x: u32,
)
    requires
        world::sound(h, w, i),
        0 <= i <= h.len(),
        x != dir,
        x != tree::target(w[i].tree, (dir, name)),
    ensures
        protocol::unlink_run(h, i, dir, name) matches Some((_, j)) ==> {
            &&& w[j].attrs[x] == w[i].attrs[x]
            &&& w[i].tree.contains_key(x) ==> w[j].tree.contains_key(x) && w[j].tree[x]
                == w[i].tree[x]
        },
{
    lemma_head_leaves(h, w, i, dir, name, x);
    lemma_head_quiet(h, w, i, dir, name);
    lemma_head_tree(h, w, i, dir, name);
    match protocol::unlink_run(h, i, dir, name) {
        Some((_, j)) => {
            match head_run(h, i, dir, name) {
                Some((Ok(child), i4)) => {
                    world::law_sound_in_each_respect(h, w, i4);
                    lemmas::lemma_reap(h, world::trees(w), i4, child);
                    assert(world::trees(w)[i4] == w[i4].tree && world::trees(w)[j] == w[j].tree);
                    assert(left_alone(h, i4, j, x));
                    assert(left_alone(h, i, j, x));
                },
                _ => {},
            }
            lemma_left_alone(h, w, i, j, x);
        },
        None => {},
    }
}

proof fn lemma_carry_leaves(
    h: Seq<Step>,
    w: Seq<World>,
    i: int,
    src_dir: u32,
    src_name: Seq<char>,
    dst_dir: u32,
    dst_name: Seq<char>,
    x: u32,
)
    requires
        world::sound(h, w, i),
        0 <= i <= h.len(),
        x != src_dir,
        x != dst_dir,
        tree::has_entry(w[i].tree, (src_dir, src_name)) ==> x != tree::target(
            w[i].tree,
            (src_dir, src_name),
        ),
    ensures
        protocol::carry_run(h, i, src_dir, src_name, dst_dir, dst_name) matches Some((_, j))
            ==> left_alone(h, i, j, x),
{
    match protocol::lookup_run(h, i, src_dir, src_name) {
        Some((Ok(src), i1)) => {
            world::law_sound_in_each_respect(h, w, i);
            laws::law_lookup(h, world::trees(w), i, src_dir, src_name);
            assert(world::trees(w)[i] == w[i].tree);
            assert(left_alone(h, i, i1, x));
            match protocol::reparent_run(h, i1 + 1, src_dir, dst_dir, src) {
                Some((_, i2)) => {
                    assert(left_alone(h, i1 + 1, i2, x));
                },
                None => {},
            }
        },
        _ => {},
    }
}

/// `rename`, however it ends, leaves the attributes of all inodes but the two directories, the one
/// that moves, and what had the new name.
pub proof fn law_rename_spares_attributes(
    h: Seq<Step>,
    w: Seq<World>,
    i: int,
    src_dir: u32,
    src_name: Seq<char>,
    dst_dir: u32,
    dst_name: Seq<char>,
    x: u32,
)
    requires
        world::sound(h, w, i),
        0 <= i <= h.len(),
        tree::well_formed(w[i].tree),
        !tree::is_dot(dst_name),
        x != src_dir,
        x != dst_dir,
        x != tree::target(w[i].tree, (src_dir, src_name)),
        x != tree::target(w[i].tree, (dst_dir, dst_name)),
    ensures
        protocol::rename_run(h, i, src_dir, src_name, dst_dir, dst_name) matches Some((_, j))
            ==> w[j].attrs[x] == w[i].attrs[x],
{
    match protocol::rename_run(h, i, src_dir, src_name, dst_dir, dst_name) {
        Some((_, j)) => {
            assert(world::sound_at(h, w, i));
            if protocol::open_run(h, i, src_dir) matches Some((Ok(_), _)) {
                if i + 1 < h.len() {
                    assert(world::sound_at(h, w, i + 1));
                }
                if protocol::open_run(h, i + 1, dst_dir) matches Some((Ok(_), _)) {
                    world::lemma_reads(h, w, i, i + 2);
                    law_unlink_spares(h, w, i + 2, dst_dir, dst_name, x);
                    world::law_sound_in_each_respect(h, w, i + 2);
                    assert(world::trees(w)[i + 2] == w[i + 2].tree);
                    lemmas::lemma_unlink(h, world::trees(w), i + 2, dst_dir, dst_name);
                    match protocol::clear_run(h, i + 2, dst_dir, dst_name) {
                        Some((Ok(_), k)) => {
                            assert(world::trees(w)[k] == w[k].tree);
                            if tree::has_entry(w[k].tree, (src_dir, src_name)) {
                                lemma_still_there(
                                    w[i].tree,
                                    (src_dir, src_name),
                                    (dst_dir, dst_name),
                                );
                            }
                            lemma_carry_quiet(h, w, k, src_dir, src_name, dst_dir, dst_name);
                            lemma_carry_leaves(
                                h,
                                w,
                                k,
                                src_dir,
                                src_name,
                                dst_dir,
                                dst_name,
                                x,
                            );
                            if protocol::carry_run(
                                h,
                                k,
                                src_dir,
                                src_name,
                                dst_dir,
                                dst_name,
                            ) is Some {
                                lemma_left_alone(h, w, k, j, x);
                            }
                        },
                        _ => {},
                    }
                }
            }
        },
        None => {},
    }
}

/// A place that is taken after another one was unlinked was taken by the same inode before.
proof fn lemma_still_there(t: Tree, p: Place, q: Place)
    ensures
        tree::has_entry(tree::unlinked(t, q), p) && p != q && tree::has_entry(t, q)
            && tree::well_formed(t) ==> tree::target(tree::unlinked(t, q), p) == tree::target(t, p),
        tree::well_formed(t) && tree::has_entry(t, q) && !tree::is_dot(q.1)
            && !tree::has_children(t, tree::target(t, q)) ==> !tree::has_entry(
            tree::unlinked(t, q),
            q,
        ),
{
    if tree::well_formed(t) && tree::has_entry(t, q) && !tree::is_dot(q.1) && !tree::has_children(
        t,
        tree::target(t, q),
    ) {
        lemmas::lemma_unlinked_frees(t, q);
    }
}

} // verus!
