//! What the operations answer: each failure for its reason, and success where nothing stands in
//! the way.

use crate::backend::{ChangeView, EntryOp, Field};
use crate::effects;
use crate::error::{Ext4Error, Failure, EISDIR, ENOENT, ENOTEMPTY};
use crate::inode::{FileAttr, InodeType};
use crate::laws;
use crate::lemmas;
use crate::protocol;
use crate::request::Step;
use crate::tree;
use crate::tree::Tree;
use vstd::prelude::*;

verus! {

/// The failure with which the backend answered a request, if it did.
pub open spec fn told(step: Step) -> Option<Failure> {
    match step {
        Step::Open { reply: Err(code), .. } => Some(
            Failure::Error(Ext4Error { code, context: Some("ext4_fs_get_inode_ref") }),
        ),
        Step::Alloc { reply: Err(code), .. } => Some(
            Failure::Error(Ext4Error { code, context: Some("ext4_fs_get_inode_ref") }),
        ),
        Step::Change { reply: Err(e), .. } => Some(Failure::Error(e)),
        Step::Entry { reply: Err(e), .. } => Some(Failure::Error(e)),
        Step::HasChildren { reply: Err(e), .. } => Some(Failure::Error(e)),
        Step::Lookup { reply: Err(e), .. } => Some(Failure::Error(e)),
        Step::ReadDir { reply: Err(e), .. } => Some(Failure::Error(e)),
        Step::ReadAt { reply: Err(e), .. } => Some(Failure::Error(e)),
        Step::WriteAt { reply: Err(e), .. } => Some(Failure::Error(e)),
        Step::FlushDevice { reply: Err(e) } => Some(Failure::Error(e)),
        _ => None,
    }
}

/// Whether all requests from position `i` up to `j` went well.
pub open spec fn went_well(h: Seq<Step>, i: int, j: int) -> bool {
    forall|k: int| i <= k < j ==> told(#[trigger] h[k]) is None
}

/// Whether an inode was opened or allocated between two positions.
pub open spec fn opened(h: Seq<Step>, i: int, j: int, ino: u32) -> bool {
    exists|k: int| i <= k < j && opens(#[trigger] h[k], ino)
}

/// Whether a request opens or allocates an inode.
pub open spec fn opens(step: Step, ino: u32) -> bool {
    match step {
        Step::Open { ino: n, reply } => n == ino && reply is Ok,
        Step::Alloc { reply, .. } => reply == Ok::<u32, i32>(ino),
        _ => false,
    }
}

/// Whether an inode that was opened before in the same operation could not be opened again.
pub open spec fn could_not_reopen(h: Seq<Step>, i: int, j: int) -> bool {
    h[j - 1] matches Step::Open { ino, reply } && reply is Err && opened(h, i, j - 1, ino)
}

/// The failure for an inode that is open and cannot be opened a second time.
pub open spec fn broken_clone() -> Failure {
    Failure::Broken("inode ref clone failed")
}

/// When `create` succeeds, all its requests went well. It fails with what its last request was
/// answered, after all before went well; or it finds the new inode, which is open, not to open
/// again, or a new directory not to have two links.
pub proof fn law_create_answer(
    h: Seq<Step>,
    i: int,
    j: int,
    parent: u32,
    name: Seq<char>,
    ty: InodeType,
    permissions: u32,
    result: Result<u32, Failure>,
)
    requires
        0 <= i,
        protocol::create_run(h, i, parent, name, ty, permissions) == Some((result, j)),
    ensures
        i < j <= h.len(),
        went_well(h, i, j - 1),
        result is Ok ==> went_well(h, i, j),
        result matches Ok(child) ==> opened(h, i, j, child),
        result matches Err(f) ==> {
            ||| told(h[j - 1]) == Some(f)
            ||| f == broken_clone() && could_not_reopen(h, i, j)
            ||| {
                &&& f == Failure::Broken("a new directory must have two links")
                &&& ty == InodeType::Directory
                &&& h[j - 1] matches Step::Field { ino, field, value } && field == Field::Nlink
                    && value != 2 && opened(h, i, j, ino)
            }
        },
        could_not_reopen(h, i, j) && !(h[j - 1] matches Step::Open { ino, .. } && ino == parent)
            ==> result == Err::<u32, Failure>(broken_clone()),
        h[j - 1] is Open && h[j - 2] is Entry ==> result == Err::<u32, Failure>(broken_clone()),
        result matches Ok(child) ==> (ty == InodeType::Directory ==> exists|k: int|
            i <= k < j && #[trigger] h[k] == (Step::Field {
                ino: child,
                field: Field::Nlink,
                value: 2,
            })),
{
    match result {
        Ok(child) => {
            if ty == InodeType::Directory {
                assert(h[j - 3] == (Step::Field { ino: child, field: Field::Nlink, value: 2 }));
            }
        },
        _ => {},
    }
    match h[i] {
        Step::Alloc { reply: Ok(child), .. } => {
            assert(opens(h[i], child));
        },
        _ => {},
    }
}

/// When `link` succeeds, all its requests went well. It fails with what its last request was
/// answered, after all before went well, or with `EISDIR` if the inode is a directory.
pub proof fn law_link_answer(
    h: Seq<Step>,
    i: int,
    j: int,
    dir: u32,
    name: Seq<char>,
    child: u32,
    result: Result<(), Failure>,
)
    requires
        0 <= i,
        protocol::link_run(h, i, dir, name, child) == Some((result, j)),
    ensures
        i < j <= h.len(),
        went_well(h, i, j - 1),
        result is Ok ==> went_well(h, i, j),
        result matches Err(f) ==> {
            ||| told(h[j - 1]) == Some(f)
            ||| {
                &&& f == Failure::Error(
                    Ext4Error { code: EISDIR, context: Some("cannot link to directory") },
                )
                &&& h[j - 1] == (Step::InodeType { ino: child, ty: InodeType::Directory })
            }
        },
{
}

/// When `unlink` succeeds, all its requests went well. It fails with what its last request was
/// answered, after all before went well; with `ENOTEMPTY` if the inode has children; or it finds
/// an inode that is open not to open again.
pub proof fn law_unlink_answer(
    h: Seq<Step>,
    i: int,
    j: int,
    dir: u32,
    name: Seq<char>,
    result: Result<(), Failure>,
)
    requires
        0 <= i,
        protocol::unlink_run(h, i, dir, name) == Some((result, j)),
    ensures
        i < j <= h.len(),
        went_well(h, i, j - 1),
        result is Ok ==> went_well(h, i, j),
        result matches Err(f) ==> {
            ||| told(h[j - 1]) == Some(f)
            ||| f == broken_clone() && could_not_reopen(h, i, j)
            ||| {
                &&& f == Failure::Error(Ext4Error { code: ENOTEMPTY, context: None })
                &&& laws::found_children(h[j - 1])
            }
        },
        could_not_reopen(h, i, j) && !(h[j - 2] is Lookup) ==> result == Err::<(), Failure>(
            broken_clone(),
        ),
        forall|k: int| i <= k < j && laws::found_children(#[trigger] h[k]) ==> result is Err,
{
    assert(opens(h[i], dir) || told(h[i]) is Some);
    lemma_head_answer(h, i, dir, name);
    match protocol::target_run(h, i, dir, name) {
        Some((Ok(child), i1)) => {
            lemma_tail_answer(h, i1, dir, name, child);
            assert(opens(h[i1 - 1], child));
        },
        _ => {},
    }
}

proof fn lemma_head_answer(h: Seq<Step>, i: int, dir: u32, name: Seq<char>)
    requires
        0 <= i,
    ensures
        protocol::target_run(h, i, dir, name) matches Some((result, j)) ==> {
            &&& i < j <= h.len()
            &&& went_well(h, i, j - 1)
            &&& result matches Ok(child) ==> went_well(h, i, j) && opens(h[j - 1], child)
            &&& result matches Err(f) ==> told(h[j - 1]) == Some(f) || f == broken_clone()
                && could_not_reopen(h, i, j)
            &&& result is Err && could_not_reopen(h, i, j) && !(h[j - 2] is Lookup) ==> result
                == Err::<u32, Failure>(broken_clone())
            &&& forall|k: int| i <= k < j ==> !laws::found_children(#[trigger] h[k])
        },
{
    if protocol::target_run(h, i, dir, name) is Some {
        assert(opens(h[i], dir) || told(h[i]) is Some);
    }
}

proof fn lemma_tail_answer(h: Seq<Step>, i: int, dir: u32, name: Seq<char>, child: u32)
    requires
        0 <= i,
    ensures
        protocol::childless_run(h, i, child) matches Some((result, j)) ==> {
            &&& i < j <= h.len()
            &&& went_well(h, i, j - 1)
            &&& result is Ok ==> went_well(h, i, j)
            &&& result matches Err(f) ==> {
                ||| told(h[j - 1]) == Some(f)
                ||| f == broken_clone() && j == i + 1 && (h[i] matches Step::Open { ino, reply }
                    && ino == child && reply is Err)
                ||| {
                    &&& f == Failure::Error(Ext4Error { code: ENOTEMPTY, context: None })
                    &&& laws::found_children(h[j - 1])
                }
            }
            &&& h[j - 1] is Open ==> result == Err::<(), Failure>(broken_clone())
            &&& result is Ok ==> forall|k: int|
                i <= k < j ==> !laws::found_children(#[trigger] h[k])
        },
        protocol::shrink_run(h, i, child) matches Some((result, j)) ==> {
            &&& i < j <= h.len()
            &&& went_well(h, i, j - 1)
            &&& result is Ok ==> went_well(h, i, j)
            &&& result matches Err(f) ==> told(h[j - 1]) == Some(f)
            &&& !(h[j - 1] is Open)
            &&& forall|k: int| i <= k < j ==> !laws::found_children(#[trigger] h[k])
        },
        protocol::detach_run(h, i, dir, name, child) matches Some((result, j)) ==> {
            &&& i < j <= h.len()
            &&& went_well(h, i, j - 1)
            &&& result is Ok ==> went_well(h, i, j)
            &&& result matches Err(f) ==> told(h[j - 1]) == Some(f)
            &&& !(h[j - 1] is Open)
            &&& forall|k: int| i <= k < j ==> !laws::found_children(#[trigger] h[k])
        },
        protocol::reap_run(h, i, child) matches Some((result, j)) ==> {
            &&& i < j <= h.len()
            &&& went_well(h, i, j - 1)
            &&& result is Ok ==> went_well(h, i, j)
            &&& result matches Err(f) ==> told(h[j - 1]) == Some(f)
            &&& !(h[j - 1] is Open)
            &&& forall|k: int| i <= k < j ==> !laws::found_children(#[trigger] h[k])
        },
{
}

/// `lookup`, `get_attr`, `set_len`, `set_symlink`, `write_at` and `read_dir` succeed just when all
/// their requests went well, and fail with what their last request was answered.
pub proof fn law_simple_answers(
    h: Seq<Step>,
    i: int,
    ino: u32,
    name: Seq<char>,
    bytes: Seq<u8>,
    offset: u64,
)
    requires
        0 <= i,
    ensures
        protocol::lookup_run(h, i, ino, name) matches Some((r, j)) ==> answered(h, i, j, r),
        protocol::get_attr_run(h, i, ino) matches Some((r, j)) ==> answered(h, i, j, r),
        protocol::edit_run(h, i, ino, ChangeView::SetLen(offset)) matches Some((r, j))
            ==> answered(h, i, j, r),
        protocol::edit_run(h, i, ino, ChangeView::SetSymlink(bytes)) matches Some((r, j))
            ==> answered(h, i, j, r),
        protocol::write_at_run(h, i, ino, bytes, offset) matches Some((r, j)) ==> answered(
            h,
            i,
            j,
            r,
        ),
        protocol::read_dir_run(h, i, ino, offset) matches Some((r, j)) ==> answered(h, i, j, r),
{
}

/// Whether a result is a success after requests that all went well, or the failure of the last
/// one after all before went well.
pub open spec fn answered<T>(h: Seq<Step>, i: int, j: int, result: Result<T, Failure>) -> bool {
    &&& i < j <= h.len()
    &&& went_well(h, i, j - 1)
    &&& match result {
        Ok(_) => told(h[j - 1]) is None,
        Err(f) => told(h[j - 1]) == Some(f),
    }
}

/// `read_at` succeeds just when all its requests went well, and fails with what its last request
/// was answered. If the inode cannot be opened, the buffer is as it was.
pub proof fn law_read_at_answer(
    h: Seq<Step>,
    i: int,
    j: int,
    ino: u32,
    before: Seq<u8>,
    offset: u64,
    result: Result<usize, Failure>,
    after: Seq<u8>,
)
    requires
        0 <= i,
        protocol::read_at_run(h, i, ino, before, offset) == Some((result, after, j)),
    ensures
        answered(h, i, j, result),
        h[j - 1] is Open ==> after == before,
        h[j - 1] matches Step::ReadAt { data, .. } ==> after == data,
{
}

/// `read_dir` ends with a request to read just the directory asked for, from the offset asked
/// for, unless that cannot be opened.
pub proof fn law_read_dir_reads_that_directory(
    h: Seq<Step>,
    i: int,
    j: int,
    parent: u32,
    offset: u64,
    result: Result<(), Failure>,
)
    requires
        0 <= i,
        protocol::read_dir_run(h, i, parent, offset) == Some((result, j)),
    ensures
        answered(h, i, j, result),
        (h[j - 1] matches Step::Open { ino, reply } && ino == parent && reply is Err) || (h[j - 1]
            matches Step::ReadDir { ino, offset: o, .. } && ino == parent && o == offset),
        forall|k: int|
            i <= k < j ==> (#[trigger] h[k] matches Step::ReadDir { ino, .. } ==> ino == parent),
        forall|k: int|
            i <= k < j ==> (#[trigger] h[k] matches Step::Open { ino, .. } ==> ino == parent),
{
}

/// Whether nothing stood in the way from position `i` up to `j`: the backend could do all that
/// it was asked for, except that something may not have been there.
pub open spec fn smooth(h: Seq<Step>, i: int, j: int) -> bool {
    forall|k: int|
        i <= k < j ==> !laws::broke(#[trigger] h[k]) && !(laws::failed(h[k]) && makes(h[k]))
}

/// Whether a request makes something new.
pub open spec fn makes(step: Step) -> bool {
    step is Alloc || (step matches Step::Entry { op, .. } && op == EntryOp::Add)
}

/// If nothing stands in the way, `create` under a free name in a directory that exists succeeds.
pub proof fn law_create_succeeds(
    h: Seq<Step>,
    trees: Seq<Tree>,
    i: int,
    parent: u32,
    name: Seq<char>,
    ty: InodeType,
    permissions: u32,
)
    requires
        tree::sound(h, trees, i),
        0 <= i <= h.len(),
        trees[i].contains_key(parent),
        !tree::has_entry(trees[i], (parent, name)),
    ensures
        protocol::create_run(h, i, parent, name, ty, permissions) matches Some((result, j)) ==> (
        smooth(h, i, j) ==> result is Ok),
{
    match protocol::create_run(h, i, parent, name, ty, permissions) {
        Some((Err(f), j)) => {
            laws::law_create_counts_two_links(h, trees, i, parent, name, ty, permissions);
            law_create_answer(h, i, j, parent, name, ty, permissions, Err(f));
            lemmas::lemma_place(h, trees, i, parent, name, ty);
            assert(tree::sound_at(h, trees, i));
            if i + 1 < h.len() {
                assert(tree::sound_at(h, trees, i + 1));
            }
            if i + 2 < h.len() {
                assert(tree::sound_at(h, trees, i + 2));
            }
            if i + 3 < h.len() {
                assert(tree::sound_at(h, trees, i + 3));
            }
            if i + 4 < h.len() {
                assert(tree::sound_at(h, trees, i + 4));
            }
        },
        _ => {},
    }
}

/// If nothing stands in the way, `link` of an inode that is not a directory, in a directory that
/// exists, succeeds.
pub proof fn law_link_succeeds(
    h: Seq<Step>,
    trees: Seq<Tree>,
    i: int,
    dir: u32,
    name: Seq<char>,
    child: u32,
)
    requires
        tree::sound(h, trees, i),
        0 <= i <= h.len(),
        trees[i].contains_key(dir),
        trees[i].contains_key(child),
        trees[i][child].ty != InodeType::Directory,
    ensures
        protocol::link_run(h, i, dir, name, child) matches Some((result, j)) ==> (smooth(h, i, j)
            ==> result is Ok),
{
    if protocol::link_run(h, i, dir, name, child) is Some {
        assert(tree::sound_at(h, trees, i));
        if i + 1 < h.len() {
            assert(tree::sound_at(h, trees, i + 1));
        }
        if i + 2 < h.len() {
            assert(tree::sound_at(h, trees, i + 2));
        }
    }
}

/// If nothing stands in the way, `unlink` of a name that exists succeeds, unless it is that of a
/// directory with children.
pub proof fn law_unlink_succeeds(
    h: Seq<Step>,
    trees: Seq<Tree>,
    i: int,
    dir: u32,
    name: Seq<char>,
)
    requires
        tree::sound(h, trees, i),
        0 <= i <= h.len(),
        tree::has_entry(trees[i], (dir, name)),
        trees[i].contains_key(tree::target(trees[i], (dir, name))),
        !tree::has_children(trees[i], tree::target(trees[i], (dir, name))),
    ensures
        protocol::unlink_run(h, i, dir, name) matches Some((result, j)) ==> (smooth(h, i, j)
            ==> result is Ok),
{
    lemmas::lemma_unlink_blame(h, trees, i, dir, name);
    match protocol::unlink_run(h, i, dir, name) {
        Some((result, j)) => {
            law_unlink_answer(h, i, j, dir, name, result);
            assert(smooth(h, i, j) ==> !laws::broke(h[j - 1]));
        },
        None => {},
    }
}

/// If nothing stands in the way, `lookup` finds a name that exists, and says `ENOENT` of one that
/// does not.
pub proof fn law_lookup_succeeds(
    h: Seq<Step>,
    trees: Seq<Tree>,
    i: int,
    dir: u32,
    name: Seq<char>,
)
    requires
        tree::sound(h, trees, i),
        0 <= i <= h.len(),
    ensures
        protocol::lookup_run(h, i, dir, name) matches Some((result, j)) ==> (smooth(h, i, j)
            ==> if tree::has_entry(trees[i], (dir, name)) {
            result == Ok::<u32, Failure>(tree::target(trees[i], (dir, name)))
        } else {
            laws::fails_with(result, ENOENT)
        }),
{
    if protocol::lookup_run(h, i, dir, name) is Some {
        assert(tree::sound_at(h, trees, i));
        if i + 1 < h.len() {
            assert(tree::sound_at(h, trees, i + 1));
        }
    }
}

/// Whether the backend said of something that it is not there.
pub open spec fn missed(step: Step) -> bool {
    told(step) matches Some(Failure::Error(e)) && e.code == ENOENT
}

/// When `rename` succeeds, all its requests went well, except that what had the new name may not
/// have been there. It fails with what its last request was answered; with `ENOTEMPTY` if what
/// has the new name has children; or it finds an inode that is open not to open again.
pub proof fn law_rename_answer(
    h: Seq<Step>,
    i: int,
    j: int,
    src_dir: u32,
    src_name: Seq<char>,
    dst_dir: u32,
    dst_name: Seq<char>,
    result: Result<(), Failure>,
)
    requires
        0 <= i,
        protocol::rename_run(h, i, src_dir, src_name, dst_dir, dst_name) == Some((result, j)),
    ensures
        i < j <= h.len(),
        forall|k: int| i <= k < j - 1 ==> told(#[trigger] h[k]) is None || missed(h[k]),
        result is Ok ==> told(h[j - 1]) is None,
        result matches Err(f) ==> {
            ||| told(h[j - 1]) == Some(f)
            ||| f == broken_clone() && could_not_reopen(h, i, j)
            ||| {
                &&& f == Failure::Error(Ext4Error { code: ENOTEMPTY, context: None })
                &&& laws::found_children(h[j - 1])
            }
        },
{
    lemma_clear_answer(h, i + 2, dst_dir, dst_name);
    match protocol::clear_run(h, i + 2, dst_dir, dst_name) {
        Some((Ok(_), k)) => {
            lemma_carry_answer(h, k, src_dir, src_name, dst_dir, dst_name);
            lemma_reopen(h, i, k, j);
        },
        Some((Err(_), k)) => {
            lemma_reopen(h, i, i + 2, k);
        },
        None => {},
    }
}

proof fn lemma_reopen(h: Seq<Step>, i: int, k: int, j: int)
    requires
        i <= k,
    ensures
        could_not_reopen(h, k, j) ==> could_not_reopen(h, i, j),
{
    if could_not_reopen(h, k, j) {
        match h[j - 1] {
            Step::Open { ino, .. } => {
                let m = choose|m: int| k <= m < j - 1 && opens(#[trigger] h[m], ino);
                assert(opens(h[m], ino));
            },
            _ => {},
        }
    }
}

proof fn lemma_clear_answer(h: Seq<Step>, i: int, dir: u32, name: Seq<char>)
    requires
        0 <= i,
    ensures
        protocol::clear_run(h, i, dir, name) matches Some((result, j)) ==> {
            &&& i < j <= h.len()
            &&& went_well(h, i, j - 1)
            &&& result is Ok ==> told(h[j - 1]) is None || missed(h[j - 1])
            &&& result matches Err(f) ==> {
                ||| told(h[j - 1]) == Some(f)
                ||| f == broken_clone() && could_not_reopen(h, i, j)
                ||| {
                    &&& f == Failure::Error(Ext4Error { code: ENOTEMPTY, context: None })
                    &&& laws::found_children(h[j - 1])
                }
            }
        },
{
    match protocol::unlink_run(h, i, dir, name) {
        Some((result, j)) => {
            law_unlink_answer(h, i, j, dir, name, result);
        },
        None => {},
    }
}

proof fn lemma_carry_answer(
    h: Seq<Step>,
    i: int,
    src_dir: u32,
    src_name: Seq<char>,
    dst_dir: u32,
    dst_name: Seq<char>,
)
    requires
        0 <= i,
    ensures
        protocol::carry_run(h, i, src_dir, src_name, dst_dir, dst_name) matches Some((result, j))
            ==> {
            &&& i < j <= h.len()
            &&& went_well(h, i, j - 1)
            &&& result is Ok ==> told(h[j - 1]) is None
            &&& result matches Err(f) ==> told(h[j - 1]) == Some(f) || f == broken_clone()
                && could_not_reopen(h, i, j)
        },
{
    match protocol::lookup_run(h, i, src_dir, src_name) {
        Some((Ok(src), k)) => {
            if k < h.len() && protocol::open_run(h, k, src) is Some {
                assert(opens(h[k], src) || told(h[k]) is Some);
            }
        },
        _ => {},
    }
}

/// If nothing stands in the way, `rename` of an entry that exists to another name succeeds, unless
/// that is the name of a directory with children.
pub proof fn law_rename_succeeds(
    h: Seq<Step>,
    trees: Seq<Tree>,
    i: int,
    src_dir: u32,
    src_name: Seq<char>,
    dst_dir: u32,
    dst_name: Seq<char>,
)
    requires
        tree::sound(h, trees, i),
        0 <= i <= h.len(),
        tree::well_formed(trees[i]),
        trees[i].contains_key(dst_dir),
        trees[i][dst_dir].ty == InodeType::Directory,
        !tree::is_dot(src_name),
        !tree::is_dot(dst_name),
        (src_dir, src_name) != (dst_dir, dst_name),
        tree::has_entry(trees[i], (src_dir, src_name)),
        tree::has_entry(trees[i], (dst_dir, dst_name)) ==> !tree::has_children(
            trees[i],
            tree::target(trees[i], (dst_dir, dst_name)),
        ),
    ensures
        protocol::rename_run(h, i, src_dir, src_name, dst_dir, dst_name) matches Some((result, j))
            ==> (smooth(h, i, j) ==> result is Ok),
{
    let t = trees[i];
    let p = (src_dir, src_name);
    let q = (dst_dir, dst_name);
    match protocol::rename_run(h, i, src_dir, src_name, dst_dir, dst_name) {
        Some((Err(f), j)) => {
            assert(tree::sound_at(h, trees, i));
            if i + 1 < h.len() {
                assert(tree::sound_at(h, trees, i + 1));
            }
            law_rename_answer(h, i, j, src_dir, src_name, dst_dir, dst_name, Err(f));
            if smooth(h, i, j) {
                assert(!laws::broke(h[j - 1]));
                assert(trees[i + 2] == t);
                lemmas::lemma_unlink(h, trees, i + 2, dst_dir, dst_name);
                lemmas::lemma_unlink_blame(h, trees, i + 2, dst_dir, dst_name);
                assert(tree::has_entry(t, p));
                if tree::has_entry(t, q) {
                    assert(t.contains_key(tree::target(t, q)));
                    effects::lemma_unlinked_keeps(t, p, q);
                }
                match protocol::clear_run(h, i + 2, dst_dir, dst_name) {
                    Some((Ok(_), k)) => {
                        assert(tree::well_formed(trees[k]));
                        assert(tree::has_entry(trees[k], p));
                        lemma_carry_blame(h, trees, k, src_dir, src_name, dst_dir, dst_name);
                    },
                    _ => {},
                }
            }
        },
        _ => {},
    }
}

proof fn lemma_carry_blame(
    h: Seq<Step>,
    trees: Seq<Tree>,
    i: int,
    src_dir: u32,
    src_name: Seq<char>,
    dst_dir: u32,
    dst_name: Seq<char>,
)
    requires
        tree::sound(h, trees, i),
        0 <= i <= h.len(),
        tree::well_formed(trees[i]),
        tree::has_entry(trees[i], (src_dir, src_name)),
        !tree::is_dot(src_name),
    ensures
        protocol::carry_run(h, i, src_dir, src_name, dst_dir, dst_name) matches Some((Err(_), j))
            ==> laws::broke(h[j - 1]) || (laws::failed(h[j - 1]) && makes(h[j - 1])),
{
    let t = trees[i];
    let src = tree::target(t, (src_dir, src_name));
    lemmas::lemma_dots_differ();
    match protocol::carry_run(h, i, src_dir, src_name, dst_dir, dst_name) {
        Some((Err(_), j)) => {
            assert(t.contains_key(src));
            if t[src].ty == InodeType::Directory {
                assert(tree::has_entry(t, (src, ".."@)));
            }
            if i < h.len() {
                assert(tree::sound_at(h, trees, i));
            }
            if i + 1 < h.len() {
                assert(tree::sound_at(h, trees, i + 1));
            }
            if i + 2 < h.len() {
                assert(tree::sound_at(h, trees, i + 2));
            }
            if i + 3 < h.len() {
                assert(tree::sound_at(h, trees, i + 3));
            }
            if i + 4 < h.len() {
                assert(tree::sound_at(h, trees, i + 4));
            }
            if i + 5 < h.len() {
                assert(tree::sound_at(h, trees, i + 5));
            }
            if i + 6 < h.len() {
                assert(tree::sound_at(h, trees, i + 6));
            }
            if i + 7 < h.len() {
                assert(tree::sound_at(h, trees, i + 7));
            }
            if i + 8 < h.len() {
                assert(tree::sound_at(h, trees, i + 8));
            }
            if i + 9 < h.len() {
                assert(tree::sound_at(h, trees, i + 9));
            }
        },
        _ => {},
    }
}

} // verus!
