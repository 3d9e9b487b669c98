//! The C library as a whole: what it has set up and what it holds back.

use crate::backend::LibCall;
use crate::error::{Ext4Error, Failure, ENOTSUP, EOK};
use crate::protocol;
use crate::request::Step;
use vstd::prelude::*;

verus! {

/// A block cache: the size that was asked for, and the item size that it has.
pub struct Cache {
    pub count: int,
    pub asked: int,
    pub item_size: int,
}

/// A filesystem that is loaded.
pub struct Loaded {
    pub read_only: bool,
    pub block_size: int,
}

/// The state of the C library.
pub struct Library {
    /// Whether the block device is set up.
    pub device: bool,
    /// Whether writes are delayed.
    pub write_back: bool,
    pub loaded: Option<Loaded>,
    /// The block size in which the device is accessed.
    pub block_size: int,
    pub cache: Option<Cache>,
    /// Whether the device knows its filesystem.
    pub attached: bool,
    /// Whether the device uses the cache.
    pub bound: bool,
    /// Whether the filesystem was written back when it was last unloaded.
    pub fs_saved: bool,
    /// Whether the cache was written back when it was last cleaned up.
    pub cache_saved: bool,
    /// Whether the C library holds writes back.
    pub holds: bool,
    /// Whether the device holds writes back.
    pub device_holds: bool,
}

/// Whether two states differ in what is held back, if at all.
pub open spec fn same_but_held(a: Library, b: Library) -> bool {
    b == Library { holds: b.holds, device_holds: b.device_holds, ..a }
}

/// What a call that went well, or one without a status, does. Unloading, cleaning up and taking
/// down are done whatever their status; what they write back needs the device.
pub open spec fn called(pre: Library, call: LibCall, went_well: bool, post: Library) -> bool {
    match call {
        LibCall::BlockInit(_) => post == if went_well {
            Library { device: true, write_back: false, ..pre }
        } else {
            pre
        },
        LibCall::BlockCacheWriteBack(on) => post == if went_well {
            Library { write_back: on != 0, ..pre }
        } else {
            pre
        },
        LibCall::BlockFini => post == Library { device: false, ..pre },
        LibCall::FsInit { read_only } => if went_well {
            post.loaded matches Some(fs) && fs.read_only == read_only && post == Library {
                loaded: Some(fs),
                ..pre
            }
        } else {
            post == pre
        },
        LibCall::BlockSetLbSize(size) => post == Library { block_size: size as int, ..pre },
        LibCall::BcacheInitDynamic { count, item_size } => if went_well {
            post.cache matches Some(cache) && cache.count == count && cache.asked == item_size
                && post == Library { cache: Some(cache), ..pre }
        } else {
            post == pre
        },
        LibCall::AttachFs => post == Library { attached: true, ..pre },
        LibCall::BlockBindBcache => post == if went_well {
            Library { bound: true, ..pre }
        } else {
            pre
        },
        LibCall::BlockCacheFlush => if went_well {
            post == Library { holds: false, device_holds: post.device_holds, ..pre }
        } else {
            same_but_held(pre, post)
        },
        LibCall::FsFini => post == Library { loaded: None, fs_saved: pre.device, ..pre },
        LibCall::BcacheCleanup => post == Library {
            cache_saved: pre.device && pre.cache is Some,
            ..pre
        },
        LibCall::BcacheFiniDynamic => post == Library { cache: None, bound: false, ..pre },
    }
}

/// Whether a request cannot change anything.
pub open spec fn reads(step: Step) -> bool {
    match step {
        Step::Superblock { .. } | Step::CacheItemSize { .. } | Step::Open { .. } | Step::InodeType {
            ..
        } | Step::Field { .. } | Step::HasChildren { .. } | Step::Lookup { .. } | Step::Attributes {
            ..
        } => true,
        _ => false,
    }
}

/// What a sound C library answers and does.
pub open spec fn answers(pre: Library, step: Step, post: Library) -> bool {
    match step {
        Step::Call { call, code } => called(pre, call, code == EOK, post),
        Step::Superblock { sb } => {
            &&& post == pre
            &&& pre.loaded matches Some(fs) ==> sb.block_size == fs.block_size
        },
        Step::CacheItemSize { size } => {
            &&& post == pre
            &&& pre.cache matches Some(cache) ==> size == cache.item_size
        },
        Step::FlushDevice { reply } => if reply is Ok {
            post == Library { device_holds: false, ..pre }
        } else {
            same_but_held(pre, post)
        },
        _ => if reads(step) {
            post == pre
        } else {
            same_but_held(pre, post)
        },
    }
}

/// Whether a sound C library can have gone through `libs` while it answered the requests of a
/// history from position `i` on.
pub open spec fn sound(h: Seq<Step>, libs: Seq<Library>, i: int) -> bool {
    &&& libs.len() == h.len() + 1
    &&& forall|k: int| i <= k < h.len() ==> #[trigger] sound_at(h, libs, k)
}

/// The part of `sound` about request `k`.
pub open spec fn sound_at(h: Seq<Step>, libs: Seq<Library>, k: int) -> bool {
    answers(libs[k], h[k], libs[k + 1])
}

/// Whether all superblocks that were told have a block size in 32 bits.
pub open spec fn sized(h: Seq<Step>) -> bool {
    forall|k: int|
        0 <= k < h.len() ==> (#[trigger] h[k] matches Step::Superblock { sb } ==> 0 <= sb.block_size
            <= u32::MAX)
}

/// A block device that was set up is up, with delayed writes. One that could not be is down.
pub proof fn law_device_is_up(h: Seq<Step>, libs: Seq<Library>, i: int)
    requires
        sound(h, libs, i),
        0 <= i <= h.len(),
    ensures
        protocol::device_run(h, i) matches Some((result, j)) ==> {
            &&& i < j <= h.len()
            &&& result is Ok ==> libs[j] == Library { device: true, write_back: true, ..libs[i] }
            &&& result is Err && !libs[i].device ==> !libs[j].device
            &&& result is Err ==> libs[j].loaded == libs[i].loaded && libs[j].cache
                == libs[i].cache
        },
{
    if protocol::device_run(h, i) is Some {
        if i < h.len() {
            assert(sound_at(h, libs, i));
        }
        if i + 1 < h.len() {
            assert(sound_at(h, libs, i + 1));
        }
        if i + 2 < h.len() {
            assert(sound_at(h, libs, i + 2));
        }
    }
}

/// The C library gets the block device with blocks of 512 bytes, and with no size yet.
pub proof fn law_device_starts_unopened(h: Seq<Step>, i: int)
    ensures
        protocol::device_run(h, i) is Some ==> (h[i] matches Step::Call {
            call: LibCall::BlockInit(layout),
            ..
        } && layout.ph_bsize == 512 && layout.ph_bcnt == 0 && layout.part_offset == 0
            && layout.part_size == 0),
{
}

proof fn lemma_load(h: Seq<Step>, libs: Seq<Library>, i: int, bcache_size: u32)
    requires
        sound(h, libs, i),
        0 <= i <= h.len(),
        sized(h),
    ensures
        protocol::load_run(h, i, bcache_size) matches Some((result, j)) ==> {
            &&& i < j <= h.len()
            &&& libs[j].device == libs[i].device
            &&& libs[j].write_back == libs[i].write_back
            &&& result is Ok ==> {
                &&& libs[j].loaded matches Some(fs)
                &&& !fs.read_only
                &&& libs[j].block_size == fs.block_size
                &&& libs[j].cache matches Some(cache)
                &&& cache.count == bcache_size
                &&& cache.asked == fs.block_size
                &&& cache.item_size == fs.block_size
            }
            &&& result is Err ==> (h[j - 1] matches Step::CacheItemSize { size } ==> mismatch(
                libs[j - 1],
                size,
            ))
        },
{
    if protocol::load_run(h, i, bcache_size) is Some {
        if i < h.len() {
            assert(sound_at(h, libs, i));
        }
        if i + 1 < h.len() {
            assert(sound_at(h, libs, i + 1));
        }
        if i + 2 < h.len() {
            assert(sound_at(h, libs, i + 2));
        }
        if i + 3 < h.len() {
            assert(sound_at(h, libs, i + 3));
        }
        if i + 4 < h.len() {
            assert(sound_at(h, libs, i + 4));
        }
    }
}

/// After `Ext4Filesystem::new` the block device is up with delayed writes, the filesystem is
/// loaded for reading and writing, the device is accessed in blocks of the filesystem's size, it
/// has a cache of as many of them as asked for, knows its filesystem and uses the cache.
pub proof fn law_new_sets_up(h: Seq<Step>, libs: Seq<Library>, i: int, j: int, bcache_size: u32)
    requires
        sound(h, libs, i),
        0 <= i <= h.len(),
        sized(h),
        protocol::new_run(h, i, bcache_size) == Some((Ok::<(), (Failure, i32)>(()), j)),
    ensures
        libs[j].device,
        libs[j].write_back,
        libs[j].attached,
        libs[j].bound,
        libs[j].loaded is Some,
        !libs[j].loaded.unwrap().read_only,
        libs[j].block_size == libs[j].loaded.unwrap().block_size,
        libs[j].cache is Some,
        libs[j].cache.unwrap().count == bcache_size,
        libs[j].cache.unwrap().asked == libs[j].block_size,
        libs[j].cache.unwrap().item_size == libs[j].block_size,
{
    law_device_is_up(h, libs, i);
    let i1 = protocol::device_run(h, i).unwrap().1;
    lemma_load(h, libs, i1, bcache_size);
    let i2 = protocol::load_run(h, i1, bcache_size).unwrap().1;
    assert(sound_at(h, libs, i2));
    assert(sound_at(h, libs, i2 + 1));
}

/// The name under which the failure of a call is reported.
pub open spec fn call_name(call: LibCall) -> &'static str {
    match call {
        LibCall::BlockInit(_) => "ext4_block_init",
        LibCall::BlockCacheWriteBack(_) => "ext4_block_cache_write_back",
        LibCall::FsInit { .. } => "ext4_fs_init",
        LibCall::BcacheInitDynamic { .. } => "ext4_bcache_init_dynamic",
        LibCall::BlockBindBcache => "ext4_block_bind_bcache",
        LibCall::BlockCacheFlush => "ext4_cache_flush",
        LibCall::FsFini => "ext4_fs_fini",
        _ => "",
    }
}

/// Whether a failure is what a call that did not go well comes to.
pub open spec fn blames(failure: Failure, step: Step) -> bool {
    &&& step matches Step::Call { call, code }
    &&& code != 0
    &&& failure == Failure::Error(Ext4Error { code, context: Some(call_name(call)) })
}

/// Whether a request is a call that does not go well, of those of which the status counts when a
/// filesystem is mounted.
pub open spec fn stops_mounting(step: Step) -> bool {
    &&& step matches Step::Call { call, code }
    &&& code != 0
    &&& call is BlockInit || call is BlockCacheWriteBack || call is FsInit
        || call is BcacheInitDynamic || call is BlockBindBcache
}

proof fn lemma_load_fails(h: Seq<Step>, i: int, bcache_size: u32)
    requires
        0 <= i <= h.len(),
    ensures
        protocol::load_run(h, i, bcache_size) matches Some((result, j)) ==> {
            &&& i < j <= h.len()
            &&& forall|k: int| i <= k < j ==> !unmounts(#[trigger] h[k])
            &&& result is Ok ==> forall|k: int| i <= k < j ==> !stops_mounting(#[trigger] h[k])
            &&& result matches Err(f) ==> {
                &&& forall|k: int| i <= k < j - 1 ==> !stops_mounting(#[trigger] h[k])
                &&& {
                    ||| blames(f, h[j - 1]) && stops_mounting(h[j - 1])
                    ||| {
                        &&& h[j - 1] is CacheItemSize
                        &&& f == Failure::Error(
                            Ext4Error { code: ENOTSUP, context: Some("block size mismatch") },
                        )
                    }
                }
            }
        },
{
}

/// Whether an item size is not the block size of the filesystem.
pub open spec fn mismatch(library: Library, size: u32) -> bool {
    library.loaded matches Some(fs) && size != fs.block_size
}

/// Whether the cache could not be bound to the device.
pub open spec fn unbound(step: Step) -> bool {
    step matches Step::Call { call, code } && call is BlockBindBcache && code != 0
}

/// Whether a request unloads the filesystem.
pub open spec fn unmounts(step: Step) -> bool {
    step matches Step::Call { call, .. } && call is FsFini
}

/// `Ext4Filesystem::new` fails with the status of the first call that does not go well, or with
/// `ENOTSUP` if the cache has items of another size. Then the device is down. If the filesystem
/// had been put together by then, it was unloaded, and the status of that is told; otherwise it
/// was not tried, and `EOK` is told.
pub proof fn law_new_fails_for_a_reason(
    h: Seq<Step>,
    libs: Seq<Library>,
    i: int,
    j: int,
    bcache_size: u32,
    failure: Failure,
    unmount: i32,
)
    requires
        sound(h, libs, i),
        0 <= i <= h.len(),
        sized(h),
        !libs[i].device,
        protocol::new_run(h, i, bcache_size) == Some(
            (Err::<(), (Failure, i32)>((failure, unmount)), j),
        ),
    ensures
        exists|k: int|
            {
                &&& i <= k < j
                &&& #[trigger] blames(failure, h[k]) && stops_mounting(h[k]) || (h[k] matches
                    Step::CacheItemSize { size } && mismatch(libs[k], size)) && failure
                    == Failure::Error(
                    Ext4Error { code: ENOTSUP, context: Some("block size mismatch") },
                )
                &&& forall|l: int| i <= l < k ==> !stops_mounting(#[trigger] h[l])
            },
        !libs[j].device,
        (unmount == 0 && forall|k: int|
            i <= k < j ==> !unmounts(#[trigger] h[k])) || (exists|k: int|
            i <= k < j && #[trigger] h[k] == (Step::Call { call: LibCall::FsFini, code: unmount })
                && libs[j].loaded is None && libs[j].cache is None && !libs[j].bound
                && libs[j].fs_saved && libs[j].cache_saved),
        forall|k: int|
            i <= k < j && unmounts(#[trigger] h[k]) ==> exists|l: int|
                i <= l < k && #[trigger] unbound(h[l]),
{
    law_device_is_up(h, libs, i);
    match protocol::device_run(h, i) {
        Some((Err(f), _)) => {
            if blames(f, h[i]) {
            } else {
                assert(blames(f, h[i + 1]));
            }
        },
        Some((Ok(_), i1)) => {
            lemma_load(h, libs, i1, bcache_size);
            lemma_load_fails(h, i1, bcache_size);
            match protocol::load_run(h, i1, bcache_size) {
                Some((Err(f), i2)) => {
                    assert(sound_at(h, libs, i2));
                    assert(blames(f, h[i2 - 1]) || h[i2 - 1] is CacheItemSize);
                },
                Some((Ok(_), i2)) => {
                    assert(blames(failure, h[i2 + 1]));
                    assert(unbound(h[i2 + 1]));
                    assert(sound_at(h, libs, i2));
                    assert(sound_at(h, libs, i2 + 1));
                    law_close_takes_down(h, libs, i2 + 2);
                },
                None => {},
            }
        },
        None => {},
    }
}

/// `close` unloads the filesystem while the device is up, writes the cache back, gives it up and
/// takes the device down, and tells the status of unloading.
pub proof fn law_close_takes_down(h: Seq<Step>, libs: Seq<Library>, i: int)
    requires
        sound(h, libs, i),
        0 <= i <= h.len(),
    ensures
        protocol::close_run(h, i) matches Some((code, j)) ==> {
            &&& i < j <= h.len()
            &&& !libs[j].device
            &&& libs[j].loaded is None
            &&& libs[j].cache is None
            &&& !libs[j].bound
            &&& libs[i].device ==> libs[j].fs_saved
            &&& libs[i].device && libs[i].cache is Some ==> libs[j].cache_saved
            &&& exists|k: int|
                i <= k < j && #[trigger] h[k] == (Step::Call { call: LibCall::FsFini, code })
        },
{
    if protocol::close_run(h, i) is Some {
        if i < h.len() {
            assert(sound_at(h, libs, i));
        }
        if i + 1 < h.len() {
            assert(sound_at(h, libs, i + 1));
        }
        if i + 2 < h.len() {
            assert(sound_at(h, libs, i + 2));
        }
        if i + 3 < h.len() {
            assert(sound_at(h, libs, i + 3));
        }
        if i + 4 < h.len() {
            assert(sound_at(h, libs, i + 4));
        }
        assert(h[i] is Call);
    }
}

/// After `flush` neither the C library nor the device holds anything back. If it fails, the one
/// that failed is told, by its own error.
pub proof fn law_flush(h: Seq<Step>, libs: Seq<Library>, i: int)
    requires
        sound(h, libs, i),
        0 <= i <= h.len(),
    ensures
        protocol::flush_run(h, i) matches Some((result, j)) ==> {
            &&& i < j <= h.len()
            &&& same_but_held(libs[i], libs[j])
            &&& result is Ok ==> !libs[j].holds && !libs[j].device_holds
            &&& result matches Err(f) ==> {
                ||| blames(f, h[j - 1])
                ||| h[j - 1] matches Step::FlushDevice { reply: Err(e) } && f == Failure::Error(e)
            }
        },
{
    if protocol::flush_run(h, i) is Some {
        if i < h.len() {
            assert(sound_at(h, libs, i));
        }
        if i + 1 < h.len() {
            assert(sound_at(h, libs, i + 1));
        }
    }
}

} // verus!
