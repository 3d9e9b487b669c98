//! The backend together with the history of all requests made of it.

use crate::backend::{Backend, Change, EntryOp, Field, LibCall, Touch};
use crate::blockdev::{BlockDevice, Ext4BlockDevice};
use crate::error::Ext4Result;
use crate::inode::{FileAttr, InodeType};
use crate::request;
use crate::request::{Event, Handle, State, Step};
use crate::superblock::Superblock;
use core::marker::PhantomData;
use vstd::prelude::*;

verus! {

/// An open inode: its number, and the handle by which the backend knows it. The two stay
/// together, and the handle is given back when this value goes out of scope.
pub(crate) struct InodeRef<I> {
    ino: u32,
    inner: I,
    origin: Ghost<int>,
}

impl<I> InodeRef<I> {
    pub closed spec fn spec_ino(&self) -> u32 {
        self.ino
    }

    /// The backend's handle on the inode.
    pub closed spec fn handle(&self) -> I {
        self.inner
    }

    /// The event by which the backend gave the handle.
    pub closed spec fn origin(&self) -> int {
        self.origin@
    }

    #[verifier::when_used_as_spec(spec_ino)]
    pub(crate) fn ino(&self) -> (ino: u32)
        ensures
            ino == self.ino(),
    {
        self.ino
    }

    /// Hands the open inode to `f`, and closes it afterwards.
    pub(crate) fn lend<R, F: FnOnce(&mut I) -> R>(self, f: F) -> (result: R)
        requires
            forall|inode: &mut I| *inode == self.handle() ==> #[trigger] call_requires(f, (inode,)),
        ensures
            exists|inode: &mut I|
                *inode == self.handle() && #[trigger] call_ensures(f, (inode,), result),
    {
        let mut inner = self.inner;
        f(&mut inner)
    }
}

/// A directory entry that was looked up.
pub struct DirLookupResult<F> {
    ino: u32,
    inner: F,
    place: Ghost<(u32, Seq<char>)>,
    origin: Ghost<int>,
}

impl<F> DirLookupResult<F> {
    pub closed spec fn spec_ino(&self) -> u32 {
        self.ino
    }

    /// The backend's handle on the entry.
    pub closed spec fn handle(&self) -> F {
        self.inner
    }

    /// The directory and the name under which the entry was found.
    pub closed spec fn place(&self) -> (u32, Seq<char>) {
        self.place@
    }

    /// The event by which the backend gave the handle.
    pub closed spec fn origin(&self) -> int {
        self.origin@
    }

    /// The inode that the entry named when it was looked up.
    #[verifier::when_used_as_spec(spec_ino)]
    pub fn ino(&self) -> (ino: u32)
        ensures
            ino == self.ino(),
    {
        self.ino
    }

    /// The backend's handle on the entry.
    pub fn into_inner(self) -> (inner: F)
        ensures
            inner == self.handle(),
    {
        self.inner
    }
}

/// A backend and the history of the requests made of it. Each method makes one request, of the
/// backend that it holds and on the device and the inodes that it is given, and notes it; its
/// contract says so. Once a backend is in here, there is no other way to make a request of it.
/// Not in the history is what is done by way of a handle of the backend that was given out: an
/// open inode that was lent, an entry, a reader.
pub struct Driver<Dev: BlockDevice, B: Backend<Dev>> {
    backend: B,
    history: Ghost<Seq<Step>>,
    events: Ghost<Seq<Event<Dev, B>>>,
    setup: Ghost<int>,
    _phantom: PhantomData<Dev>,
}

impl<Dev: BlockDevice, B: Backend<Dev>> Driver<Dev, B> {
    /// The backend itself.
    pub closed spec fn backend(&self) -> B {
        self.backend
    }

    /// The requests made so far, oldest first.
    pub closed spec fn history(&self) -> Seq<Step> {
        self.history@
    }

    /// The same requests, with what was there before and after each.
    pub closed spec fn events(&self) -> Seq<Event<Dev, B>> {
        self.events@
    }

    /// Which request was the last one to set a block device up; -1 if none did.
    pub closed spec fn setup(&self) -> int {
        self.setup@
    }

    /// The block device as the C library first got it, when it last set one up.
    pub open spec fn first_device(&self) -> Option<Ext4BlockDevice<Dev>> {
        if 0 <= self.setup() < self.events().len() {
            self.events()[self.setup()].before.device
        } else {
            None
        }
    }

    /// The block device as the last request left it.
    pub open spec fn last_device(&self) -> Option<Ext4BlockDevice<Dev>> {
        if self.events().len() > 0 {
            self.events().last().after.device
        } else {
            None
        }
    }

    /// The backend, and the block device as the last request left it.
    pub open spec fn state(&self) -> State<Dev, B> {
        State { backend: self.backend(), device: self.last_device() }
    }

    /// What always holds: the history is that of requests that took place one after the other,
    /// and the backend is just as the last one left it.
    pub open spec fn wf(&self) -> bool {
        &&& request::coherent(self.events())
        &&& self.history().len() == self.events().len()
        &&& forall|k: int|
            0 <= k < self.events().len() ==> #[trigger] self.history()[k] == self.events()[k].step
        &&& self.events().len() > 0 ==> self.events().last().after.backend == self.backend()
        &&& -1 <= self.setup() < self.events().len()
        &&& forall|k: int|
            self.setup() < k < self.events().len() ==> !request::sets_up(
                #[trigger] self.history()[k],
            )
    }

    /// Whether `bdev` is just as the last request left it: nothing was done to it since.
    pub open spec fn serves(&self, bdev: Ext4BlockDevice<Dev>) -> bool {
        self.wf() && self.last_device() == Some(bdev)
    }

    /// Whether this is the driver `earlier` after one more request.
    pub open spec fn noted(&self, earlier: Self, event: Event<Dev, B>) -> bool {
        &&& self.wf()
        &&& self.events() == earlier.events().push(event)
        &&& self.history() == earlier.history().push(event.step)
        &&& self.setup() == if request::sets_up(event.step) {
            earlier.events().len() as int
        } else {
            earlier.setup()
        }
    }

    /// Whether the requests of `earlier` come first in the history.
    pub open spec fn resumes(&self, earlier: Self) -> bool {
        &&& earlier.events().len() <= self.events().len()
        &&& forall|k: int|
            0 <= k < earlier.events().len() ==> #[trigger] self.events()[k] == earlier.events()[k]
    }

    /// Whether this is the driver `earlier` after more requests, none of which set up a device.
    pub open spec fn follows(&self, earlier: Self) -> bool {
        self.resumes(earlier) && self.setup() == earlier.setup()
    }

    /// Whether the handle of an open inode came from the backend, for that inode.
    pub(crate) open spec fn knows(&self, inode: InodeRef<B::Inode>) -> bool {
        &&& 0 <= inode.origin() < self.events().len()
        &&& self.events()[inode.origin()].gives.contains(
            Handle::Inode(inode.ino(), inode.handle()),
        )
    }

    /// Whether the handle of an entry came from the backend, for that place.
    pub open spec fn knows_entry(&self, found: DirLookupResult<B::Entry>) -> bool {
        &&& 0 <= found.origin() < self.events().len()
        &&& self.events()[found.origin()].gives.contains(
            Handle::Entry(found.place().0, found.place().1, found.handle()),
        )
    }

    /// Puts a backend under control, with nothing asked of it yet.
    pub fn new(backend: B) -> (driver: Self)
        ensures
            driver.wf(),
            driver.backend() == backend,
            driver.history() == Seq::<Step>::empty(),
    {
        Driver {
            backend,
            history: Ghost(Seq::empty()),
            events: Ghost(Seq::empty()),
            setup: Ghost(-1),
            _phantom: PhantomData,
        }
    }

    /// Makes a call of the C library and gives its status. The C library gets a new device with
    /// `BlockInit`; from then on, nobody else may work on it.
    pub fn call(&mut self, bdev: &mut Ext4BlockDevice<Dev>, call: LibCall) -> (code: i32)
        requires
            old(self).wf(),
            call is BlockInit || old(self).serves(*old(bdev)),
        ensures
            final(self).noted(
                *old(self),
                (Event {
                    step: Step::Call { call, code },
                    before: State { backend: old(self).backend(), device: Some(*old(bdev)) },
                    after: final(self).state(),
                    takes: Set::empty(),
                    gives: Set::empty(),
                }),
            ),
            final(self).serves(*final(bdev)),
    {
        let ghost before = State { backend: self.backend, device: Some(*bdev) };
        let (code, Ghost(after)) = request::ask_call(&mut self.backend, bdev, call);
        proof {
            let e = Event {
                step: Step::Call { call, code },
                before,
                after,
                takes: Set::empty(),
                gives: Set::empty(),
            };
            request::lemma_coherent_push(self.events@, e);
            if request::sets_up(e.step) {
                self.setup@ = self.events@.len() as int;
            }
            self.events@ = self.events@.push(e);
            self.history@ = self.history@.push(e.step);
        }
        code
    }

    /// Asks for the superblock.
    pub fn superblock(&mut self) -> (sb: Superblock)
        requires
            old(self).wf(),
        ensures
            final(self).noted(
                *old(self),
                (Event {
                    step: Step::Superblock { sb: sb@ },
                    before: old(self).state(),
                    after: final(self).state(),
                    takes: Set::empty(),
                    gives: Set::empty(),
                }),
            ),
            final(self).last_device() == old(self).last_device(),
            exists|b: &mut B|
                {
                    &&& #[trigger] call_ensures(
                        <B as Backend<Dev>>::superblock,
                        (b,),
                        sb,
                    )
                    &&& *b == old(self).backend()
                    &&& *final(b) == final(self).backend()
                },
    {
        let ghost before = self.state();
        let (sb, Ghost(after)) = request::ask_superblock::<Dev, B>(&mut self.backend);
        proof {
            let e = Event {
                step: Step::Superblock { sb: sb@ },
                before,
                after: State { backend: after, device: before.device },
                takes: Set::empty(),
                gives: Set::empty(),
            };
            request::lemma_coherent_push(self.events@, e);
            self.events@ = self.events@.push(e);
            self.history@ = self.history@.push(e.step);
        }
        sb
    }

    /// Asks for the size of an item of the block cache.
    pub fn cache_item_size(&mut self) -> (size: u32)
        requires
            old(self).wf(),
        ensures
            final(self).noted(
                *old(self),
                (Event {
                    step: Step::CacheItemSize { size },
                    before: old(self).state(),
                    after: final(self).state(),
                    takes: Set::empty(),
                    gives: Set::empty(),
                }),
            ),
            final(self).last_device() == old(self).last_device(),
    {
        let ghost before = self.state();
        let (size, Ghost(after)) = request::ask_cache_item_size::<Dev, B>(&mut self.backend);
        proof {
            let e = Event {
                step: Step::CacheItemSize { size },
                before,
                after: State { backend: after, device: before.device },
                takes: Set::empty(),
                gives: Set::empty(),
            };
            request::lemma_coherent_push(self.events@, e);
            self.events@ = self.events@.push(e);
            self.history@ = self.history@.push(e.step);
        }
        size
    }

    /// Opens an inode.
    pub(crate) fn open(
        &mut self,
        bdev: &mut Ext4BlockDevice<Dev>,
        ino: u32,
    ) -> (reply: Result<InodeRef<B::Inode>, i32>)
        requires
            old(self).serves(*old(bdev)),
        ensures
            final(self).noted(
                *old(self),
                (Event {
                    step: Step::Open { ino, reply: request::outline(reply) },
                    before: old(self).state(),
                    after: final(self).state(),
                    takes: Set::empty(),
                    gives: match reply {
                        Ok(inode) => set![Handle::Inode(ino, inode.handle())],
                        Err(_) => Set::empty(),
                    },
                }),
            ),
            final(self).serves(*final(bdev)),
            reply matches Ok(inode) ==> inode.ino() == ino && final(self).knows(inode),
            exists|b: &mut B, d: &mut Ext4BlockDevice<Dev>, r: Result<B::Inode, i32>|
                {
                    &&& #[trigger] call_ensures(<B as Backend<Dev>>::open, (b, d, ino), r)
                    &&& *b == old(self).backend()
                    &&& *final(b) == final(self).backend()
                    &&& *d == *old(bdev)
                    &&& *final(d) == *final(bdev)
                    &&& match (r, reply) {
                        (Ok(handle), Ok(inode)) => inode.handle() == handle,
                        (Err(x), Err(y)) => x == y,
                        _ => false,
                    }
                },
    {
        let ghost before = self.state();
        let ghost origin = self.events@.len() as int;
        let (r, Ghost(after)) = request::ask_open(&mut self.backend, bdev, ino);
        let ghost told = r;
        proof {
            let e = Event {
                step: Step::Open { ino, reply: request::outline(told) },
                before,
                after,
                takes: Set::empty(),
                gives: match told {
                    Ok(inner) => set![Handle::Inode(ino, inner)],
                    Err(_) => Set::empty(),
                },
            };
            request::lemma_coherent_push(self.events@, e);
            self.events@ = self.events@.push(e);
            self.history@ = self.history@.push(e.step);
        }
        match r {
            Ok(inner) => Ok(InodeRef { ino, inner, origin: Ghost(origin) }),
            Err(code) => Err(code),
        }
    }

    /// Allocates an inode.
    pub(crate) fn allocate(
        &mut self,
        bdev: &mut Ext4BlockDevice<Dev>,
        entry_type: u32,
    ) -> (reply: Result<InodeRef<B::Inode>, i32>)
        requires
            old(self).serves(*old(bdev)),
        ensures
            final(self).noted(
                *old(self),
                (Event {
                    step: Step::Alloc {
                        entry_type,
                        reply: match reply {
                            Ok(inode) => Ok(inode.ino()),
                            Err(code) => Err(code),
                        },
                    },
                    before: old(self).state(),
                    after: final(self).state(),
                    takes: Set::empty(),
                    gives: match reply {
                        Ok(inode) => set![Handle::Inode(inode.ino(), inode.handle())],
                        Err(_) => Set::empty(),
                    },
                }),
            ),
            final(self).serves(*final(bdev)),
            reply matches Ok(inode) ==> final(self).knows(inode),
    {
        let ghost before = self.state();
        let ghost origin = self.events@.len() as int;
        let (r, Ghost(after)) = request::ask_allocate(&mut self.backend, bdev, entry_type);
        let ghost told = r;
        proof {
            let e = Event {
                step: Step::Alloc {
                    entry_type,
                    reply: match told {
                        Ok((ino, _)) => Ok(ino),
                        Err(code) => Err(code),
                    },
                },
                before,
                after,
                takes: Set::empty(),
                gives: match told {
                    Ok((ino, inner)) => set![Handle::Inode(ino, inner)],
                    Err(_) => Set::empty(),
                },
            };
            request::lemma_coherent_push(self.events@, e);
            self.events@ = self.events@.push(e);
            self.history@ = self.history@.push(e.step);
        }
        match r {
            Ok((ino, inner)) => Ok(InodeRef { ino, inner, origin: Ghost(origin) }),
            Err(code) => Err(code),
        }
    }

    /// Asks for the type of an inode.
    pub(crate) fn inode_type(&mut self, inode: &InodeRef<B::Inode>) -> (ty: InodeType)
        requires
            old(self).wf(),
            old(self).knows(*inode),
        ensures
            final(self).noted(
                *old(self),
                (Event {
                    step: Step::InodeType { ino: inode.ino(), ty },
                    before: old(self).state(),
                    after: final(self).state(),
                    takes: set![Handle::Inode(inode.ino(), inode.handle())],
                    gives: Set::empty(),
                }),
            ),
            final(self).last_device() == old(self).last_device(),
    {
        let ghost before = self.state();
        let (ty, Ghost(after)) = request::ask_inode_type::<Dev, B>(
            &mut self.backend,
            &inode.inner,
        );
        proof {
            let e = Event {
                step: Step::InodeType { ino: inode.ino, ty },
                before,
                after: State { backend: after, device: before.device },
                takes: set![Handle::Inode(inode.ino, inode.inner)],
                gives: Set::empty(),
            };
            request::lemma_coherent_push(self.events@, e);
            self.events@ = self.events@.push(e);
            self.history@ = self.history@.push(e.step);
        }
        ty
    }

    /// Asks for a number that an inode holds.
    pub(crate) fn field(&mut self, inode: &InodeRef<B::Inode>, field: Field) -> (value: u32)
        requires
            old(self).wf(),
            old(self).knows(*inode),
        ensures
            final(self).noted(
                *old(self),
                (Event {
                    step: Step::Field { ino: inode.ino(), field, value },
                    before: old(self).state(),
                    after: final(self).state(),
                    takes: set![Handle::Inode(inode.ino(), inode.handle())],
                    gives: Set::empty(),
                }),
            ),
            final(self).last_device() == old(self).last_device(),
    {
        let ghost before = self.state();
        let (value, Ghost(after)) = request::ask_field::<Dev, B>(
            &mut self.backend,
            &inode.inner,
            field,
        );
        proof {
            let e = Event {
                step: Step::Field { ino: inode.ino, field, value },
                before,
                after: State { backend: after, device: before.device },
                takes: set![Handle::Inode(inode.ino, inode.inner)],
                gives: Set::empty(),
            };
            request::lemma_coherent_push(self.events@, e);
            self.events@ = self.events@.push(e);
            self.history@ = self.history@.push(e.step);
        }
        value
    }

    /// Makes a change of an inode that has no status.
    pub(crate) fn touch(
        &mut self,
        bdev: &mut Ext4BlockDevice<Dev>,
        inode: &mut InodeRef<B::Inode>,
        touch: Touch,
    )
        requires
            old(self).serves(*old(bdev)),
            old(self).knows(*old(inode)),
        ensures
            final(self).noted(
                *old(self),
                (Event {
                    step: Step::Touch { ino: old(inode).ino(), touch },
                    before: old(self).state(),
                    after: final(self).state(),
                    takes: set![Handle::Inode(old(inode).ino(), old(inode).handle())],
                    gives: set![Handle::Inode(final(inode).ino(), final(inode).handle())],
                }),
            ),
            final(self).serves(*final(bdev)),
            final(inode).ino() == old(inode).ino(),
            final(self).knows(*final(inode)),
    {
        let ghost before = self.state();
        let ghost handle = inode.inner;
        let Ghost(after) = request::ask_touch(&mut self.backend, bdev, &mut inode.inner, touch);
        proof {
            let e = Event {
                step: Step::Touch { ino: inode.ino, touch },
                before,
                after: after.0,
                takes: set![Handle::Inode(inode.ino, handle)],
                gives: set![Handle::Inode(inode.ino, inode.inner)],
            };
            request::lemma_coherent_push(self.events@, e);
            self.events@ = self.events@.push(e);
            self.history@ = self.history@.push(e.step);
            inode.origin@ = self.events@.len() - 1;
        }
    }

    /// Changes the contents of an inode.
    pub(crate) fn change(
        &mut self,
        bdev: &mut Ext4BlockDevice<Dev>,
        inode: &mut InodeRef<B::Inode>,
        change: Change<'_>,
    ) -> (reply: Ext4Result<()>)
        requires
            old(self).serves(*old(bdev)),
            old(self).knows(*old(inode)),
        ensures
            final(self).noted(
                *old(self),
                (Event {
                    step: Step::Change { ino: old(inode).ino(), change: change@, reply },
                    before: old(self).state(),
                    after: final(self).state(),
                    takes: set![Handle::Inode(old(inode).ino(), old(inode).handle())],
                    gives: set![Handle::Inode(final(inode).ino(), final(inode).handle())],
                }),
            ),
            final(self).serves(*final(bdev)),
            final(inode).ino() == old(inode).ino(),
            final(self).knows(*final(inode)),
            exists|b: &mut B, d: &mut Ext4BlockDevice<Dev>, i: &mut B::Inode|
                {
                    &&& #[trigger] call_ensures(
                        <B as Backend<Dev>>::change,
                        (b, d, i, change),
                        reply,
                    )
                    &&& *b == old(self).backend()
                    &&& *final(b) == final(self).backend()
                    &&& *d == *old(bdev)
                    &&& *final(d) == *final(bdev)
                    &&& *i == old(inode).handle()
                    &&& *final(i) == final(inode).handle()
                },
    {
        let ghost before = self.state();
        let ghost handle = inode.inner;
        let (reply, Ghost(after)) = request::ask_change(
            &mut self.backend,
            bdev,
            &mut inode.inner,
            change,
        );
        proof {
            let e = Event {
                step: Step::Change { ino: inode.ino, change: change@, reply },
                before,
                after: after.0,
                takes: set![Handle::Inode(inode.ino, handle)],
                gives: set![Handle::Inode(inode.ino, inode.inner)],
            };
            request::lemma_coherent_push(self.events@, e);
            self.events@ = self.events@.push(e);
            self.history@ = self.history@.push(e.step);
            inode.origin@ = self.events@.len() - 1;
        }
        reply
    }

    /// Adds or removes a directory entry.
    pub(crate) fn entry(
        &mut self,
        bdev: &mut Ext4BlockDevice<Dev>,
        op: EntryOp,
        dir: &mut InodeRef<B::Inode>,
        name: &str,
        child: &mut InodeRef<B::Inode>,
    ) -> (reply: Ext4Result<()>)
        requires
            old(self).serves(*old(bdev)),
            old(self).knows(*old(dir)),
            old(self).knows(*old(child)),
        ensures
            final(self).noted(
                *old(self),
                (Event {
                    step: Step::Entry {
                        op,
                        dir: old(dir).ino(),
                        name: name@,
                        child: old(child).ino(),
                        reply,
                    },
                    before: old(self).state(),
                    after: final(self).state(),
                    takes: set![
                        Handle::Inode(old(dir).ino(), old(dir).handle()),
                        Handle::Inode(old(child).ino(), old(child).handle()),
                    ],
                    gives: set![
                        Handle::Inode(final(dir).ino(), final(dir).handle()),
                        Handle::Inode(final(child).ino(), final(child).handle()),
                    ],
                }),
            ),
            final(self).serves(*final(bdev)),
            final(dir).ino() == old(dir).ino(),
            final(child).ino() == old(child).ino(),
            final(self).knows(*final(dir)),
            final(self).knows(*final(child)),
    {
        let ghost before = self.state();
        let ghost (dir_handle, child_handle) = (dir.inner, child.inner);
        let (reply, Ghost(after)) = request::ask_entry(
            &mut self.backend,
            bdev,
            op,
            &mut dir.inner,
            name,
            &mut child.inner,
        );
        proof {
            let e = Event {
                step: Step::Entry { op, dir: dir.ino, name: name@, child: child.ino, reply },
                before,
                after: after.0,
                takes: set![
                    Handle::Inode(dir.ino, dir_handle),
                    Handle::Inode(child.ino, child_handle),
                ],
                gives: set![
                    Handle::Inode(dir.ino, dir.inner),
                    Handle::Inode(child.ino, child.inner),
                ],
            };
            request::lemma_coherent_push(self.events@, e);
            self.events@ = self.events@.push(e);
            self.history@ = self.history@.push(e.step);
            dir.origin@ = self.events@.len() - 1;
            child.origin@ = self.events@.len() - 1;
        }
        reply
    }

    /// Asks whether a directory has children.
    pub(crate) fn has_children(
        &mut self,
        bdev: &mut Ext4BlockDevice<Dev>,
        inode: &mut InodeRef<B::Inode>,
    ) -> (reply: Ext4Result<bool>)
        requires
            old(self).serves(*old(bdev)),
            old(self).knows(*old(inode)),
        ensures
            final(self).noted(
                *old(self),
                (Event {
                    step: Step::HasChildren { ino: old(inode).ino(), reply },
                    before: old(self).state(),
                    after: final(self).state(),
                    takes: set![Handle::Inode(old(inode).ino(), old(inode).handle())],
                    gives: set![Handle::Inode(final(inode).ino(), final(inode).handle())],
                }),
            ),
            final(self).serves(*final(bdev)),
            final(inode).ino() == old(inode).ino(),
            final(self).knows(*final(inode)),
    {
        let ghost before = self.state();
        let ghost handle = inode.inner;
        let (reply, Ghost(after)) = request::ask_has_children(
            &mut self.backend,
            bdev,
            &mut inode.inner,
        );
        proof {
            let e = Event {
                step: Step::HasChildren { ino: inode.ino, reply },
                before,
                after: after.0,
                takes: set![Handle::Inode(inode.ino, handle)],
                gives: set![Handle::Inode(inode.ino, inode.inner)],
            };
            request::lemma_coherent_push(self.events@, e);
            self.events@ = self.events@.push(e);
            self.history@ = self.history@.push(e.step);
            inode.origin@ = self.events@.len() - 1;
        }
        reply
    }

    /// Looks a name up in an open directory.
    pub(crate) fn lookup(
        &mut self,
        bdev: &mut Ext4BlockDevice<Dev>,
        dir: InodeRef<B::Inode>,
        name: &str,
    ) -> (reply: Ext4Result<DirLookupResult<B::Entry>>)
        requires
            old(self).serves(*old(bdev)),
            old(self).knows(dir),
        ensures
            final(self).noted(
                *old(self),
                (Event {
                    step: Step::Lookup {
                        dir: dir.ino(),
                        name: name@,
                        reply: match reply {
                            Ok(found) => Ok(found.ino()),
                            Err(error) => Err(error),
                        },
                    },
                    before: old(self).state(),
                    after: final(self).state(),
                    takes: set![Handle::Inode(dir.ino(), dir.handle())],
                    gives: match reply {
                        Ok(found) => set![Handle::Entry(dir.ino(), name@, found.handle())],
                        Err(_) => Set::empty(),
                    },
                }),
            ),
            final(self).serves(*final(bdev)),
            reply matches Ok(found) ==> {
                &&& found.place() == (dir.ino(), name@)
                &&& final(self).knows_entry(found)
            },
            exists|
                b: &mut B,
                d: &mut Ext4BlockDevice<Dev>,
                i: B::Inode,
                r: Ext4Result<(u32, B::Entry)>,
            |
                {
                    &&& #[trigger] call_ensures(<B as Backend<Dev>>::lookup, (b, d, i, name), r)
                    &&& *b == old(self).backend()
                    &&& *final(b) == final(self).backend()
                    &&& *d == *old(bdev)
                    &&& *final(d) == *final(bdev)
                    &&& i == dir.handle()
                    &&& match (r, reply) {
                        (Ok((ino, handle)), Ok(found)) => {
                            found.ino() == ino && found.handle() == handle
                        },
                        (Err(x), Err(y)) => x == y,
                        _ => false,
                    }
                },
    {
        let ghost before = self.state();
        let ghost origin = self.events@.len() as int;
        let ghost handle = dir.inner;
        let dir_ino: u32 = dir.ino;
        let (r, Ghost(after)) = request::ask_lookup(&mut self.backend, bdev, dir.inner, name);
        let ghost told = r;
        proof {
            let e = Event {
                step: Step::Lookup {
                    dir: dir_ino,
                    name: name@,
                    reply: match told {
                        Ok((ino, _)) => Ok(ino),
                        Err(error) => Err(error),
                    },
                },
                before,
                after,
                takes: set![Handle::Inode(dir_ino, handle)],
                gives: match told {
                    Ok((_, inner)) => set![Handle::Entry(dir_ino, name@, inner)],
                    Err(_) => Set::empty(),
                },
            };
            request::lemma_coherent_push(self.events@, e);
            self.events@ = self.events@.push(e);
            self.history@ = self.history@.push(e.step);
        }
        match r {
            Ok((ino, inner)) => {
                let place = Ghost((dir_ino, name@));
                Ok(DirLookupResult { ino, inner, place, origin: Ghost(origin) })
            },
            Err(error) => Err(error),
        }
    }

    /// Makes an entry that was looked up name another inode.
    pub(crate) fn redirect(
        &mut self,
        bdev: &mut Ext4BlockDevice<Dev>,
        found: &mut DirLookupResult<B::Entry>,
        ino: u32,
    )
        requires
            old(self).serves(*old(bdev)),
            old(self).knows_entry(*old(found)),
        ensures
            final(self).noted(
                *old(self),
                (Event {
                    step: Step::Redirect {
                        dir: old(found).place().0,
                        name: old(found).place().1,
                        ino,
                    },
                    before: old(self).state(),
                    after: final(self).state(),
                    takes: set![
                        Handle::Entry(
                            old(found).place().0,
                            old(found).place().1,
                            old(found).handle(),
                        ),
                    ],
                    gives: set![
                        Handle::Entry(
                            old(found).place().0,
                            old(found).place().1,
                            final(found).handle(),
                        ),
                    ],
                }),
            ),
            final(self).serves(*final(bdev)),
            final(found).place() == old(found).place(),
            final(self).knows_entry(*final(found)),
    {
        let ghost before = self.state();
        let ghost handle = found.inner;
        let ghost (dir, name) = found.place@;
        let Ghost(after) = request::ask_redirect(&mut self.backend, bdev, &mut found.inner, ino);
        proof {
            let e = Event {
                step: Step::Redirect { dir, name, ino },
                before,
                after: after.0,
                takes: set![Handle::Entry(dir, name, handle)],
                gives: set![Handle::Entry(dir, name, found.inner)],
            };
            request::lemma_coherent_push(self.events@, e);
            self.events@ = self.events@.push(e);
            self.history@ = self.history@.push(e.step);
            found.origin@ = self.events@.len() - 1;
        }
    }

    /// Starts reading a directory.
    pub(crate) fn read_dir(
        &mut self,
        bdev: &mut Ext4BlockDevice<Dev>,
        dir: InodeRef<B::Inode>,
        offset: u64,
    ) -> (reply: Ext4Result<B::Reader>)
        requires
            old(self).serves(*old(bdev)),
            old(self).knows(dir),
        ensures
            final(self).noted(
                *old(self),
                (Event {
                    step: Step::ReadDir { ino: dir.ino(), offset, reply: request::outline(reply) },
                    before: old(self).state(),
                    after: final(self).state(),
                    takes: set![Handle::Inode(dir.ino(), dir.handle())],
                    gives: Set::empty(),
                }),
            ),
            final(self).serves(*final(bdev)),
            exists|b: &mut B, d: &mut Ext4BlockDevice<Dev>, i: B::Inode|
                {
                    &&& #[trigger] call_ensures(
                        <B as Backend<Dev>>::read_dir,
                        (b, d, i, offset),
                        reply,
                    )
                    &&& *b == old(self).backend()
                    &&& *final(b) == final(self).backend()
                    &&& *d == *old(bdev)
                    &&& *final(d) == *final(bdev)
                    &&& i == dir.handle()
                },
    {
        let ghost before = self.state();
        let ghost handle = dir.inner;
        let dir_ino: u32 = dir.ino;
        let (reply, Ghost(after)) = request::ask_read_dir(
            &mut self.backend,
            bdev,
            dir.inner,
            offset,
        );
        proof {
            let e = Event {
                step: Step::ReadDir { ino: dir_ino, offset, reply: request::outline(reply) },
                before,
                after,
                takes: set![Handle::Inode(dir_ino, handle)],
                gives: Set::empty(),
            };
            request::lemma_coherent_push(self.events@, e);
            self.events@ = self.events@.push(e);
            self.history@ = self.history@.push(e.step);
        }
        reply
    }

    /// Reads from an inode.
    pub(crate) fn read_at(
        &mut self,
        bdev: &mut Ext4BlockDevice<Dev>,
        inode: &mut InodeRef<B::Inode>,
        buf: &mut [u8],
        offset: u64,
    ) -> (reply: Ext4Result<usize>)
        requires
            old(self).serves(*old(bdev)),
            old(self).knows(*old(inode)),
        ensures
            final(self).noted(
                *old(self),
                (Event {
                    step: Step::ReadAt {
                        ino: old(inode).ino(),
                        offset,
                        space: old(buf)@.len() as int,
                        data: final(buf)@,
                        reply,
                    },
                    before: old(self).state(),
                    after: final(self).state(),
                    takes: set![Handle::Inode(old(inode).ino(), old(inode).handle())],
                    gives: set![Handle::Inode(final(inode).ino(), final(inode).handle())],
                }),
            ),
            final(self).serves(*final(bdev)),
            final(inode).ino() == old(inode).ino(),
            final(self).knows(*final(inode)),
            exists|
                b: &mut B,
                d: &mut Ext4BlockDevice<Dev>,
                i: &mut B::Inode,
                s: &mut [u8],
            |
                {
                    &&& #[trigger] call_ensures(
                        <B as Backend<Dev>>::read_at,
                        (b, d, i, s, offset),
                        reply,
                    )
                    &&& *b == old(self).backend()
                    &&& *final(b) == final(self).backend()
                    &&& *d == *old(bdev)
                    &&& *final(d) == *final(bdev)
                    &&& *i == old(inode).handle()
                    &&& *final(i) == final(inode).handle()
                    &&& s@ == old(buf)@
                    &&& final(s)@ == final(buf)@
                },
    {
        let ghost before = self.state();
        let ghost handle = inode.inner;
        let ghost space = buf@.len() as int;
        let (reply, Ghost(after)) = request::ask_read_at(
            &mut self.backend,
            bdev,
            &mut inode.inner,
            buf,
            offset,
        );
        proof {
            let e = Event {
                step: Step::ReadAt { ino: inode.ino, offset, space, data: buf@, reply },
                before,
                after: after.0,
                takes: set![Handle::Inode(inode.ino, handle)],
                gives: set![Handle::Inode(inode.ino, inode.inner)],
            };
            request::lemma_coherent_push(self.events@, e);
            self.events@ = self.events@.push(e);
            self.history@ = self.history@.push(e.step);
            inode.origin@ = self.events@.len() - 1;
        }
        reply
    }

    /// Writes to an inode.
    pub(crate) fn write_at(
        &mut self,
        bdev: &mut Ext4BlockDevice<Dev>,
        inode: &mut InodeRef<B::Inode>,
        buf: &[u8],
        offset: u64,
    ) -> (reply: Ext4Result<usize>)
        requires
            old(self).serves(*old(bdev)),
            old(self).knows(*old(inode)),
        ensures
            final(self).noted(
                *old(self),
                (Event {
                    step: Step::WriteAt { ino: old(inode).ino(), offset, data: buf@, reply },
                    before: old(self).state(),
                    after: final(self).state(),
                    takes: set![Handle::Inode(old(inode).ino(), old(inode).handle())],
                    gives: set![Handle::Inode(final(inode).ino(), final(inode).handle())],
                }),
            ),
            final(self).serves(*final(bdev)),
            final(inode).ino() == old(inode).ino(),
            final(self).knows(*final(inode)),
            exists|b: &mut B, d: &mut Ext4BlockDevice<Dev>, i: &mut B::Inode|
                {
                    &&& #[trigger] call_ensures(
                        <B as Backend<Dev>>::write_at,
                        (b, d, i, buf, offset),
                        reply,
                    )
                    &&& *b == old(self).backend()
                    &&& *final(b) == final(self).backend()
                    &&& *d == *old(bdev)
                    &&& *final(d) == *final(bdev)
                    &&& *i == old(inode).handle()
                    &&& *final(i) == final(inode).handle()
                },
    {
        let ghost before = self.state();
        let ghost handle = inode.inner;
        let (reply, Ghost(after)) = request::ask_write_at(
            &mut self.backend,
            bdev,
            &mut inode.inner,
            buf,
            offset,
        );
        proof {
            let e = Event {
                step: Step::WriteAt { ino: inode.ino, offset, data: buf@, reply },
                before,
                after: after.0,
                takes: set![Handle::Inode(inode.ino, handle)],
                gives: set![Handle::Inode(inode.ino, inode.inner)],
            };
            request::lemma_coherent_push(self.events@, e);
            self.events@ = self.events@.push(e);
            self.history@ = self.history@.push(e.step);
            inode.origin@ = self.events@.len() - 1;
        }
        reply
    }

    /// Asks for the attributes of an inode.
    pub(crate) fn attributes(
        &mut self,
        bdev: &mut Ext4BlockDevice<Dev>,
        inode: &InodeRef<B::Inode>,
    ) -> (attr: FileAttr)
        requires
            old(self).serves(*old(bdev)),
            old(self).knows(*inode),
        ensures
            final(self).noted(
                *old(self),
                (Event {
                    step: Step::Attributes { ino: inode.ino(), attr },
                    before: old(self).state(),
                    after: final(self).state(),
                    takes: set![Handle::Inode(inode.ino(), inode.handle())],
                    gives: Set::empty(),
                }),
            ),
            final(self).serves(*final(bdev)),
            exists|b: &mut B, d: &mut Ext4BlockDevice<Dev>, i: &B::Inode|
                {
                    &&& #[trigger] call_ensures(
                        <B as Backend<Dev>>::attributes,
                        (b, d, i),
                        attr,
                    )
                    &&& *b == old(self).backend()
                    &&& *final(b) == final(self).backend()
                    &&& *d == *old(bdev)
                    &&& *final(d) == *final(bdev)
                    &&& *i == inode.handle()
                },
    {
        let ghost before = self.state();
        let (attr, Ghost(after)) = request::ask_attributes(&mut self.backend, bdev, &inode.inner);
        proof {
            let e = Event {
                step: Step::Attributes { ino: inode.ino, attr },
                before,
                after,
                takes: set![Handle::Inode(inode.ino, inode.inner)],
                gives: Set::empty(),
            };
            request::lemma_coherent_push(self.events@, e);
            self.events@ = self.events@.push(e);
            self.history@ = self.history@.push(e.step);
        }
        attr
    }

    /// Has the device write out what it holds back.
    pub fn flush_device(&mut self, bdev: &mut Ext4BlockDevice<Dev>) -> (reply: Ext4Result<()>)
        requires
            old(self).serves(*old(bdev)),
        ensures
            final(self).noted(
                *old(self),
                (Event {
                    step: Step::FlushDevice { reply },
                    before: old(self).state(),
                    after: final(self).state(),
                    takes: Set::empty(),
                    gives: Set::empty(),
                }),
            ),
            final(self).serves(*final(bdev)),
    {
        let ghost before = self.state();
        let (reply, Ghost(after)) = request::ask_flush(bdev);
        proof {
            let e = Event {
                step: Step::FlushDevice { reply },
                before,
                after: State { backend: before.backend, device: Some(after) },
                takes: Set::empty(),
                gives: Set::empty(),
            };
            request::lemma_coherent_push(self.events@, e);
            self.events@ = self.events@.push(e);
            self.history@ = self.history@.push(e.step);
        }
        reply
    }
}

/// A handle that is known was given.
pub(crate) proof fn lemma_known_is_given<Dev: BlockDevice, B: Backend<Dev>>(
    driver: Driver<Dev, B>,
    inode: InodeRef<B::Inode>,
)
    requires
        driver.knows(inode),
    ensures
        request::given(
            driver.events(),
            driver.events().len() as int,
            Handle::Inode(inode.ino(), inode.handle()),
        ),
{
    let event = driver.events()[inode.origin()];
    assert(event.gives.contains(Handle::Inode(inode.ino(), inode.handle())));
}

} // verus!
