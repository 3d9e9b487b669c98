use std::cell::RefCell;
use std::collections::BTreeMap;
use std::rc::Rc;
use std::time::Duration;

use lwext4_fs::backend::{Backend, Change, EntryOp, Field, LibCall, Touch};
use lwext4_fs::blockdev::{BlockDevice, Ext4BlockDevice};
use lwext4_fs::driver::Driver;
use lwext4_fs::error::{
    Ext4Error, Ext4Result, Failure, MountError, EISDIR, ENOENT, ENOTEMPTY, ENOTSUP,
};
use lwext4_fs::fs::{DummyHal, Ext4Filesystem, FsConfig, SystemHal, WritebackGuard};
use lwext4_fs::inode::{FileAttr, InodeType};
use lwext4_fs::superblock::{Le32, RawSuperblock, Superblock};

const ROOT: u32 = 2;

#[derive(Debug, Clone, PartialEq)]
struct Node {
    ty: InodeType,
    links: u32,
    mode: u32,
    entries: BTreeMap<String, u32>,
    data: Vec<u8>,
}

/// A request that is to fail: its beginning, how many such requests go well before, the code.
struct Fault {
    request: &'static str,
    after: u32,
    code: i32,
}

struct State {
    nodes: BTreeMap<u32, Node>,
    next: u32,
    log: Vec<String>,
    /// Each handle that was closed, and how many requests came before.
    closed: Vec<(u32, usize)>,
    free_inodes: u32,
    faults: Vec<Fault>,
    open: i32,
    item_size: u32,
    miscount: bool,
    device_fails: bool,
    device_flushes: u32,
}

type Shared = Rc<RefCell<State>>;

fn empty_tree() -> Shared {
    let mut entries = BTreeMap::new();
    entries.insert(".".to_string(), ROOT);
    entries.insert("..".to_string(), ROOT);
    let root = Node { ty: InodeType::Directory, links: 2, mode: 0o40755, entries, data: vec![] };
    let mut nodes = BTreeMap::new();
    nodes.insert(ROOT, root);
    Rc::new(RefCell::new(State {
        nodes,
        next: 11,
        log: vec![],
        closed: vec![],
        free_inodes: 65525,
        faults: vec![],
        open: 0,
        item_size: 4096,
        miscount: false,
        device_fails: false,
        device_flushes: 0,
    }))
}

impl State {
    /// Notes a request; gives the code with which it is to fail, if it is.
    fn note(&mut self, request: String) -> i32 {
        let mut code = 0;
        for fault in self.faults.iter_mut() {
            if request.starts_with(fault.request) {
                if fault.after == 0 {
                    code = fault.code;
                } else {
                    fault.after -= 1;
                }
            }
        }
        self.log.push(request);
        code
    }

    fn node(&mut self, ino: u32) -> &mut Node {
        self.nodes.get_mut(&ino).unwrap()
    }

    fn fail(&mut self, request: &'static str, after: u32, code: i32) {
        self.faults.push(Fault { request, after, code });
    }
}

fn raw_superblock(free_inodes: u32) -> RawSuperblock {
    RawSuperblock {
        inodes_count: Le32::new(65536),
        free_inodes_count: Le32::new(free_inodes),
        blocks_count_lo: Le32::new(7),
        blocks_count_hi: Le32::new(3),
        free_blocks_count_lo: Le32::new(0xffff_ffff),
        free_blocks_count_hi: Le32::new(1),
        log_block_size: Le32::new(2),
    }
}

struct Disk {
    state: Shared,
}

impl BlockDevice for Disk {
    fn write_blocks(&mut self, _block_id: u64, buf: &[u8]) -> Ext4Result<usize> {
        Ok(buf.len())
    }

    fn read_blocks(&mut self, _block_id: u64, buf: &mut [u8]) -> Ext4Result<usize> {
        Ok(buf.len())
    }

    fn num_blocks(&self) -> Ext4Result<u64> {
        Ok(100)
    }

    fn flush_cache(&mut self) -> Ext4Result<()> {
        let mut state = self.state.borrow_mut();
        state.device_flushes += 1;
        if state.device_fails {
            Err(Ext4Error::new(70, Some("disk")))
        } else {
            Ok(())
        }
    }
}

/// An open inode.
struct Handle {
    ino: u32,
    state: Shared,
}

impl Drop for Handle {
    fn drop(&mut self) {
        let mut state = self.state.borrow_mut();
        state.open -= 1;
        let requests = state.log.len();
        state.closed.push((self.ino, requests));
    }
}

struct Entry {
    dir: Handle,
    name: String,
}

struct Memory {
    state: Shared,
}

fn status(code: i32, context: &'static str) -> Ext4Result<()> {
    if code == 0 {
        Ok(())
    } else {
        Err(Ext4Error::new(code, Some(context)))
    }
}

impl Memory {
    fn handle(&self, ino: u32) -> Handle {
        self.state.borrow_mut().open += 1;
        Handle { ino, state: self.state.clone() }
    }
}

impl Backend<Disk> for Memory {
    type Inode = Handle;
    type Entry = Entry;
    type Reader = (Handle, u64);

    fn call(&mut self, bdev: &mut Ext4BlockDevice<Disk>, call: LibCall) -> i32 {
        if let LibCall::BlockInit(_) = call {
            assert!(matches!(bdev.dev_open(), Ok(0)));
        }
        self.state.borrow_mut().note(format!("{:?}", call))
    }

    fn superblock(&mut self) -> Superblock {
        self.state.borrow_mut().note("superblock".to_string());
        Superblock::new(raw_superblock(self.state.borrow().free_inodes)).unwrap()
    }

    fn cache_item_size(&mut self) -> u32 {
        self.state.borrow_mut().note("item size".to_string());
        self.state.borrow().item_size
    }

    fn open(&mut self, _bdev: &mut Ext4BlockDevice<Disk>, ino: u32) -> Result<Handle, i32> {
        let code = self.state.borrow_mut().note(format!("open {}", ino));
        if code != 0 {
            return Err(code);
        }
        if !self.state.borrow().nodes.contains_key(&ino) {
            return Err(ENOENT);
        }
        Ok(self.handle(ino))
    }

    fn allocate(
        &mut self,
        _bdev: &mut Ext4BlockDevice<Disk>,
        entry_type: u32,
    ) -> Result<(u32, Handle), i32> {
        let code = self.state.borrow_mut().note(format!("allocate {}", entry_type));
        if code != 0 {
            return Err(code);
        }
        let ty = match entry_type {
            0 => InodeType::Unknown,
            1 => InodeType::RegularFile,
            2 => InodeType::Directory,
            3 => InodeType::CharacterDevice,
            4 => InodeType::BlockDevice,
            5 => InodeType::Fifo,
            6 => InodeType::Socket,
            7 => InodeType::Symlink,
            _ => panic!("no such type"),
        };
        let ino = {
            let mut state = self.state.borrow_mut();
            let ino = state.next;
            state.next += 1;
            let node =
                Node { ty, links: 0, mode: 0o170777, entries: BTreeMap::new(), data: vec![] };
            state.nodes.insert(ino, node);
            state.free_inodes -= 1;
            ino
        };
        Ok((ino, self.handle(ino)))
    }

    fn inode_type(&mut self, inode: &Handle) -> InodeType {
        let mut state = self.state.borrow_mut();
        state.note(format!("type {}", inode.ino));
        state.node(inode.ino).ty
    }

    fn field(&mut self, inode: &Handle, field: Field) -> u32 {
        let mut state = self.state.borrow_mut();
        state.note(format!("{:?} {}", field, inode.ino));
        match field {
            Field::Nlink => state.node(inode.ino).links,
            Field::Mode => state.node(inode.ino).mode,
        }
    }

    fn touch(&mut self, _bdev: &mut Ext4BlockDevice<Disk>, inode: &mut Handle, touch: Touch) {
        let mut state = self.state.borrow_mut();
        state.note(format!("{:?} {}", touch, inode.ino));
        match touch {
            Touch::SetMode(mode) => state.node(inode.ino).mode = mode,
            Touch::IncNlink => state.node(inode.ino).links += 1,
            Touch::DecNlink => state.node(inode.ino).links -= 1,
            Touch::Free => {
                state.nodes.remove(&inode.ino);
                state.free_inodes += 1;
            }
            Touch::BlocksInit | Touch::SetDelTime(_) | Touch::MarkDirty => {}
        }
    }

    fn change(
        &mut self,
        _bdev: &mut Ext4BlockDevice<Disk>,
        inode: &mut Handle,
        change: Change<'_>,
    ) -> Ext4Result<()> {
        let mut state = self.state.borrow_mut();
        let code = state.note(format!("{:?} {}", change, inode.ino));
        status(code, "change")?;
        match change {
            Change::SetLen(len) => state.node(inode.ino).data.resize(len as usize, 0),
            Change::Truncate(len) => state.node(inode.ino).data.truncate(len as usize),
            Change::SetSymlink(target) => state.node(inode.ino).data = target.to_vec(),
        }
        Ok(())
    }

    fn entry(
        &mut self,
        _bdev: &mut Ext4BlockDevice<Disk>,
        op: EntryOp,
        dir: &mut Handle,
        name: &str,
        child: &mut Handle,
    ) -> Ext4Result<()> {
        let mut state = self.state.borrow_mut();
        let code = state.note(format!("{:?} {} {} {}", op, dir.ino, name, child.ino));
        status(code, "entry")?;
        match op {
            EntryOp::Add => {
                state.node(dir.ino).entries.insert(name.to_string(), child.ino);
                if !state.miscount {
                    state.node(child.ino).links += 1;
                }
            }
            EntryOp::Remove => {
                assert_eq!(state.node(dir.ino).entries.remove(name), Some(child.ino));
                state.node(child.ino).links -= 1;
            }
        }
        Ok(())
    }

    fn has_children(
        &mut self,
        _bdev: &mut Ext4BlockDevice<Disk>,
        inode: &mut Handle,
    ) -> Ext4Result<bool> {
        let mut state = self.state.borrow_mut();
        let code = state.note(format!("children {}", inode.ino));
        status(code, "children")?;
        Ok(state.node(inode.ino).entries.keys().any(|name| name != "." && name != ".."))
    }

    fn lookup(
        &mut self,
        _bdev: &mut Ext4BlockDevice<Disk>,
        dir: Handle,
        name: &str,
    ) -> Ext4Result<(u32, Entry)> {
        let (code, ino) = {
            let mut state = self.state.borrow_mut();
            let code = state.note(format!("lookup {} {}", dir.ino, name));
            (code, state.node(dir.ino).entries.get(name).copied())
        };
        status(code, "lookup")?;
        match ino {
            Some(ino) => Ok((ino, Entry { dir, name: name.to_string() })),
            None => Err(Ext4Error::new(ENOENT, Some("lookup"))),
        }
    }

    fn redirect(&mut self, _bdev: &mut Ext4BlockDevice<Disk>, entry: &mut Entry, ino: u32) {
        let mut state = self.state.borrow_mut();
        state.note(format!("redirect {} {} {}", entry.dir.ino, entry.name, ino));
        state.node(entry.dir.ino).entries.insert(entry.name.clone(), ino);
    }

    fn read_dir(
        &mut self,
        _bdev: &mut Ext4BlockDevice<Disk>,
        dir: Handle,
        offset: u64,
    ) -> Ext4Result<(Handle, u64)> {
        let code = self.state.borrow_mut().note(format!("read_dir {} {}", dir.ino, offset));
        status(code, "read_dir")?;
        Ok((dir, offset))
    }

    fn read_at(
        &mut self,
        _bdev: &mut Ext4BlockDevice<Disk>,
        inode: &mut Handle,
        buf: &mut [u8],
        offset: u64,
    ) -> Ext4Result<usize> {
        let mut state = self.state.borrow_mut();
        let code = state.note(format!("read_at {} {} {}", inode.ino, buf.len(), offset));
        status(code, "read_at")?;
        let data = &state.node(inode.ino).data;
        let start = data.len().min(offset as usize);
        let end = data.len().min(start + buf.len());
        buf[..end - start].copy_from_slice(&data[start..end]);
        Ok(end - start)
    }

    fn write_at(
        &mut self,
        _bdev: &mut Ext4BlockDevice<Disk>,
        inode: &mut Handle,
        buf: &[u8],
        offset: u64,
    ) -> Ext4Result<usize> {
        let mut state = self.state.borrow_mut();
        let code = state.note(format!("write_at {} {:?} {}", inode.ino, buf, offset));
        status(code, "write_at")?;
        let start = offset as usize;
        let data = &mut state.node(inode.ino).data;
        if data.len() < start + buf.len() {
            data.resize(start + buf.len(), 0);
        }
        data[start..start + buf.len()].copy_from_slice(buf);
        Ok(buf.len())
    }

    fn attributes(&mut self, _bdev: &mut Ext4BlockDevice<Disk>, inode: &Handle) -> FileAttr {
        let mut state = self.state.borrow_mut();
        state.note(format!("attributes {}", inode.ino));
        let node = state.node(inode.ino);
        FileAttr {
            nlink: node.links,
            mode: node.mode,
            node_type: node.ty,
            size: node.data.len() as u64,
            ..no_attr()
        }
    }
}

fn no_attr() -> FileAttr {
    FileAttr {
        device: 0,
        nlink: 0,
        mode: 0,
        node_type: InodeType::Unknown,
        uid: 0,
        gid: 0,
        size: 0,
        block_size: 0,
        blocks: 0,
        atime: Duration::from_secs(0),
        mtime: Duration::from_secs(0),
        ctime: Duration::from_secs(0),
    }
}

type Fs = Ext4Filesystem<DummyHal, Disk, Memory>;

fn try_mount(state: &Shared) -> Result<Fs, MountError> {
    let driver = Driver::new(Memory { state: state.clone() });
    let disk = Disk { state: state.clone() };
    match Fs::new(disk, FsConfig { bcache_size: 16 }, driver) {
        Ok(fs) => Ok(fs),
        Err((_driver, error)) => Err(error),
    }
}

fn mount(state: &Shared) -> Fs {
    let fs = try_mount(state).unwrap();
    state.borrow_mut().log.clear();
    fs
}

fn take_log(state: &Shared) -> Vec<String> {
    assert_eq!(state.borrow().open, 0);
    std::mem::take(&mut state.borrow_mut().log)
}

fn links(state: &Shared, ino: u32) -> u32 {
    state.borrow_mut().node(ino).links
}

fn entry(state: &Shared, dir: u32, name: &str) -> Option<u32> {
    state.borrow_mut().node(dir).entries.get(name).copied()
}

fn error(code: i32, context: &'static str) -> Ext4Error {
    Ext4Error::new(code, Some(context))
}

fn failed(code: i32, context: &'static str) -> Failure {
    Failure::Error(error(code, context))
}

const OPEN: &str = "ext4_fs_get_inode_ref";

#[test]
fn dummy_hal_has_no_clock() {
    assert_eq!(DummyHal::now(), None);
}

#[test]
fn default_config() {
    assert_eq!(FsConfig::default().bcache_size, 8);
}

#[test]
fn create_file() {
    let state = empty_tree();
    let mut fs = mount(&state);
    assert_eq!(fs.create(ROOT, "a", InodeType::RegularFile, 0o7644), Ok(11));
    assert_eq!(
        take_log(&state),
        vec![
            "allocate 1",
            "BlocksInit 11",
            "open 2",
            "Add 2 a 11",
            "Mode 11",
            "SetMode(61860) 11"
        ]
    );
    assert_eq!(61860, 0o170644);
    assert_eq!(links(&state, 11), 1);
    assert_eq!(links(&state, ROOT), 2);
    assert_eq!(entry(&state, ROOT, "a"), Some(11));
}

#[test]
fn create_directory() {
    let state = empty_tree();
    let mut fs = mount(&state);
    assert_eq!(fs.create(ROOT, "d", InodeType::Directory, 0o700), Ok(11));
    assert_eq!(
        take_log(&state),
        vec![
            "allocate 2",
            "BlocksInit 11",
            "open 2",
            "Add 2 d 11",
            "open 11",
            "Add 11 . 11",
            "Add 11 .. 2",
            "Nlink 11",
            "Mode 11",
            "SetMode(61888) 11"
        ]
    );
    assert_eq!(61888, 0o170700);
    assert_eq!(links(&state, 11), 2);
    assert_eq!(links(&state, ROOT), 3);
    assert_eq!(entry(&state, 11, "."), Some(11));
    assert_eq!(entry(&state, 11, ".."), Some(ROOT));
}

#[test]
fn create_directory_closes_in_order() {
    let state = empty_tree();
    let mut fs = mount(&state);
    state.borrow_mut().closed.clear();
    fs.create(ROOT, "d", InodeType::Directory, 0o700).unwrap();
    // The second handle goes right after `.` was added, the parent before the new inode.
    assert_eq!(state.borrow().closed, vec![(11, 6), (ROOT, 10), (11, 10)]);
}

#[test]
fn create_every_type() {
    let state = empty_tree();
    let mut fs = mount(&state);
    let types = [
        (InodeType::Unknown, "allocate 0"),
        (InodeType::RegularFile, "allocate 1"),
        (InodeType::Directory, "allocate 2"),
        (InodeType::CharacterDevice, "allocate 3"),
        (InodeType::BlockDevice, "allocate 4"),
        (InodeType::Fifo, "allocate 5"),
        (InodeType::Socket, "allocate 6"),
        (InodeType::Symlink, "allocate 7"),
    ];
    for (k, (ty, request)) in types.into_iter().enumerate() {
        let name = format!("n{}", k);
        assert_eq!(fs.create(ROOT, &name, ty, 0), Ok(11 + k as u32));
        assert_eq!(take_log(&state)[0], request);
    }
}

#[test]
fn create_fails() {
    let state = empty_tree();
    let mut fs = mount(&state);
    state.borrow_mut().fail("allocate", 0, 28);
    assert_eq!(fs.create(ROOT, "a", InodeType::RegularFile, 0), Err(failed(28, OPEN)));
    assert_eq!(take_log(&state), vec!["allocate 1"]);

    state.borrow_mut().faults.clear();
    assert_eq!(fs.create(99, "a", InodeType::RegularFile, 0), Err(failed(ENOENT, OPEN)));
    assert_eq!(take_log(&state), vec!["allocate 1", "BlocksInit 11", "open 99"]);

    state.borrow_mut().fail("Add 2", 0, 28);
    assert_eq!(fs.create(ROOT, "a", InodeType::Directory, 0), Err(failed(28, "entry")));
    state.borrow_mut().fail("Add 13 .", 0, 29);
    state.borrow_mut().faults.remove(0);
    assert_eq!(fs.create(ROOT, "a", InodeType::Directory, 0), Err(failed(29, "entry")));
    state.borrow_mut().faults.clear();
    state.borrow_mut().fail("Add 14 ..", 0, 30);
    assert_eq!(fs.create(ROOT, "b", InodeType::Directory, 0), Err(failed(30, "entry")));
    take_log(&state);
}

#[test]
fn create_that_fails_leaves_the_rest() {
    let state = empty_tree();
    let mut fs = mount(&state);
    fs.create(ROOT, "f", InodeType::RegularFile, 0o644).unwrap();
    let before = state.borrow().nodes.clone();
    // The new inode never gets its name.
    state.borrow_mut().fail("Add 2 d", 0, 28);
    assert_eq!(fs.create(ROOT, "d", InodeType::Directory, 0), Err(failed(28, "entry")));
    let left = state.borrow_mut().nodes.remove(&12).unwrap();
    assert_eq!(left.links, 0);
    assert_eq!(state.borrow().nodes, before);
    // The new directory has its name, but no `..`.
    state.borrow_mut().faults.clear();
    state.borrow_mut().fail("Add 13 ..", 0, 28);
    assert_eq!(fs.create(ROOT, "d", InodeType::Directory, 0), Err(failed(28, "entry")));
    assert!(state.borrow_mut().nodes.remove(&13).is_some());
    assert_eq!(state.borrow_mut().node(ROOT).entries.remove("d"), Some(13));
    assert_eq!(state.borrow().nodes, before);
}

#[test]
fn create_stops_on_wrong_link_count() {
    let state = empty_tree();
    let mut fs = mount(&state);
    state.borrow_mut().miscount = true;
    assert_eq!(
        fs.create(ROOT, "d", InodeType::Directory, 0),
        Err(Failure::Broken("a new directory must have two links"))
    );
    assert_eq!(take_log(&state).last().unwrap(), "Nlink 11");
}

#[test]
fn create_stops_when_clone_fails() {
    let state = empty_tree();
    let mut fs = mount(&state);
    state.borrow_mut().fail("open 11", 0, 5);
    assert_eq!(
        fs.create(ROOT, "d", InodeType::Directory, 0),
        Err(Failure::Broken("inode ref clone failed"))
    );
    take_log(&state);
}

#[test]
fn lookup_finds_created() {
    let state = empty_tree();
    let mut fs = mount(&state);
    let ino = fs.create(ROOT, "a", InodeType::RegularFile, 0o644).unwrap();
    take_log(&state);
    let found = fs.lookup(ROOT, "a").unwrap();
    assert_eq!(found.ino(), ino);
    let inner = found.into_inner();
    assert_eq!(inner.dir.ino, ROOT);
    assert_eq!(inner.name, "a");
    drop(inner);
    assert_eq!(take_log(&state), vec!["open 2", "lookup 2 a"]);
    assert_eq!(fs.lookup(ROOT, "b").err(), Some(error(ENOENT, "lookup")));
    assert_eq!(fs.lookup(98, "b").err(), Some(error(ENOENT, OPEN)));
}

#[test]
fn link_counts() {
    let state = empty_tree();
    let mut fs = mount(&state);
    fs.create(ROOT, "a", InodeType::RegularFile, 0o644).unwrap();
    let before = state.borrow().nodes.clone();
    take_log(&state);
    assert_eq!(fs.link(ROOT, "b", 11), Ok(()));
    assert_eq!(take_log(&state), vec!["open 11", "type 11", "open 2", "Add 2 b 11"]);
    assert_eq!(links(&state, 11), 2);
    assert_eq!(entry(&state, ROOT, "b"), Some(11));
    // Unlinking undoes it.
    assert_eq!(fs.unlink(ROOT, "b"), Ok(()));
    assert_eq!(state.borrow().nodes, before);
}

#[test]
fn link_refuses_directories() {
    let state = empty_tree();
    let mut fs = mount(&state);
    fs.create(ROOT, "d", InodeType::Directory, 0).unwrap();
    take_log(&state);
    assert_eq!(fs.link(ROOT, "e", 11), Err(error(EISDIR, "cannot link to directory")));
    assert_eq!(take_log(&state), vec!["open 11", "type 11"]);
    assert_eq!(EISDIR, 21);
}

#[test]
fn link_fails() {
    let state = empty_tree();
    let mut fs = mount(&state);
    assert_eq!(fs.link(ROOT, "e", 50), Err(error(ENOENT, OPEN)));
    fs.create(ROOT, "a", InodeType::RegularFile, 0).unwrap();
    assert_eq!(fs.link(51, "e", 11), Err(error(ENOENT, OPEN)));
    state.borrow_mut().fail("Add", 0, 31);
    assert_eq!(fs.link(ROOT, "e", 11), Err(error(31, "entry")));
    take_log(&state);
}

#[test]
fn unlink_last_link_frees() {
    let state = empty_tree();
    let mut fs = mount(&state);
    let before = state.borrow().nodes.clone();
    fs.create(ROOT, "a", InodeType::RegularFile, 0o644).unwrap();
    take_log(&state);
    assert_eq!(fs.unlink(ROOT, "a"), Ok(()));
    assert_eq!(
        take_log(&state),
        vec![
            "open 2",
            "open 2",
            "lookup 2 a",
            "open 11",
            "open 11",
            "children 11",
            "type 11",
            "Remove 2 a 11",
            "type 11",
            "Nlink 11",
            "Truncate(0) 11",
            "SetDelTime(4294967295) 11",
            "MarkDirty 11",
            "Free 11"
        ]
    );
    assert_eq!(state.borrow().nodes, before);
}

#[test]
fn unlink_empty_directory() {
    let state = empty_tree();
    let mut fs = mount(&state);
    let before = state.borrow().nodes.clone();
    fs.create(ROOT, "d", InodeType::Directory, 0o755).unwrap();
    take_log(&state);
    assert_eq!(fs.unlink(ROOT, "d"), Ok(()));
    assert_eq!(
        take_log(&state),
        vec![
            "open 2",
            "open 2",
            "lookup 2 d",
            "open 11",
            "open 11",
            "children 11",
            "type 11",
            "superblock",
            "Truncate(4096) 11",
            "Remove 2 d 11",
            "type 11",
            "DecNlink 2",
            "DecNlink 11",
            "Nlink 11",
            "Truncate(0) 11",
            "SetDelTime(4294967295) 11",
            "MarkDirty 11",
            "Free 11"
        ]
    );
    assert_eq!(state.borrow().nodes, before);
}

#[test]
fn unlink_keeps_children() {
    let state = empty_tree();
    let mut fs = mount(&state);
    fs.create(ROOT, "d", InodeType::Directory, 0).unwrap();
    fs.create(11, "a", InodeType::RegularFile, 0).unwrap();
    let before = state.borrow().nodes.clone();
    take_log(&state);
    assert_eq!(
        fs.unlink(ROOT, "d"),
        Err(Failure::Error(Ext4Error { code: ENOTEMPTY, context: None }))
    );
    assert_eq!(take_log(&state).last().unwrap(), "children 11");
    assert_eq!(state.borrow().nodes, before);
}

#[test]
fn unlink_fails() {
    let state = empty_tree();
    let mut fs = mount(&state);
    assert_eq!(fs.unlink(77, "a"), Err(failed(ENOENT, OPEN)));
    assert_eq!(fs.unlink(ROOT, "a"), Err(failed(ENOENT, "lookup")));
    fs.create(ROOT, "a", InodeType::RegularFile, 0).unwrap();
    fs.create(ROOT, "d", InodeType::Directory, 0).unwrap();
    let before = state.borrow().nodes.clone();
    let broken = Err(Failure::Broken("inode ref clone failed"));
    let cases = [
        ("open 2", 1, "a", broken),
        ("open 11", 0, "a", Err(failed(5, OPEN))),
        ("open 11", 1, "a", broken),
        ("children", 0, "a", Err(failed(5, "children"))),
        ("Truncate(4096)", 0, "d", Err(failed(5, "change"))),
        ("Remove", 0, "a", Err(failed(5, "entry"))),
    ];
    for (request, after, name, result) in cases {
        state.borrow_mut().fail(request, after, 5);
        assert_eq!(fs.unlink(ROOT, name), result);
        assert_eq!(state.borrow().nodes, before);
        state.borrow_mut().faults.clear();
    }
    state.borrow_mut().fail("Truncate(0)", 0, 5);
    assert_eq!(fs.unlink(ROOT, "a"), Err(failed(5, "change")));
    take_log(&state);
}

#[test]
fn rename_to_free_name() {
    let state = empty_tree();
    let mut fs = mount(&state);
    fs.create(ROOT, "a", InodeType::RegularFile, 0).unwrap();
    let before = state.borrow().nodes.clone();
    take_log(&state);
    assert_eq!(fs.rename(ROOT, "a", ROOT, "b"), Ok(()));
    assert_eq!(
        take_log(&state),
        vec![
            "open 2",
            "open 2",
            "open 2",
            "open 2",
            "lookup 2 b",
            "open 2",
            "lookup 2 a",
            "open 11",
            "type 11",
            "Remove 2 a 11",
            "Add 2 b 11"
        ]
    );
    assert_eq!(entry(&state, ROOT, "a"), None);
    assert_eq!(entry(&state, ROOT, "b"), Some(11));
    assert_eq!(fs.lookup(ROOT, "b").map(|found| found.ino()).unwrap(), 11);
    assert_eq!(fs.rename(ROOT, "b", ROOT, "a"), Ok(()));
    assert_eq!(state.borrow().nodes, before);
}

#[test]
fn rename_replaces() {
    let state = empty_tree();
    let mut fs = mount(&state);
    fs.create(ROOT, "a", InodeType::RegularFile, 0).unwrap();
    fs.create(ROOT, "b", InodeType::RegularFile, 0).unwrap();
    assert_eq!(fs.rename(ROOT, "a", ROOT, "b"), Ok(()));
    assert_eq!(entry(&state, ROOT, "a"), None);
    assert_eq!(entry(&state, ROOT, "b"), Some(11));
    assert!(!state.borrow().nodes.contains_key(&12));
    assert_eq!(links(&state, 11), 1);
}

#[test]
fn rename_moves_directory() {
    let state = empty_tree();
    let mut fs = mount(&state);
    fs.create(ROOT, "d", InodeType::Directory, 0).unwrap();
    fs.create(ROOT, "e", InodeType::Directory, 0).unwrap();
    let before = state.borrow().nodes.clone();
    take_log(&state);
    assert_eq!(fs.rename(ROOT, "d", 12, "f"), Ok(()));
    let log = take_log(&state);
    assert_eq!(
        log[7..],
        [
            "open 11",
            "type 11",
            "open 11",
            "lookup 11 ..",
            "redirect 11 .. 12",
            "DecNlink 2",
            "IncNlink 12",
            "Remove 2 d 11",
            "Add 12 f 11"
        ]
    );
    assert_eq!(links(&state, ROOT), 3);
    assert_eq!(links(&state, 12), 3);
    assert_eq!(links(&state, 11), 2);
    assert_eq!(entry(&state, 11, ".."), Some(12));
    assert_eq!(fs.rename(12, "f", ROOT, "d"), Ok(()));
    assert_eq!(state.borrow().nodes, before);
}

#[test]
fn rename_keeps_children() {
    let state = empty_tree();
    let mut fs = mount(&state);
    fs.create(ROOT, "d", InodeType::Directory, 0).unwrap();
    fs.create(11, "x", InodeType::RegularFile, 0).unwrap();
    fs.create(ROOT, "e", InodeType::Directory, 0).unwrap();
    let before = state.borrow().nodes.clone();
    assert_eq!(
        fs.rename(ROOT, "e", ROOT, "d"),
        Err(Failure::Error(Ext4Error { code: ENOTEMPTY, context: None }))
    );
    assert_eq!(state.borrow().nodes, before);
}

#[test]
fn rename_of_nothing_still_unlinks() {
    let state = empty_tree();
    let mut fs = mount(&state);
    fs.create(ROOT, "b", InodeType::RegularFile, 0).unwrap();
    assert_eq!(fs.rename(ROOT, "a", ROOT, "b"), Err(failed(ENOENT, "lookup")));
    assert_eq!(entry(&state, ROOT, "b"), None);
    fs.create(ROOT, "c", InodeType::RegularFile, 0).unwrap();
    assert_eq!(fs.rename(ROOT, "c", ROOT, "c"), Err(failed(ENOENT, "lookup")));
    assert_eq!(entry(&state, ROOT, "c"), None);
    // The directory of the missing entry can be what is unlinked.
    let dir = fs.create(ROOT, "d", InodeType::Directory, 0).unwrap();
    assert_eq!(fs.rename(dir, "a", ROOT, "d"), Err(failed(ENOENT, OPEN)));
    assert_eq!(entry(&state, ROOT, "d"), None);
}

#[test]
fn rename_fails() {
    let state = empty_tree();
    let mut fs = mount(&state);
    fs.create(ROOT, "a", InodeType::RegularFile, 0).unwrap();
    fs.create(ROOT, "d", InodeType::Directory, 0).unwrap();
    assert_eq!(fs.rename(60, "a", ROOT, "b"), Err(failed(ENOENT, OPEN)));
    assert_eq!(fs.rename(ROOT, "a", 61, "b"), Err(failed(ENOENT, OPEN)));
    let broken = Err(Failure::Broken("inode ref clone failed"));
    let cases = [
        ("open 2", 3, "a", broken),
        ("lookup 2 b", 0, "a", Err(failed(5, "lookup"))),
        ("lookup 2 a", 0, "a", Err(failed(5, "lookup"))),
        ("open 11", 0, "a", Err(failed(5, OPEN))),
        ("open 12", 1, "d", broken),
        ("lookup 12 ..", 0, "d", Err(failed(5, "lookup"))),
        ("Remove", 0, "a", Err(failed(5, "entry"))),
        ("Add", 0, "a", Err(failed(5, "entry"))),
    ];
    for (request, after, name, result) in cases {
        state.borrow_mut().fail(request, after, 5);
        assert_eq!(fs.rename(ROOT, name, ROOT, "b"), result);
        state.borrow_mut().faults.clear();
        take_log(&state);
    }
}

#[test]
fn rename_that_fails_leaves_the_rest() {
    let state = empty_tree();
    let mut fs = mount(&state);
    fs.create(ROOT, "a", InodeType::RegularFile, 0).unwrap();
    fs.create(ROOT, "b", InodeType::RegularFile, 0).unwrap();
    let before = state.borrow().nodes.clone();
    // What has the new name cannot be unlinked.
    state.borrow_mut().fail("Remove 2 b", 0, 5);
    assert_eq!(fs.rename(ROOT, "a", ROOT, "b"), Err(failed(5, "entry")));
    assert_eq!(state.borrow().nodes, before);
    state.borrow_mut().faults.clear();
    // It can be unlinked but not freed.
    state.borrow_mut().fail("Truncate", 0, 6);
    assert_eq!(fs.rename(ROOT, "a", ROOT, "b"), Err(failed(6, "change")));
    assert_eq!(entry(&state, ROOT, "a"), Some(11));
    assert_eq!(entry(&state, ROOT, "b"), None);
    assert_eq!(links(&state, 12), 0);
    state.borrow_mut().faults.clear();
    // The entry is in neither place when the last request fails.
    state.borrow_mut().fail("Add", 0, 7);
    assert_eq!(fs.rename(ROOT, "a", ROOT, "b"), Err(failed(7, "entry")));
    assert_eq!(entry(&state, ROOT, "a"), None);
    assert_eq!(entry(&state, ROOT, "b"), None);
    assert_eq!(links(&state, 11), 0);
}

#[test]
fn rename_that_fails_may_have_turned_a_directory() {
    let state = empty_tree();
    let mut fs = mount(&state);
    fs.create(ROOT, "d", InodeType::Directory, 0).unwrap();
    fs.create(ROOT, "e", InodeType::Directory, 0).unwrap();
    state.borrow_mut().fail("Remove 2 d", 0, 5);
    assert_eq!(fs.rename(ROOT, "d", 12, "f"), Err(failed(5, "entry")));
    assert_eq!(entry(&state, ROOT, "d"), Some(11));
    assert_eq!(entry(&state, 11, ".."), Some(12));
    assert_eq!(links(&state, ROOT), 3);
    assert_eq!(links(&state, 12), 3);
}

#[test]
fn reading_and_writing() {
    let state = empty_tree();
    let mut fs = mount(&state);
    fs.create(ROOT, "a", InodeType::RegularFile, 0o600).unwrap();
    take_log(&state);
    assert_eq!(fs.write_at(11, b"hello", 1), Ok(5));
    assert_eq!(take_log(&state), vec!["open 11", "write_at 11 [104, 101, 108, 108, 111] 1"]);
    let mut buf = [9u8; 8];
    assert_eq!(fs.read_at(11, &mut buf, 2), Ok(4));
    assert_eq!(&buf, b"ello\x09\x09\x09\x09");
    assert_eq!(take_log(&state), vec!["open 11", "read_at 11 8 2"]);
    assert_eq!(fs.set_len(11, 3), Ok(()));
    assert_eq!(take_log(&state), vec!["open 11", "SetLen(3) 11"]);
    assert_eq!(fs.set_symlink(11, b"to"), Ok(()));
    assert_eq!(take_log(&state), vec!["open 11", "SetSymlink([116, 111]) 11"]);
    let mut attr = no_attr();
    assert_eq!(fs.get_attr(11, &mut attr), Ok(()));
    assert_eq!(take_log(&state), vec!["open 11", "attributes 11"]);
    assert_eq!(attr.size, 2);
    assert_eq!(attr.nlink, 1);
    assert_eq!(attr.mode, 0o170600);
    assert_eq!(attr.node_type, InodeType::RegularFile);
    let (dir, offset) = fs.read_dir(ROOT, 24).ok().unwrap();
    assert_eq!((dir.ino, offset), (ROOT, 24));
    drop(dir);
    assert_eq!(take_log(&state), vec!["open 2", "read_dir 2 24"]);
}

#[test]
fn reading_and_writing_fails() {
    let state = empty_tree();
    let mut fs = mount(&state);
    let mut buf = [9u8; 4];
    let mut attr = no_attr();
    let no_inode = error(ENOENT, OPEN);
    assert_eq!(fs.write_at(40, b"x", 0), Err(no_inode));
    assert_eq!(fs.read_at(40, &mut buf, 0), Err(no_inode));
    assert_eq!(buf, [9u8; 4]);
    assert_eq!(fs.set_len(40, 0), Err(no_inode));
    assert_eq!(fs.set_symlink(40, b"x"), Err(no_inode));
    assert_eq!(fs.get_attr(40, &mut attr), Err(no_inode));
    assert_eq!(attr.node_type, InodeType::Unknown);
    assert_eq!(fs.read_dir(40, 0).err(), Some(no_inode));
    assert_eq!(take_log(&state), vec!["open 40"; 6]);
    for request in ["write_at", "read_at", "SetLen", "SetSymlink", "read_dir"] {
        state.borrow_mut().fail(request, 0, 5);
    }
    assert_eq!(fs.write_at(ROOT, b"x", 0), Err(error(5, "write_at")));
    assert_eq!(fs.read_at(ROOT, &mut buf, 0), Err(error(5, "read_at")));
    assert_eq!(fs.set_len(ROOT, 0), Err(error(5, "change")));
    assert_eq!(fs.set_symlink(ROOT, b"x"), Err(error(5, "change")));
    assert_eq!(fs.read_dir(ROOT, 0).err(), Some(error(5, "read_dir")));
}

#[test]
fn with_inode_ref_hands_the_inode_over() {
    let state = empty_tree();
    let mut fs = mount(&state);
    assert_eq!(fs.with_inode_ref(ROOT, |inode| Ok(inode.ino + 1)), Ok(3));
    assert_eq!(take_log(&state), vec!["open 2"]);
    let refused: Ext4Result<u32> = fs.with_inode_ref(ROOT, |_| Err(error(1, "f")));
    assert_eq!(refused, Err(error(1, "f")));
    let mut called = false;
    let missing = fs.with_inode_ref(44, |_| {
        called = true;
        Ok(())
    });
    assert_eq!(missing, Err(error(ENOENT, OPEN)));
    assert!(!called);
}

#[test]
fn stat_reads_the_superblock() {
    let state = empty_tree();
    let mut fs = mount(&state);
    let stat = fs.stat().unwrap();
    assert_eq!(stat.inodes_count, 65536);
    assert_eq!(stat.free_inodes_count, 65525);
    assert_eq!(stat.blocks_count, 0x3_0000_0007);
    assert_eq!(stat.free_blocks_count, 0x1_ffff_ffff);
    assert_eq!(stat.block_size, 4096);
    assert_eq!(take_log(&state), vec!["superblock"]);
}

#[test]
fn stat_agrees_with_itself() {
    let state = empty_tree();
    let mut fs = mount(&state);
    let first = fs.stat().unwrap();
    let second = fs.stat().unwrap();
    assert_eq!(first.free_inodes_count, second.free_inodes_count);
    assert_eq!(first.free_blocks_count, second.free_blocks_count);
    assert_eq!(first.blocks_count, second.blocks_count);
}

#[test]
fn free_inodes_are_counted() {
    let state = empty_tree();
    let mut fs = mount(&state);
    let free = |fs: &mut Fs| fs.stat().unwrap().free_inodes_count;
    assert_eq!(free(&mut fs), 65525);
    fs.create(ROOT, "a", InodeType::RegularFile, 0).unwrap();
    fs.create(ROOT, "d", InodeType::Directory, 0).unwrap();
    assert_eq!(free(&mut fs), 65523);
    fs.link(ROOT, "b", 11).unwrap();
    assert_eq!(free(&mut fs), 65523);
    fs.unlink(ROOT, "b").unwrap();
    assert_eq!(free(&mut fs), 65523);
    fs.unlink(ROOT, "a").unwrap();
    assert_eq!(free(&mut fs), 65524);
    fs.unlink(ROOT, "d").unwrap();
    assert_eq!(free(&mut fs), 65525);
}

#[test]
fn written_bytes_read_back() {
    let state = empty_tree();
    let mut fs = mount(&state);
    fs.create(ROOT, "a", InodeType::RegularFile, 0).unwrap();
    fs.create(ROOT, "b", InodeType::RegularFile, 0).unwrap();
    assert_eq!(fs.write_at(11, b"first", 3), Ok(5));
    assert_eq!(fs.write_at(12, b"other", 3), Ok(5));
    let mut buf = [1u8; 5];
    assert_eq!(fs.read_at(11, &mut buf, 3), Ok(5));
    assert_eq!(&buf, b"first");
    let mut attr = no_attr();
    assert_eq!(fs.set_len(11, 10), Ok(()));
    assert_eq!(fs.get_attr(11, &mut attr), Ok(()));
    assert_eq!(attr.size, 10);
    let mut buf = [1u8; 12];
    assert_eq!(fs.read_at(11, &mut buf, 0), Ok(10));
    assert_eq!(&buf, b"\0\0\0first\0\0\x01\x01");
}

#[test]
fn flush_reaches_the_device() {
    let state = empty_tree();
    let mut fs = mount(&state);
    assert_eq!(fs.flush(), Ok(()));
    assert_eq!(take_log(&state), vec!["BlockCacheFlush"]);
    assert_eq!(state.borrow().device_flushes, 1);
    state.borrow_mut().device_fails = true;
    assert_eq!(fs.flush(), Err(error(70, "disk")));
    assert_eq!(state.borrow().device_flushes, 2);
    state.borrow_mut().fail("BlockCacheFlush", 0, 5);
    assert_eq!(fs.flush(), Err(error(5, "ext4_cache_flush")));
    assert_eq!(state.borrow().device_flushes, 2);
}

const BLOCK_INIT: &str =
    "BlockInit(DeviceLayout { ph_bsize: 512, ph_bcnt: 0, part_offset: 0, part_size: 0 })";

#[test]
fn new_sets_up() {
    let state = empty_tree();
    let mut fs = try_mount(&state).unwrap();
    assert_eq!(
        take_log(&state),
        vec![
            BLOCK_INIT,
            "BlockCacheWriteBack(1)",
            "FsInit { read_only: false }",
            "superblock",
            "BlockSetLbSize(4096)",
            "BcacheInitDynamic { count: 16, item_size: 4096 }",
            "item size",
            "AttachFs",
            "BlockBindBcache"
        ]
    );
    state.borrow_mut().fail("FsFini", 0, 17);
    assert_eq!(fs.close(), 17);
    assert_eq!(
        take_log(&state),
        vec!["FsFini", "BcacheCleanup", "BlockFini", "BcacheFiniDynamic", "BlockFini"]
    );
}

#[test]
fn new_takes_down_what_it_set_up() {
    let cases: [(&'static str, &'static str, &[&str]); 5] = [
        ("BlockInit", "ext4_block_init", &[BLOCK_INIT]),
        (
            "BlockCacheWriteBack",
            "ext4_block_cache_write_back",
            &[BLOCK_INIT, "BlockCacheWriteBack(1)", "BlockFini"],
        ),
        (
            "FsInit",
            "ext4_fs_init",
            &[
                BLOCK_INIT,
                "BlockCacheWriteBack(1)",
                "FsInit { read_only: false }",
                "BlockFini",
            ],
        ),
        (
            "BcacheInitDynamic",
            "ext4_bcache_init_dynamic",
            &[
                BLOCK_INIT,
                "BlockCacheWriteBack(1)",
                "FsInit { read_only: false }",
                "superblock",
                "BlockSetLbSize(4096)",
                "BcacheInitDynamic { count: 16, item_size: 4096 }",
                "BlockFini",
            ],
        ),
        (
            "BlockBindBcache",
            "ext4_block_bind_bcache",
            &[
                BLOCK_INIT,
                "BlockCacheWriteBack(1)",
                "FsInit { read_only: false }",
                "superblock",
                "BlockSetLbSize(4096)",
                "BcacheInitDynamic { count: 16, item_size: 4096 }",
                "item size",
                "AttachFs",
                "BlockBindBcache",
                "FsFini",
                "BcacheCleanup",
                "BlockFini",
                "BcacheFiniDynamic",
                "BlockFini",
            ],
        ),
    ];
    for (request, context, log) in cases {
        let state = empty_tree();
        state.borrow_mut().fail(request, 0, 12);
        let expected = MountError { error: error(12, context), unmount: 0 };
        assert_eq!(try_mount(&state).err(), Some(expected));
        assert_eq!(take_log(&state), log);
    }
}

#[test]
fn new_tells_how_unmounting_went() {
    let state = empty_tree();
    state.borrow_mut().fail("BlockBindBcache", 0, 12);
    state.borrow_mut().fail("FsFini", 0, 17);
    let expected = MountError { error: error(12, "ext4_block_bind_bcache"), unmount: 17 };
    assert_eq!(try_mount(&state).err(), Some(expected));
    assert_eq!(take_log(&state).last().unwrap(), "BlockFini");
}

#[test]
fn new_refuses_other_block_sizes() {
    let state = empty_tree();
    state.borrow_mut().item_size = 1024;
    let expected = MountError { error: error(ENOTSUP, "block size mismatch"), unmount: 0 };
    assert_eq!(try_mount(&state).err(), Some(expected));
    assert_eq!(take_log(&state)[6..], ["item size", "BlockFini"]);
    assert_eq!(ENOTSUP, 95);
}

#[test]
fn writeback_guard() {
    let state = empty_tree();
    let mut driver = Driver::new(Memory { state: state.clone() });
    let mut bdev = Ext4BlockDevice::new(Disk { state: state.clone() }, &mut driver).ok().unwrap();
    take_log(&state);
    let guard = WritebackGuard::new(&mut driver, &mut bdev);
    assert_eq!(take_log(&state), vec!["BlockCacheWriteBack(1)"]);
    assert_eq!(guard.driver.call(guard.bdev, LibCall::BlockCacheFlush), 0);
    assert_eq!(take_log(&state), vec!["BlockCacheFlush"]);
    guard.close();
    assert_eq!(take_log(&state), vec!["BlockCacheWriteBack(0)"]);
    bdev.close(&mut driver);
    assert_eq!(take_log(&state), vec!["BlockFini"]);
    assert_eq!(bdev.layout().part_size, 51200);
}
