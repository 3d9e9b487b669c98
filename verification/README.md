# lwext4_fs

An ext4 filesystem over a block device, written in Rust and verified with Verus.

The on-disk format is handled by the lwext4 C library. This crate is the layer that turns file
operations (`create`, `link`, `unlink`, `rename`, `lookup`, `read_at`, ...) into requests to that
library, and that serves the library's calls to the block device.

## Layout

- `src/` is the verified library.
  - `fs.rs`: the filesystem. Each contract says exactly which requests an operation makes and
    what it answers, for every reply that may come back.
  - `blockdev.rs`: the block device and the callbacks on it.
  - `backend.rs`: the requests, as a trait. No method of it promises anything.
  - `request.rs`, `driver.rs`: the requests made of the backend, and their history (kept for
    proofs only). Each event in it is tied to a call of the backend: on which backend, device and
    handles, and what came back. All that is done to the backend and to the block device is in
    the history.
  - `protocol.rs`: the operations as runs of requests.
  - `tree.rs`, `contents.rs`, `counts.rs`: inodes and directories, the contents of inodes, and
    the superblock, as mathematical objects, and what a sound backend does to them.
  - `laws.rs`, `lemmas.rs`: what the operations then do: which names exist afterwards, that all
    link counts are right, what undoes what, what is read back, and what is left after a failure;
    and how a backend with contracts of its own is shown to be sound.
  - `superblock.rs`, `inode.rs`, `error.rs`: on-disk numbers, inode types and modes, status codes.
- `app/` makes the C calls. It closes the filesystem, the block device and the guard for delayed
  writes when they are dropped, logs errors of the device, and panics where the library reports
  that the filesystem is broken.
- `tests/` run the library against a backend in memory.
