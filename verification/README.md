# pdfs_fuse

The decision core of an on-demand Proton Drive filesystem, verified with Verus, and the
daemon around it.

- `src/` is the library. It holds the inode tree and its sharing rules, the queue of
  writes that are still to be sent and how each lands on the remote, the listings of
  folders, the events of the remote, the control protocol, the modes of synced folders,
  and the order in which a mount starts and ends. Every verified function has a contract. What
  holds across functions is stated by the `law_*` proof functions.
- `tests/` runs the library on concrete values.
- `app/` performs what the library decides: FUSE sessions, the control socket, worker
  threads, files. The remote, the database and the content cache are traits there.

A sequence that waits for the outside is a machine in the library: it is told how the
last step went, and says what to do next.
