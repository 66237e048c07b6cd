//! A user-space POSIX-style kernel personality: process-like isolation units
//! ("cages"), each with its own file-descriptor table and working directory,
//! share an in-memory filesystem tree and a socket descriptor surface.
//!
//! The filesystem metadata (inode table, directory tree, open-file
//! bookkeeping), the per-cage descriptor machinery (open/read/write/stat,
//! dup sharing, seek positions), and the socket descriptor state machine
//! (bind/connect/getsockname/getpeername) are implemented and verified here.
//! Host-side concerns (raw network sockets, on-disk persistence, logging
//! sinks) live outside the library.

pub mod cage;
pub mod comm;
pub mod filesystem;
pub mod fs_calls;
pub mod fs_constants;
pub mod laws;
pub mod misc;
pub mod net_calls;
pub mod timer;
