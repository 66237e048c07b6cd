//! Flag bits, mode bits, device numbers and errno values used by the
//! filesystem syscalls, together with the small predicates the syscalls
//! test on them.

use vstd::prelude::*;

verus! {

// Access-mode bits of the `flags` argument to `open`.
pub const O_RDONLY: i32 = 0o0;
pub const O_WRONLY: i32 = 0o1;
pub const O_RDWR: i32 = 0o2;
/// Mask covering the three access modes above.
pub const O_RDWRFLAGS: i32 = 0o3;

pub const O_CREAT: i32 = 0o100;
pub const O_EXCL: i32 = 0o200;
pub const O_TRUNC: i32 = 0o1000;
pub const O_APPEND: i32 = 0o2000;

// File-type bits of an inode mode word.
pub const S_IFIFO: u32 = 0o010000;
pub const S_IFCHR: u32 = 0o020000;
pub const S_IFDIR: u32 = 0o040000;
pub const S_IFREG: u32 = 0o100000;
pub const S_IFSOCK: u32 = 0o140000;
/// Mask covering every file-type bit.
pub const S_FILETYPEFLAGS: u32 = 0o170000;

// Permission bits.
pub const S_IRWXA: u32 = 0o777;
pub const S_IRUSR: u32 = 0o400;
pub const S_IWUSR: u32 = 0o200;
pub const S_IXUSR: u32 = 0o100;

// `access` amode bits.
pub const F_OK: u32 = 0;
pub const X_OK: u32 = 1;
pub const W_OK: u32 = 2;
pub const R_OK: u32 = 4;

// `lseek` whence values.
pub const SEEK_SET: i32 = 0;
pub const SEEK_CUR: i32 = 1;
pub const SEEK_END: i32 = 2;

// Socket domains, types and options.
pub const AF_INET: i32 = 2;
pub const AF_INET6: i32 = 10;
pub const SOCK_STREAM: i32 = 1;
pub const SOCK_DGRAM: i32 = 2;
pub const SOL_SOCKET: i32 = 1;
pub const SO_REUSEPORT: i32 = 15;

pub const DEFAULT_UID: u32 = 1000;
pub const DEFAULT_GID: u32 = 1000;

/// Size bound of one cage's descriptor table.
pub const MAXFD: usize = 1024;

/// Inode number of the root directory.
pub const ROOTDIRECTORYINODE: usize = 1;
/// Pseudo inode number reported by `fstat` for stream descriptors.
pub const STREAMINODE: usize = 2;

/// Largest byte count a syscall accepts or a file may hold: results are
/// reported in an `i32`, so sizes and positions must stay within it.
pub const FS_SIZE_MAX: usize = 0x7fff_ffff;

// Errno values; syscalls report an error as the negated value.
pub const EPERM: i32 = 1;
pub const ENOENT: i32 = 2;
pub const EBADF: i32 = 9;
pub const EACCES: i32 = 13;
pub const EEXIST: i32 = 17;
pub const ENOTDIR: i32 = 20;
pub const EISDIR: i32 = 21;
pub const EINVAL: i32 = 22;
pub const ENFILE: i32 = 23;
pub const EOPNOTSUPP: i32 = 95;
pub const EADDRINUSE: i32 = 98;
pub const ENOTSOCK: i32 = 88;
pub const EISCONN: i32 = 106;
pub const ENOTCONN: i32 = 107;

/// True when a mode word carries the regular-file type bit.
pub open spec fn spec_is_reg(mode: u32) -> bool {
    mode & S_IFREG == S_IFREG
}

#[verifier::when_used_as_spec(spec_is_reg)]
pub fn is_reg(mode: u32) -> (r: bool)
    ensures
        r == spec_is_reg(mode),
{
    mode & S_IFREG == S_IFREG
}

/// True when a mode word carries the character-device type bit pattern.
pub open spec fn spec_is_chr(mode: u32) -> bool {
    mode & S_FILETYPEFLAGS == S_IFCHR
}

#[verifier::when_used_as_spec(spec_is_chr)]
pub fn is_chr(mode: u32) -> (r: bool)
    ensures
        r == spec_is_chr(mode),
{
    mode & S_FILETYPEFLAGS == S_IFCHR
}

/// True when descriptor flags request write-only access.
pub open spec fn spec_is_wronly(flags: i32) -> bool {
    flags & O_RDWRFLAGS == O_WRONLY
}

#[verifier::when_used_as_spec(spec_is_wronly)]
pub fn is_wronly(flags: i32) -> (r: bool)
    ensures
        r == spec_is_wronly(flags),
{
    flags & O_RDWRFLAGS == O_WRONLY
}

/// True when descriptor flags request read-only access.
pub open spec fn spec_is_rdonly(flags: i32) -> bool {
    flags & O_RDWRFLAGS == O_RDONLY
}

#[verifier::when_used_as_spec(spec_is_rdonly)]
pub fn is_rdonly(flags: i32) -> (r: bool)
    ensures
        r == spec_is_rdonly(flags),
{
    flags & O_RDWRFLAGS == O_RDONLY
}

} // verus!
