//! Filesystem syscalls on a cage: path-based operations (open, stat,
//! access, chdir, unlink), descriptor operations (read, write, lseek,
//! dup, close), and their contracts against the shared world.

use vstd::prelude::*;
use crate::cage::{fd_free, fdt_with, Cage, DescEntry, FileDesc, FileDescriptor, FsState};
use crate::filesystem::{
    comps_view, convpath, dir_dict_of, dir_find, fobj_data, fobj_entry_ok,
    fobj_lookup, lemma_dir_find_none, lemma_walk2_after_create, lemma_walk2_shape,
    has_fobj, inode_at, read_at, spec_write_at, write_at, DevNo, inode_size,
    lemma_dir_find_some, lemma_fobj_at, lemma_walk2_fst, lemma_walk2_parent,
    lemma_walk_valid, linkcount_of, makedev, spec_makedev, md_wf, metawalk,
    metawalkandparent, mode_of, normpath, refcount_of, size_of, spec_normalize,
    spec_walk, spec_walk2, valid_target, DeviceInode, DirEnt, DirectoryInode,
    FileObject, FilesystemMetadata, GenericInode, Inode, StatData,
};
use crate::fs_constants::{
    DEFAULT_GID, DEFAULT_UID, EACCES, EBADF, EEXIST, EINVAL, EISDIR, ENFILE, ENOENT,
    ENOTDIR, EOPNOTSUPP, EPERM, FS_SIZE_MAX, MAXFD, ROOTDIRECTORYINODE, R_OK, SEEK_CUR,
    SEEK_END, SEEK_SET, STREAMINODE, S_FILETYPEFLAGS, S_IFCHR, S_IFREG, S_IRUSR,
    S_IRWXA, S_IWUSR, S_IXUSR, W_OK, X_OK, is_rdonly, is_wronly, spec_is_rdonly,
    spec_is_wronly, O_APPEND, O_WRONLY, O_CREAT, O_EXCL, O_RDWRFLAGS, O_TRUNC,
};
use crate::misc::{bytes_eq, fillrandom, fillzero};
use crate::timer::timestamp;
use vstd::string::StringSliceAdditionalSpecFns;

verus! {

/// The record `stat` and `fstat` fill for inode `ino`: every field the
/// call writes, with the caller's record `pre` supplying what it leaves
/// alone (the time fields always; the block fields for a character
/// device).
pub open spec fn spec_statdata(
    tbl: Seq<Option<Inode>>,
    dev_id: u64,
    ino: usize,
    pre: StatData,
) -> StatData {
    match inode_at(tbl, ino) {
        Some(Inode::File(g)) => (StatData {
            st_dev: dev_id,
            st_ino: ino,
            st_mode: g.mode,
            st_nlink: g.linkcount,
            st_uid: g.uid,
            st_gid: g.gid,
            st_rdev: 0,
            st_size: g.size,
            st_blksize: 0,
            st_blocks: 0,
            ..pre
        }),
        Some(Inode::Dir(d)) => (StatData {
            st_dev: dev_id,
            st_ino: ino,
            st_mode: d.mode,
            st_nlink: d.linkcount,
            st_uid: d.uid,
            st_gid: d.gid,
            st_rdev: 0,
            st_size: d.size,
            st_blksize: 0,
            st_blocks: 0,
            ..pre
        }),
        Some(Inode::CharDev(c)) => (StatData {
            st_dev: 5,
            st_ino: ino,
            st_mode: c.mode,
            st_nlink: c.linkcount,
            st_uid: c.uid,
            st_gid: c.gid,
            st_rdev: spec_makedev(c.dev.major, c.dev.minor),
            st_size: c.size,
            ..pre
        }),
        _ => pre,
    }
}

/// The fixed record reported for descriptors without an inode (streams
/// and pipes), under the pseudo inode number `ino`.
pub open spec fn spec_alt_statdata(dev_id: u64, ino: usize, pre: StatData) -> StatData {
    StatData {
        st_dev: dev_id,
        st_ino: ino,
        st_mode: 49590,
        st_nlink: 1,
        st_uid: DEFAULT_UID,
        st_gid: DEFAULT_GID,
        st_rdev: 0,
        st_size: 0,
        st_blksize: 0,
        st_blocks: 0,
        ..pre
    }
}

/// The desired permission bits an `access` amode asks for.
pub open spec fn spec_access_bits(amode: u32) -> u32 {
    (if amode & X_OK == X_OK {
        S_IXUSR
    } else {
        0
    }) | (if amode & W_OK == W_OK {
        S_IWUSR
    } else {
        0
    }) | (if amode & R_OK == R_OK {
        S_IRUSR
    } else {
        0
    })
}

impl Cage {
    /// The normalized absolute components this cage resolves `path` to.
    pub open spec fn spec_path(&self, path: &str) -> Seq<Seq<u8>> {
        spec_normalize(comps_view(self.cwd), path.spec_bytes())
    }

    fn _istat_helper(inodeobj: &GenericInode, statbuf: &mut StatData)
        ensures
            *final(statbuf) == (StatData {
                st_mode: inodeobj.mode,
                st_nlink: inodeobj.linkcount,
                st_uid: inodeobj.uid,
                st_gid: inodeobj.gid,
                st_rdev: 0,
                st_size: inodeobj.size,
                st_blksize: 0,
                st_blocks: 0,
                ..*old(statbuf)
            }),
    {
        statbuf.st_mode = inodeobj.mode;
        statbuf.st_nlink = inodeobj.linkcount;
        statbuf.st_uid = inodeobj.uid;
        statbuf.st_gid = inodeobj.gid;
        statbuf.st_rdev = 0;
        statbuf.st_size = inodeobj.size;
        statbuf.st_blksize = 0;
        statbuf.st_blocks = 0;
    }

    fn _istat_helper_dir(inodeobj: &DirectoryInode, statbuf: &mut StatData)
        ensures
            *final(statbuf) == (StatData {
                st_mode: inodeobj.mode,
                st_nlink: inodeobj.linkcount,
                st_uid: inodeobj.uid,
                st_gid: inodeobj.gid,
                st_rdev: 0,
                st_size: inodeobj.size,
                st_blksize: 0,
                st_blocks: 0,
                ..*old(statbuf)
            }),
    {
        statbuf.st_mode = inodeobj.mode;
        statbuf.st_nlink = inodeobj.linkcount;
        statbuf.st_uid = inodeobj.uid;
        statbuf.st_gid = inodeobj.gid;
        statbuf.st_rdev = 0;
        statbuf.st_size = inodeobj.size;
        statbuf.st_blksize = 0;
        statbuf.st_blocks = 0;
    }

    fn _istat_helper_chr_file(inodeobj: &DeviceInode, statbuf: &mut StatData)
        ensures
            *final(statbuf) == (StatData {
                st_dev: 5,
                st_mode: inodeobj.mode,
                st_nlink: inodeobj.linkcount,
                st_uid: inodeobj.uid,
                st_gid: inodeobj.gid,
                st_rdev: spec_makedev(inodeobj.dev.major, inodeobj.dev.minor),
                st_size: inodeobj.size,
                ..*old(statbuf)
            }),
    {
        statbuf.st_dev = 5;
        statbuf.st_mode = inodeobj.mode;
        statbuf.st_nlink = inodeobj.linkcount;
        statbuf.st_uid = inodeobj.uid;
        statbuf.st_gid = inodeobj.gid;
        statbuf.st_rdev = makedev(&inodeobj.dev);
        statbuf.st_size = inodeobj.size;
    }

    /// Streams and pipes have no inode; fill fixed placeholder data.
    fn _stat_alt_helper(
        &self,
        statbuf: &mut StatData,
        inodenum: usize,
        metadata: &FilesystemMetadata,
    )
        ensures
            *final(statbuf) == (StatData {
                st_dev: metadata.dev_id,
                st_ino: inodenum,
                st_mode: 49590,
                st_nlink: 1,
                st_uid: DEFAULT_UID,
                st_gid: DEFAULT_GID,
                st_rdev: 0,
                st_size: 0,
                st_blksize: 0,
                st_blocks: 0,
                ..*old(statbuf)
            }),
    {
        statbuf.st_dev = metadata.dev_id;
        statbuf.st_ino = inodenum;
        statbuf.st_mode = 49590;
        statbuf.st_nlink = 1;
        statbuf.st_uid = DEFAULT_UID;
        statbuf.st_gid = DEFAULT_GID;
        statbuf.st_rdev = 0;
        statbuf.st_size = 0;
        statbuf.st_blksize = 0;
        statbuf.st_blocks = 0;
    }

    /// Report metadata of the object `path` names. Succeeds exactly when
    /// the normalized path resolves to an inode; otherwise the path does
    /// not exist and the buffer is untouched.
    pub fn stat_syscall(&self, fs: &FsState, path: &str, statbuf: &mut StatData) -> (r:
        i32)
        requires
            fs.wf(),
        ensures
            r == 0 <==> spec_walk(fs.metadata, self.spec_path(path)) is Some,
            r != 0 ==> r == -ENOENT && *final(statbuf) == *old(statbuf),
            (match spec_walk(fs.metadata, self.spec_path(path)) {
                Some(ino) => *final(statbuf) == spec_statdata(
                    fs.metadata.inodetable@,
                    fs.metadata.dev_id,
                    ino,
                    *old(statbuf),
                ),
                None => true,
            }),
    {
        let pathbytes = convpath(path);
        let truepath = normpath(&self.cwd, &pathbytes);
        let ghost comps = comps_view(truepath);
        match metawalk(&fs.metadata, &truepath) {
            Some(inodenum) => {
                proof {
                    assert(valid_target(fs.metadata.inodetable@, ROOTDIRECTORYINODE));
                    lemma_walk_valid(
                        fs.metadata.inodetable@,
                        ROOTDIRECTORYINODE,
                        comps,
                    );
                }
                statbuf.st_dev = fs.metadata.dev_id;
                statbuf.st_ino = inodenum;
                match &fs.metadata.inodetable[inodenum] {
                    Some(Inode::File(f)) => {
                        Self::_istat_helper(f, statbuf);
                    },
                    Some(Inode::CharDev(f)) => {
                        Self::_istat_helper_chr_file(f, statbuf);
                    },
                    Some(Inode::Dir(f)) => {
                        Self::_istat_helper_dir(f, statbuf);
                    },
                    _ => {
                        proof {
                            assert(false);
                        }
                    },
                }
                0
            },
            None => -ENOENT,
        }
    }

    /// Report whether the permission bits `amode` asks for are all set on
    /// the object `path` names: 0 when they are, `-EACCES` when not, and
    /// `-ENOENT` when the path does not resolve.
    pub fn access_syscall(&self, fs: &FsState, path: &str, amode: u32) -> (r: i32)
        requires
            fs.wf(),
        ensures
            (match spec_walk(fs.metadata, self.spec_path(path)) {
                Some(ino) => {
                    let m = mode_of(fs.metadata.inodetable@, ino);
                    r == (if m & spec_access_bits(amode) == spec_access_bits(amode) {
                        0
                    } else {
                        -EACCES
                    })
                },
                None => r == -ENOENT,
            }),
    {
        let pathbytes = convpath(path);
        let truepath = normpath(&self.cwd, &pathbytes);
        let ghost comps = comps_view(truepath);
        match metawalk(&fs.metadata, &truepath) {
            Some(inodenum) => {
                proof {
                    assert(valid_target(fs.metadata.inodetable@, ROOTDIRECTORYINODE));
                    lemma_walk_valid(
                        fs.metadata.inodetable@,
                        ROOTDIRECTORYINODE,
                        comps,
                    );
                }
                let mode: u32 = match &fs.metadata.inodetable[inodenum] {
                    Some(Inode::File(f)) => f.mode,
                    Some(Inode::CharDev(f)) => f.mode,
                    Some(Inode::Dir(f)) => f.mode,
                    _ => {
                        proof {
                            assert(false);
                        }
                        0
                    },
                };
                let xbit: u32 = if amode & X_OK == X_OK {
                    S_IXUSR
                } else {
                    0
                };
                let wbit: u32 = if amode & W_OK == W_OK {
                    S_IWUSR
                } else {
                    0
                };
                let rbit: u32 = if amode & R_OK == R_OK {
                    S_IRUSR
                } else {
                    0
                };
                let newmode: u32 = xbit | wbit | rbit;
                if mode & newmode == newmode {
                    0
                } else {
                    -EACCES
                }
            },
            None => -ENOENT,
        }
    }

    /// Change the working directory to `path`: 0 on success with the cwd
    /// replaced by the normalized components; `-ENOTDIR` when the path
    /// names a non-directory, `-ENOENT` when it does not resolve; the
    /// descriptor table never changes.
    pub fn chdir_syscall(&mut self, fs: &FsState, path: &str) -> (r: i32)
        requires
            fs.wf(),
        ensures
            final(self).filedescriptortable == old(self).filedescriptortable,
            final(self).cageid == old(self).cageid,
            final(self).parent == old(self).parent,
            (match spec_walk(fs.metadata, old(self).spec_path(path)) {
                Some(ino) => {
                    if inode_at(fs.metadata.inodetable@, ino) matches Some(Inode::Dir(_)) {
                        r == 0 && comps_view(final(self).cwd) == old(self).spec_path(
                            path,
                        )
                    } else {
                        r == -ENOTDIR && *final(self) == *old(self)
                    }
                },
                None => r == -ENOENT && *final(self) == *old(self),
            }),
    {
        let pathbytes = convpath(path);
        let truepath = normpath(&self.cwd, &pathbytes);
        let ghost comps = comps_view(truepath);
        match metawalk(&fs.metadata, &truepath) {
            Some(inodenum) => {
                proof {
                    assert(valid_target(fs.metadata.inodetable@, ROOTDIRECTORYINODE));
                    lemma_walk_valid(
                        fs.metadata.inodetable@,
                        ROOTDIRECTORYINODE,
                        comps,
                    );
                }
                match &fs.metadata.inodetable[inodenum] {
                    Some(Inode::Dir(_)) => {
                        self.cwd = truepath;
                        0
                    },
                    _ => -ENOTDIR,
                }
            },
            None => -ENOENT,
        }
    }
}

// ---------------------------------------------------------------------------
// Descriptor I/O
// ---------------------------------------------------------------------------

pub open spec fn is_null_dev(d: DevNo) -> bool {
    d.major == 1 && d.minor == 3
}

pub open spec fn is_zero_dev(d: DevNo) -> bool {
    d.major == 1 && d.minor == 5
}

pub open spec fn is_rand_dev(d: DevNo) -> bool {
    d.major == 1 && (d.minor == 8 || d.minor == 9)
}

/// What reading `count` bytes from character device `d` does to a buffer:
/// null reads nothing, zero fills zeroes, the random devices fill `count`
/// bytes (values unspecified), anything else is unsupported.
pub open spec fn chr_read_outcome(
    d: DevNo,
    count: int,
    buf0: Seq<u8>,
    buf1: Seq<u8>,
    r: i32,
) -> bool {
    if is_null_dev(d) {
        r == 0 && buf1 == buf0
    } else if is_zero_dev(d) {
        &&& r == count
        &&& buf1.len() == buf0.len()
        &&& forall|i: int| 0 <= i < count ==> buf1[i] == 0u8
        &&& forall|i: int| count <= i < buf0.len() ==> buf1[i] == buf0[i]
    } else if is_rand_dev(d) {
        &&& r == count
        &&& buf1.len() == buf0.len()
        &&& forall|i: int| count <= i < buf0.len() ==> buf1[i] == buf0[i]
    } else {
        r == -EOPNOTSUPP && buf1 == buf0
    }
}

/// Writes to the well-known character devices are accepted and discarded,
/// reporting the full count; any other device is unsupported.
pub open spec fn chr_write_outcome(d: DevNo, count: int, r: i32) -> bool {
    if is_null_dev(d) || is_zero_dev(d) || is_rand_dev(d) {
        r == count
    } else {
        r == -EOPNOTSUPP
    }
}

/// What `read` does, as a relation between the states before and after.
pub open spec fn read_outcome(
    c: Cage,
    fs0: FsState,
    fd: int,
    count: int,
    buf0: Seq<u8>,
    fs1: FsState,
    buf1: Seq<u8>,
    r: i32,
) -> bool {
    match c.spec_fd_get(fd) {
        None => r == -EBADF && fs1 == fs0 && buf1 == buf0,
        Some(idx) => match fs0.desctable@[idx as int] {
            None => r == -EBADF && fs1 == fs0 && buf1 == buf0,
            Some(e) => match e.desc {
                FileDescriptor::File(f) => {
                    if spec_is_wronly(f.flags) {
                        r == -EBADF && fs1 == fs0 && buf1 == buf0
                    } else {
                        match inode_at(fs0.metadata.inodetable@, f.inode) {
                            Some(Inode::File(g)) => {
                                let avail = if f.position < g.size {
                                    g.size - f.position
                                } else {
                                    0
                                };
                                let n = if count < avail {
                                    count
                                } else {
                                    avail
                                };
                                &&& r == n
                                &&& fs1.metadata == fs0.metadata
                                &&& fs1.logsink == fs0.logsink
                                &&& buf1.len() == buf0.len()
                                &&& forall|i: int|
                                    0 <= i < n ==> buf1[i] == fobj_data(
                                        fs0.metadata.fileobjecttable@,
                                        f.inode,
                                    )[f.position + i]
                                &&& forall|i: int|
                                    n <= i < buf0.len() ==> buf1[i] == buf0[i]
                                &&& fs1.desctable@ == fs0.desctable@.update(
                                    idx as int,
                                    Some(
                                        DescEntry {
                                            refs: e.refs,
                                            desc: FileDescriptor::File(
                                                FileDesc {
                                                    position: (f.position + n) as usize,
                                                    inode: f.inode,
                                                    flags: f.flags,
                                                },
                                            ),
                                        },
                                    ),
                                )
                            },
                            Some(Inode::CharDev(cdev)) => {
                                &&& chr_read_outcome(cdev.dev, count, buf0, buf1, r)
                                &&& fs1.metadata == fs0.metadata
                                &&& fs1.desctable == fs0.desctable
                                &&& fs1.logsink == fs0.logsink
                            },
                            Some(Inode::Dir(_)) => r == -EISDIR && fs1 == fs0 && buf1
                                == buf0,
                            _ => false,
                        }
                    }
                },
                FileDescriptor::Pipe(p) => r == (if spec_is_wronly(p.flags) {
                    -EBADF
                } else {
                    -EOPNOTSUPP
                }) && fs1 == fs0 && buf1 == buf0,
                _ => r == -EOPNOTSUPP && fs1 == fs0 && buf1 == buf0,
            },
        },
    }
}

/// What `write` does, as a relation between the states before and after.
pub open spec fn write_outcome(
    c: Cage,
    fs0: FsState,
    fd: int,
    bufv: Seq<u8>,
    count: int,
    fs1: FsState,
    r: i32,
) -> bool {
    match c.spec_fd_get(fd) {
        None => r == -EBADF && fs1 == fs0,
        Some(idx) => match fs0.desctable@[idx as int] {
            None => r == -EBADF && fs1 == fs0,
            Some(e) => match e.desc {
                FileDescriptor::File(f) => {
                    if spec_is_rdonly(f.flags) {
                        r == -EBADF && fs1 == fs0
                    } else {
                        match inode_at(fs0.metadata.inodetable@, f.inode) {
                            Some(Inode::File(g)) => {
                                let room = FS_SIZE_MAX - f.position;
                                let n = if count < room {
                                    count
                                } else {
                                    room
                                };
                                let newsize = if g.size >= f.position + n {
                                    g.size as int
                                } else {
                                    f.position + n
                                };
                                &&& r == n
                                &&& file_written(
                                    fs0,
                                    fs1,
                                    f.inode,
                                    (GenericInode { size: newsize as usize, ..g }),
                                    spec_write_at(
                                        fobj_data(
                                            fs0.metadata.fileobjecttable@,
                                            f.inode,
                                        ),
                                        bufv,
                                        n,
                                        f.position as int,
                                    ),
                                )
                                &&& fs1.desctable@ == fs0.desctable@.update(
                                    idx as int,
                                    Some(
                                        DescEntry {
                                            refs: e.refs,
                                            desc: FileDescriptor::File(
                                                FileDesc {
                                                    position: (f.position + n) as usize,
                                                    inode: f.inode,
                                                    flags: f.flags,
                                                },
                                            ),
                                        },
                                    ),
                                )
                                &&& fs1.logsink == fs0.logsink
                            },
                            Some(Inode::CharDev(cdev)) => {
                                &&& chr_write_outcome(cdev.dev, count, r)
                                &&& fs1 == fs0
                            },
                            Some(Inode::Dir(_)) => r == -EISDIR && fs1 == fs0,
                            _ => false,
                        }
                    }
                },
                FileDescriptor::Stream(s) => {
                    if 1 <= s.stream <= 2 {
                        &&& r == count
                        &&& fs1.logsink@ == fs0.logsink@ + bufv.subrange(0, count)
                        &&& fs1.metadata == fs0.metadata
                        &&& fs1.desctable == fs0.desctable
                    } else {
                        r == 0 && fs1 == fs0
                    }
                },
                FileDescriptor::Pipe(p) => r == (if spec_is_rdonly(p.flags) {
                    -EBADF
                } else {
                    -EOPNOTSUPP
                }) && fs1 == fs0,
                _ => r == -EOPNOTSUPP && fs1 == fs0,
            },
        },
    }
}

/// The metadata after writing to regular file `ino`: its inode is
/// replaced by `newinode`, its content entry by `newdata`, and everything
/// else stays.
pub open spec fn file_written(
    fs0: FsState,
    fs1: FsState,
    ino: usize,
    newinode: GenericInode,
    newdata: Seq<u8>,
) -> bool {
    let fot0 = fs0.metadata.fileobjecttable@;
    let fot1 = fs1.metadata.fileobjecttable@;
    &&& fs1.metadata.dev_id == fs0.metadata.dev_id
    &&& fs1.metadata.nextinode == fs0.metadata.nextinode
    &&& fs1.metadata.inodetable@ == fs0.metadata.inodetable@.update(
        ino as int,
        Some(Inode::File(newinode)),
    )
    &&& fot1.len() == fot0.len()
    &&& forall|j: int| 0 <= j < fot0.len() ==> (#[trigger] fot1[j]).inodenum == fot0[j].inodenum
    &&& forall|j: int|
        0 <= j < fot0.len() && fot0[j].inodenum != ino ==> fot1[j] == #[trigger] fot0[j]
    &&& fobj_data(fot1, ino) == newdata
}

// ---------------------------------------------------------------------------
// open and creat
// ---------------------------------------------------------------------------

/// No descriptor number is free in table `fdt`.
pub open spec fn no_free_fd(fdt: Seq<Option<usize>>) -> bool {
    forall|k: int| !fd_free(fdt, k)
}

/// Nothing moved: the cage and the world are exactly as before.
pub open spec fn state_unchanged(c0: Cage, fs0: FsState, c1: Cage, fs1: FsState) -> bool {
    c1 == c0 && fs1 == fs0
}

/// A fresh shared file descriptor object was appended and bound to
/// descriptor number `fd` of the acting cage; nothing else about the cage
/// or the descriptor table moved.
pub open spec fn opened_desc(
    c0: Cage,
    fs0: FsState,
    c1: Cage,
    fs1: FsState,
    fd: int,
    d: FileDesc,
) -> bool {
    &&& fs1.desctable@ == fs0.desctable@.push(
        Some(DescEntry { refs: 1, desc: FileDescriptor::File(d) }),
    )
    &&& c1.filedescriptortable@ == fdt_with(
        c0.filedescriptortable@,
        fd,
        Some(fs0.desctable@.len() as usize),
    )
    &&& c1.cwd == c0.cwd
    &&& c1.cageid == c0.cageid
    &&& c1.parent == c0.parent
    &&& fs1.logsink == fs0.logsink
}

/// Inode `ino` of `fs1` is a fresh empty regular file created with
/// `mode`, already carrying its single name and its single open handle.
pub open spec fn created_file_at(fs1: FsState, ino: usize, mode: u32) -> bool {
    match inode_at(fs1.metadata.inodetable@, ino) {
        Some(Inode::File(g)) => {
            &&& g.size == 0
            &&& g.mode == (S_IFREG | mode)
            &&& g.linkcount == 1
            &&& g.refcount == 1
            &&& g.uid == DEFAULT_UID
            &&& g.gid == DEFAULT_GID
        },
        _ => false,
    }
}

/// What `open` does: each error with exactly the inputs that cause it,
/// and on success the new descriptor, the created or truncated file, and
/// the bookkeeping on the opened inode.
pub open spec fn open_outcome(
    c0: Cage,
    fs0: FsState,
    path: Seq<u8>,
    flags: i32,
    mode: u32,
    c1: Cage,
    fs1: FsState,
    r: i32,
) -> bool {
    let comps = spec_normalize(comps_view(c0.cwd), path);
    let tbl0 = fs0.metadata.inodetable@;
    let tbl1 = fs1.metadata.inodetable@;
    let fot0 = fs0.metadata.fileobjecttable@;
    let fot1 = fs1.metadata.fileobjecttable@;
    if path.len() == 0 {
        r == -ENOENT && state_unchanged(c0, fs0, c1, fs1)
    } else if no_free_fd(c0.filedescriptortable@) {
        r == -ENFILE && state_unchanged(c0, fs0, c1, fs1)
    } else {
        match spec_walk2(fs0.metadata, comps) {
            (None, None) => r == -ENOENT && state_unchanged(c0, fs0, c1, fs1),
            (None, Some(p)) => {
                if flags & O_CREAT == 0 {
                    r == -ENOENT && state_unchanged(c0, fs0, c1, fs1)
                } else if flags & (S_IFCHR as i32) != 0 {
                    r == -EINVAL && state_unchanged(c0, fs0, c1, fs1)
                } else if mode & (S_IRWXA | S_FILETYPEFLAGS) != mode {
                    r == -EPERM && state_unchanged(c0, fs0, c1, fs1)
                } else {
                    let newino = fs0.metadata.nextinode;
                    &&& r >= 0
                    &&& fd_free(c0.filedescriptortable@, r as int)
                    &&& (forall|k: int|
                        0 <= k < r ==> !fd_free(c0.filedescriptortable@, k))
                    &&& opened_desc(
                        c0,
                        fs0,
                        c1,
                        fs1,
                        r as int,
                        (FileDesc {
                            position: 0,
                            inode: newino,
                            flags: flags & O_RDWRFLAGS,
                        }),
                    )
                    &&& fs1.metadata.nextinode == fs0.metadata.nextinode + 1
                    &&& tbl1.len() == tbl0.len() + 1
                    &&& created_file_at(fs1, newino, mode)
                    &&& spec_walk(fs1.metadata, comps) == Some(newino)
                    &&& refcount_of(tbl0, newino) == 0
                    &&& forall|i: int|
                        0 <= i < tbl0.len() && i != p ==> #[trigger] tbl1[i] == tbl0[i]
                    &&& (match (tbl0[p as int], tbl1[p as int]) {
                        (Some(Inode::Dir(d0)), Some(Inode::Dir(d1))) => {
                            let s0 = d0.filename_to_inode_dict@;
                            let s1 = d1.filename_to_inode_dict@;
                            &&& s1.len() == s0.len() + 1
                            &&& s1.subrange(0, s0.len() as int) == s0
                            &&& s1.last().name@ == comps.last()
                            &&& s1.last().inode == newino
                        },
                        _ => false,
                    })
                    &&& has_fobj(fot1, newino)
                    &&& fobj_data(fot1, newino) == Seq::<u8>::empty()
                    &&& fot1.len() == fot0.len() + 1
                    &&& forall|j: int| 0 <= j < fot0.len() ==> #[trigger] fot1[j] == fot0[j]
                }
            },
            (Some(ino), _) => {
                if flags & (O_CREAT | O_EXCL) == (O_CREAT | O_EXCL) {
                    r == -EEXIST && state_unchanged(c0, fs0, c1, fs1)
                } else if flags & O_TRUNC != 0 && !(inode_at(tbl0, ino) matches Some(
                    Inode::File(_),
                )) {
                    r == -EINVAL && state_unchanged(c0, fs0, c1, fs1)
                } else if refcount_of(tbl0, ino) == u32::MAX {
                    r == -ENFILE && state_unchanged(c0, fs0, c1, fs1)
                } else {
                    let size1 = if flags & O_TRUNC != 0 {
                        0
                    } else {
                        size_of(tbl0, ino) as int
                    };
                    &&& r >= 0
                    &&& fd_free(c0.filedescriptortable@, r as int)
                    &&& (forall|k: int|
                        0 <= k < r ==> !fd_free(c0.filedescriptortable@, k))
                    &&& opened_desc(
                        c0,
                        fs0,
                        c1,
                        fs1,
                        r as int,
                        (FileDesc {
                            position: if flags & O_APPEND != 0 {
                                size1 as usize
                            } else {
                                0
                            },
                            inode: ino,
                            flags: flags & O_RDWRFLAGS,
                        }),
                    )
                    &&& fs1.metadata.nextinode == fs0.metadata.nextinode
                    &&& tbl1.len() == tbl0.len()
                    &&& (match (inode_at(tbl0, ino), inode_at(tbl1, ino)) {
                        (Some(Inode::File(_)), Some(Inode::File(_))) => true,
                        (Some(Inode::Dir(_)), Some(Inode::Dir(_))) => true,
                        (Some(Inode::CharDev(_)), Some(Inode::CharDev(_))) => true,
                        _ => false,
                    })
                    &&& refcount_of(tbl1, ino) == refcount_of(tbl0, ino) + 1
                    &&& linkcount_of(tbl1, ino) == linkcount_of(tbl0, ino)
                    &&& mode_of(tbl1, ino) == mode_of(tbl0, ino)
                    &&& size_of(tbl1, ino) == size1
                    &&& spec_walk(fs1.metadata, comps) == Some(ino)
                    &&& forall|i: int|
                        0 <= i < tbl0.len() && i != ino ==> #[trigger] tbl1[i] == tbl0[i]
                    &&& (match inode_at(tbl0, ino) {
                        Some(Inode::File(_)) => {
                            &&& fot1.len() == fot0.len()
                            &&& forall|j: int|
                                0 <= j < fot0.len() ==> (#[trigger] fot1[j]).inodenum
                                    == fot0[j].inodenum
                            &&& forall|j: int|
                                0 <= j < fot0.len() && fot0[j].inodenum != ino ==> fot1[j]
                                    == #[trigger] fot0[j]
                            &&& fobj_data(fot1, ino) == (if flags & O_TRUNC != 0 {
                                Seq::<u8>::empty()
                            } else {
                                fobj_data(fot0, ino)
                            })
                        },
                        _ => fs1.metadata.fileobjecttable
                            == fs0.metadata.fileobjecttable,
                    })
                }
            },
        }
    }
}

impl Cage {
    /// Open `path` under the open flags and (for creation) mode bits:
    /// allocates the lowest free descriptor, creating, truncating and
    /// positioning per the flags, with each error exactly on the inputs
    /// the contract names.
    pub fn open_syscall(&mut self, fs: &mut FsState, path: &str, flags: i32, mode: u32) -> (r:
        i32)
        requires
            old(fs).wf(),
            old(self).wf(*old(fs)),
        ensures
            final(fs).wf(),
            final(self).wf(*final(fs)),
            final(fs).desctable@.len() >= old(fs).desctable@.len(),
            forall|i: int|
                0 <= i < old(fs).desctable@.len() ==> #[trigger] final(fs).desctable@[i]
                    == old(fs).desctable@[i],
            open_outcome(
                *old(self),
                *old(fs),
                path.spec_bytes(),
                flags,
                mode,
                *final(self),
                *final(fs),
                r,
            ),
    {
        let pathbytes = convpath(path);
        if pathbytes.len() == 0 {
            return -ENOENT;
        }
        let truepath = normpath(&self.cwd, &pathbytes);
        let ghost comps = comps_view(truepath);
        let ghost tbl0 = fs.metadata.inodetable@;
        let ghost fot0 = fs.metadata.fileobjecttable@;
        let thisfd = match self.get_next_fd(None) {
            Some(fd) => fd,
            None => {
                return -ENFILE;
            },
        };
        let walked = metawalkandparent(&fs.metadata, &truepath);
        match (walked.0, walked.1) {
            (None, None) => -ENOENT,
            (None, Some(pardirinode)) => {
                if flags & O_CREAT == 0 {
                    return -ENOENT;
                }
                if flags & (S_IFCHR as i32) != 0 {
                    return -EINVAL;
                }
                if mode & (S_IRWXA | S_FILETYPEFLAGS) != mode {
                    return -EPERM;
                }
                proof {
                    lemma_walk2_parent(tbl0, ROOTDIRECTORYINODE, comps);
                }
                let filename = crate::filesystem::clone_bytes(
                    &truepath[truepath.len() - 1],
                );
                let ghost g_filename = filename;
                let time = timestamp();
                let newino = fs.metadata.nextinode;
                fs.metadata.inodetable.push(
                    Some(
                        Inode::File(
                            GenericInode {
                                size: 0,
                                uid: DEFAULT_UID,
                                gid: DEFAULT_GID,
                                mode: S_IFREG | mode,
                                linkcount: 1,
                                refcount: 1,
                                atime: time,
                                ctime: time,
                                mtime: time,
                            },
                        ),
                    ),
                );
                fs.metadata.nextinode = fs.metadata.inodetable.len();
                let ghost ent_g = DirEnt { name: g_filename, inode: newino };
                match &mut fs.metadata.inodetable[pardirinode] {
                    Some(Inode::Dir(d)) => {
                        d.filename_to_inode_dict.push(
                            DirEnt { name: filename, inode: newino },
                        );
                    },
                    _ => {
                        proof {
                            assert(false);
                        }
                    },
                }
                fs.metadata.fileobjecttable.push(
                    FileObject { inodenum: newino, data: Vec::new() },
                );
                let descidx = fs.desctable.len();
                fs.desctable.push(
                    Some(
                        DescEntry {
                            refs: 1,
                            desc: FileDescriptor::File(
                                FileDesc {
                                    position: 0,
                                    inode: newino,
                                    flags: flags & O_RDWRFLAGS,
                                },
                            ),
                        },
                    ),
                );
                self.fd_set(thisfd as usize, Some(descidx));
                proof {
                    let tbl1 = fs.metadata.inodetable@;
                    let fot1 = fs.metadata.fileobjecttable@;
                    let p = pardirinode;
                    let d0 = (match tbl0[p as int] {
                        Some(Inode::Dir(d)) => d,
                        _ => arbitrary(),
                    });
                    assert(ent_g.name@ == comps.last());
                    lemma_walk2_after_create(
                        tbl0,
                        tbl1,
                        ROOTDIRECTORYINODE,
                        comps,
                        p,
                        ent_g,
                        newino,
                    );
                    lemma_walk2_fst(tbl1, ROOTDIRECTORYINODE, comps);
                    lemma_dir_find_some(d0.filename_to_inode_dict@, comps.last());
                    assert(md_wf(fs.metadata)) by {
                        assert(crate::filesystem::table_ok(tbl1)) by {
                            assert forall|i: int| 0 <= i < tbl1.len() implies (match
                            #[trigger] tbl1[i] {
                                Some(Inode::Dir(d)) => crate::filesystem::dir_ok(
                                    tbl1,
                                    d,
                                ),
                                _ => true,
                            }) by {
                                match tbl1[i] {
                                    Some(Inode::Dir(d)) => {
                                        let olddict = (match tbl0[i] {
                                            Some(Inode::Dir(dd)) => dd
                                                .filename_to_inode_dict@,
                                            _ => arbitrary(),
                                        });
                                        assert(tbl0[i] matches Some(Inode::Dir(_)));
                                        assert(crate::filesystem::dir_ok(
                                            tbl0,
                                            (match tbl0[i] {
                                                Some(Inode::Dir(dd)) => dd,
                                                _ => arbitrary(),
                                            }),
                                        ));
                                        assert forall|j: int|
                                            0 <= j < d.filename_to_inode_dict@.len() implies valid_target(
                                            tbl1,
                                            (
                                            #[trigger] d.filename_to_inode_dict@[j]).inode,
                                        ) by {
                                            if i == p && j
                                                == d.filename_to_inode_dict@.len() - 1 {
                                                assert(d.filename_to_inode_dict@[j]
                                                    == ent_g);
                                            } else {
                                                assert(d.filename_to_inode_dict@[j]
                                                    == olddict[j]);
                                                assert(valid_target(
                                                    tbl0,
                                                    olddict[j].inode,
                                                ));
                                            }
                                        }
                                        assert forall|j1: int, j2: int|
                                            0 <= j1 < j2
                                                < d.filename_to_inode_dict@.len() implies (
                                        #[trigger] d.filename_to_inode_dict@[j1].name@)
                                            != (
                                        #[trigger] d.filename_to_inode_dict@[j2].name@) by {
                                            if i == p && j2
                                                == d.filename_to_inode_dict@.len() - 1 {
                                                assert(d.filename_to_inode_dict@[j1]
                                                    == olddict[j1]);
                                                assert(olddict[j1].name@ != comps.last());
                                            } else {
                                                assert(d.filename_to_inode_dict@[j1]
                                                    == olddict[j1]);
                                                assert(d.filename_to_inode_dict@[j2]
                                                    == olddict[j2]);
                                            }
                                        }
                                    },
                                    _ => {},
                                }
                            }
                        }
                        assert forall|i: int| 0 <= i < tbl1.len() implies (match
                        #[trigger] tbl1[i] {
                            Some(Inode::File(_)) => has_fobj(fot1, i as usize),
                            _ => true,
                        }) by {
                            match tbl1[i] {
                                Some(Inode::File(_)) => {
                                    if i == newino {
                                        assert(fot1[fot0.len() as int].inodenum == i);
                                        assert(has_fobj(fot1, i as usize));
                                    } else {
                                        assert(has_fobj(fot0, i as usize));
                                        let j = choose|j: int|
                                            0 <= j < fot0.len() && (
                                            #[trigger] fot0[j]).inodenum == i as usize;
                                        assert(fot1[j].inodenum == i as usize);
                                        assert(has_fobj(fot1, i as usize));
                                    }
                                },
                                _ => {},
                            }
                        }
                        assert forall|kk: int| 0 <= kk < fot1.len() implies fobj_entry_ok(
                            tbl1,
                            #[trigger] fot1[kk],
                        ) by {
                            if kk < fot0.len() {
                                assert(fot1[kk] == fot0[kk]);
                                assert(fobj_entry_ok(tbl0, fot0[kk]));
                                assert(fot0[kk].inodenum != p);
                                assert(fot0[kk].inodenum != newino);
                            } else {
                                assert(fot1[kk].inodenum == newino);
                            }
                        }
                        assert forall|k1: int, k2: int| 0 <= k1 < k2 < fot1.len() implies (
                        #[trigger] fot1[k1]).inodenum != (#[trigger] fot1[k2]).inodenum by {
                            if k2 < fot0.len() {
                                assert(fot1[k1] == fot0[k1] && fot1[k2] == fot0[k2]);
                            } else {
                                assert(fot1[k2].inodenum == newino);
                                assert(fobj_entry_ok(tbl0, fot0[k1]));
                                assert(fot0[k1].inodenum < tbl0.len());
                            }
                        }
                    }
                    assert forall|i: int| 0 <= i < fs.desctable@.len() implies (match
                    #[trigger] fs.desctable@[i] {
                        Some(e2) => crate::cage::desc_ok(fs.metadata, e2),
                        None => true,
                    }) by {
                        if i < old(fs).desctable@.len() {
                            assert(fs.desctable@[i] == old(fs).desctable@[i]);
                            match fs.desctable@[i] {
                                Some(e2) => {
                                    assert(crate::cage::desc_ok(old(fs).metadata, e2));
                                    match e2.desc {
                                        FileDescriptor::File(f2) => {
                                            assert(valid_target(tbl0, f2.inode));
                                            assert(f2.inode != newino);
                                            match inode_at(tbl0, f2.inode) {
                                                Some(Inode::File(_)) => {
                                                    let j = choose|j: int|
                                                        0 <= j < fot0.len() && (
                                                        #[trigger] fot0[j]).inodenum
                                                            == f2.inode;
                                                    assert(fot1[j].inodenum == f2.inode);
                                                },
                                                _ => {},
                                            }
                                        },
                                        _ => {},
                                    }
                                },
                                None => {},
                            }
                        }
                    }
                    assert(final(self).wf(*fs));
                    lemma_fobj_at(fot1, newino, fot0.len() as int);
                    let dt0 = old(fs).desctable@;
                    let pushed = fs.desctable@.last();
                    assert(fs.desctable@ =~= dt0.push(pushed));
                    assert forall|ino: usize| ino < tbl1.len() implies refcount_of(
                        tbl1,
                        ino,
                    ) == #[trigger] crate::cage::desc_count(fs.desctable@, ino) by {
                        crate::cage::lemma_desc_count_push(dt0, pushed, ino);
                        if ino == newino {
                            assert forall|i2: int|
                                0 <= i2 < dt0.len() implies crate::cage::desc_contrib(
                                #[trigger] dt0[i2],
                                ino,
                            ) == 0 by {
                                match dt0[i2] {
                                    Some(e2) => {
                                        assert(crate::cage::desc_ok(
                                            old(fs).metadata,
                                            e2,
                                        ));
                                        match e2.desc {
                                            FileDescriptor::File(f2) => {
                                                assert(f2.inode < tbl0.len());
                                            },
                                            _ => {},
                                        }
                                    },
                                    None => {},
                                }
                            }
                            crate::cage::lemma_desc_count_zero(dt0, ino);
                            assert(refcount_of(tbl1, ino) == 1);
                            assert(crate::cage::desc_contrib(pushed, ino) == 1);
                        } else {
                            assert(crate::cage::desc_contrib(pushed, ino) == 0);
                            assert(crate::cage::desc_count(dt0, ino) == refcount_of(
                                tbl0,
                                ino,
                            ));
                            if ino != p {
                                assert(tbl1[ino as int] == tbl0[ino as int]);
                            }
                        }
                    }
                    match (tbl0[p as int], tbl1[p as int]) {
                        (Some(Inode::Dir(dd0)), Some(Inode::Dir(dd1))) => {
                            assert(dd1.filename_to_inode_dict@.subrange(
                                0,
                                dd0.filename_to_inode_dict@.len() as int,
                            ) =~= dd0.filename_to_inode_dict@);
                        },
                        _ => {
                            assert(false);
                        },
                    }
                }
                thisfd
            },
            (Some(inodenum), _) => {
                proof {
                    lemma_walk2_fst(tbl0, ROOTDIRECTORYINODE, comps);
                    assert(valid_target(tbl0, ROOTDIRECTORYINODE));
                    lemma_walk_valid(tbl0, ROOTDIRECTORYINODE, comps);
                }
                if flags & (O_CREAT | O_EXCL) == (O_CREAT | O_EXCL) {
                    return -EEXIST;
                }
                let is_regular: bool = match &fs.metadata.inodetable[inodenum] {
                    Some(Inode::File(_)) => true,
                    _ => false,
                };
                if flags & O_TRUNC != 0 && !is_regular {
                    return -EINVAL;
                }
                let oldref: u32 = match &fs.metadata.inodetable[inodenum] {
                    Some(Inode::File(g)) => g.refcount,
                    Some(Inode::Dir(g)) => g.refcount,
                    Some(Inode::CharDev(g)) => g.refcount,
                    _ => {
                        proof {
                            assert(false);
                        }
                        0
                    },
                };
                if oldref == u32::MAX {
                    return -ENFILE;
                }
                if flags & O_TRUNC != 0 {
                    let k = match fobj_lookup(&fs.metadata.fileobjecttable, inodenum) {
                        Some(k) => k,
                        None => {
                            proof {
                                assert(false);
                            }
                            return -EBADF;
                        },
                    };
                    fs.metadata.fileobjecttable[k] = FileObject {
                        inodenum,
                        data: Vec::new(),
                    };
                    match &mut fs.metadata.inodetable[inodenum] {
                        Some(Inode::File(g)) => {
                            g.size = 0;
                        },
                        _ => {
                            proof {
                                assert(false);
                            }
                        },
                    }
                }
                let size: usize;
                match &mut fs.metadata.inodetable[inodenum] {
                    Some(Inode::File(g)) => {
                        size = g.size;
                        g.refcount = g.refcount + 1;
                    },
                    Some(Inode::Dir(g)) => {
                        size = g.size;
                        g.refcount = g.refcount + 1;
                    },
                    Some(Inode::CharDev(g)) => {
                        size = g.size;
                        g.refcount = g.refcount + 1;
                    },
                    _ => {
                        proof {
                            assert(false);
                        }
                        size = 0;
                    },
                }
                let position: usize = if flags & O_APPEND != 0 {
                    size
                } else {
                    0
                };
                let descidx = fs.desctable.len();
                fs.desctable.push(
                    Some(
                        DescEntry {
                            refs: 1,
                            desc: FileDescriptor::File(
                                FileDesc {
                                    position,
                                    inode: inodenum,
                                    flags: flags & O_RDWRFLAGS,
                                },
                            ),
                        },
                    ),
                );
                self.fd_set(thisfd as usize, Some(descidx));
                proof {
                    let tbl1 = fs.metadata.inodetable@;
                    let fot1 = fs.metadata.fileobjecttable@;
                    assert forall|i: int| 0 <= i < tbl0.len() implies dir_dict_of(
                        #[trigger] tbl1[i],
                    ) == dir_dict_of(tbl0[i]) by {}
                    lemma_walk2_shape(tbl0, tbl1, ROOTDIRECTORYINODE, comps);
                    lemma_walk2_fst(tbl1, ROOTDIRECTORYINODE, comps);
                    if flags & O_TRUNC != 0 {
                        let k = choose|k: int|
                            0 <= k < fot0.len() && (#[trigger] fot0[k]).inodenum
                                == inodenum;
                        assert(fobj_entry_ok(tbl0, fot0[k]));
                    }
                    assert(md_wf(fs.metadata)) by {
                        assert(crate::filesystem::table_ok(tbl1)) by {
                            assert forall|i: int| 0 <= i < tbl1.len() implies (match
                            #[trigger] tbl1[i] {
                                Some(Inode::Dir(d)) => crate::filesystem::dir_ok(
                                    tbl1,
                                    d,
                                ),
                                _ => true,
                            }) by {
                                match tbl1[i] {
                                    Some(Inode::Dir(d)) => {
                                        assert(dir_dict_of(tbl0[i]) == Some(
                                            d.filename_to_inode_dict@,
                                        ));
                                        let dd0 = (match tbl0[i] {
                                            Some(Inode::Dir(x)) => x,
                                            _ => arbitrary(),
                                        });
                                        assert(crate::filesystem::dir_ok(tbl0, dd0));
                                        assert forall|j: int|
                                            0 <= j < d.filename_to_inode_dict@.len() implies valid_target(
                                            tbl1,
                                            (
                                            #[trigger] d.filename_to_inode_dict@[j]).inode,
                                        ) by {
                                            assert(d.filename_to_inode_dict@[j]
                                                == dd0.filename_to_inode_dict@[j]);
                                            assert(valid_target(
                                                tbl0,
                                                dd0.filename_to_inode_dict@[j].inode,
                                            ));
                                        }
                                    },
                                    _ => {},
                                }
                            }
                        }
                        assert forall|i: int| 0 <= i < tbl1.len() implies (match
                        #[trigger] tbl1[i] {
                            Some(Inode::File(_)) => has_fobj(fot1, i as usize),
                            _ => true,
                        }) by {
                            match tbl1[i] {
                                Some(Inode::File(_)) => {
                                    assert(tbl0[i] matches Some(Inode::File(_)));
                                    assert(has_fobj(fot0, i as usize));
                                    let j = choose|j: int|
                                        0 <= j < fot0.len() && (#[trigger] fot0[j]).inodenum
                                            == i as usize;
                                    assert(fot1[j].inodenum == i as usize);
                                    assert(has_fobj(fot1, i as usize));
                                },
                                _ => {},
                            }
                        }
                        assert forall|kk: int| 0 <= kk < fot1.len() implies fobj_entry_ok(
                            tbl1,
                            #[trigger] fot1[kk],
                        ) by {
                            assert(fobj_entry_ok(tbl0, fot0[kk]));
                            if fot0[kk].inodenum != inodenum {
                                assert(fot1[kk] == fot0[kk]);
                                assert(tbl1[fot0[kk].inodenum as int] == tbl0[fot0[kk].inodenum as int]);
                            }
                        }
                        assert forall|k1: int, k2: int| 0 <= k1 < k2 < fot1.len() implies (
                        #[trigger] fot1[k1]).inodenum != (#[trigger] fot1[k2]).inodenum by {
                            assert(fot1[k1].inodenum == fot0[k1].inodenum);
                            assert(fot1[k2].inodenum == fot0[k2].inodenum);
                        }
                    }
                    assert forall|i: int| 0 <= i < fs.desctable@.len() implies (match
                    #[trigger] fs.desctable@[i] {
                        Some(e2) => crate::cage::desc_ok(fs.metadata, e2),
                        None => true,
                    }) by {
                        if i < old(fs).desctable@.len() {
                            assert(fs.desctable@[i] == old(fs).desctable@[i]);
                            match fs.desctable@[i] {
                                Some(e2) => {
                                    assert(crate::cage::desc_ok(old(fs).metadata, e2));
                                    match e2.desc {
                                        FileDescriptor::File(f2) => {
                                            match inode_at(tbl0, f2.inode) {
                                                Some(Inode::File(_)) => {
                                                    let j = choose|j: int|
                                                        0 <= j < fot0.len() && (
                                                        #[trigger] fot0[j]).inodenum
                                                            == f2.inode;
                                                    assert(fot1[j].inodenum == f2.inode);
                                                },
                                                _ => {},
                                            }
                                        },
                                        _ => {},
                                    }
                                },
                                None => {},
                            }
                        }
                    }
                    if inode_at(tbl0, inodenum) matches Some(Inode::File(_)) {
                        let j = choose|j: int|
                            0 <= j < fot0.len() && (#[trigger] fot0[j]).inodenum
                                == inodenum;
                        lemma_fobj_at(fot1, inodenum, j);
                        lemma_fobj_at(fot0, inodenum, j);
                    }
                    let dt0 = old(fs).desctable@;
                    let pushed = fs.desctable@.last();
                    assert(fs.desctable@ =~= dt0.push(pushed));
                    assert forall|ino: usize| ino < tbl1.len() implies refcount_of(
                        tbl1,
                        ino,
                    ) == #[trigger] crate::cage::desc_count(fs.desctable@, ino) by {
                        crate::cage::lemma_desc_count_push(dt0, pushed, ino);
                        assert(crate::cage::desc_count(dt0, ino) == refcount_of(
                            tbl0,
                            ino,
                        ));
                        if ino == inodenum {
                            assert(crate::cage::desc_contrib(pushed, ino) == 1);
                            assert(refcount_of(tbl1, ino) == refcount_of(tbl0, ino)
                                + 1);
                        } else {
                            assert(crate::cage::desc_contrib(pushed, ino) == 0);
                            assert(tbl1[ino as int] == tbl0[ino as int]);
                        }
                    }
                    assert(final(self).wf(*fs));
                }
                thisfd
            },
        }
    }

    /// Create (or truncate) `path` for writing: `open` under
    /// creation-and-truncation flags with write-only access.
    pub fn creat_syscall(&mut self, fs: &mut FsState, path: &str, mode: u32) -> (r: i32)
        requires
            old(fs).wf(),
            old(self).wf(*old(fs)),
        ensures
            final(fs).wf(),
            final(self).wf(*final(fs)),
            final(fs).desctable@.len() >= old(fs).desctable@.len(),
            forall|i: int|
                0 <= i < old(fs).desctable@.len() ==> #[trigger] final(fs).desctable@[i]
                    == old(fs).desctable@[i],
            open_outcome(
                *old(self),
                *old(fs),
                path.spec_bytes(),
                O_CREAT | O_TRUNC | O_WRONLY,
                mode,
                *final(self),
                *final(fs),
                r,
            ),
    {
        self.open_syscall(fs, path, O_CREAT | O_TRUNC | O_WRONLY, mode)
    }

    /// Read from the character device `dev` into `buf`.
    fn _read_chr_file(
        &self,
        dev: &DevNo,
        buf: &mut Vec<u8>,
        count: usize,
        devrand: &mut u64,
    ) -> (r: i32)
        requires
            count <= old(buf).len(),
            count <= FS_SIZE_MAX,
        ensures
            chr_read_outcome(*dev, count as int, old(buf)@, final(buf)@, r),
    {
        if dev.major == 1 && dev.minor == 3 {
            0
        } else if dev.major == 1 && dev.minor == 5 {
            fillzero(buf, count)
        } else if dev.major == 1 && (dev.minor == 8 || dev.minor == 9) {
            fillrandom(buf, count, devrand)
        } else {
            -EOPNOTSUPP
        }
    }

    /// Writes to the well-known devices are accepted and discarded.
    fn _write_chr_file(&self, dev: &DevNo, count: usize) -> (r: i32)
        requires
            count <= FS_SIZE_MAX,
        ensures
            chr_write_outcome(*dev, count as int, r),
    {
        if dev.major == 1 && (dev.minor == 3 || dev.minor == 5 || dev.minor == 8
            || dev.minor == 9) {
            count as i32
        } else {
            -EOPNOTSUPP
        }
    }

    /// Read up to `count` bytes through descriptor `fd` into the head of
    /// `buf`, advancing the descriptor's position by the bytes read; 0 at
    /// end of file. Character devices are served by their device rule
    /// without moving the position; reading a directory is `EISDIR`, a
    /// write-only or unknown descriptor `EBADF`, and sockets, streams and
    /// pipes are not implemented.
    pub fn read_syscall(
        &self,
        fs: &mut FsState,
        fd: i32,
        buf: &mut Vec<u8>,
        count: usize,
    ) -> (r: i32)
        requires
            old(fs).wf(),
            self.wf(*old(fs)),
            count <= old(buf).len(),
            count <= FS_SIZE_MAX,
        ensures
            final(fs).wf(),
            self.wf(*final(fs)),
            final(fs).desctable@.len() == old(fs).desctable@.len(),
            read_outcome(
                *self,
                *old(fs),
                fd as int,
                count as int,
                old(buf)@,
                *final(fs),
                final(buf)@,
                r,
            ),
    {
        let idx = match self.fd_get(fd) {
            Some(i) => i,
            None => {
                return -EBADF;
            },
        };
        let f: FileDesc;
        let refs: usize;
        match &fs.desctable[idx] {
            Some(e) => match &e.desc {
                FileDescriptor::File(f0) => {
                    f = FileDesc {
                        position: f0.position,
                        inode: f0.inode,
                        flags: f0.flags,
                    };
                    refs = e.refs;
                },
                FileDescriptor::Pipe(p) => {
                    let wr = is_wronly(p.flags);
                    return if wr {
                        -EBADF
                    } else {
                        -EOPNOTSUPP
                    };
                },
                _ => {
                    return -EOPNOTSUPP;
                },
            },
            None => {
                return -EBADF;
            },
        }
        if is_wronly(f.flags) {
            return -EBADF;
        }
        match &fs.metadata.inodetable[f.inode] {
            Some(Inode::File(g)) => {
                let k = match fobj_lookup(&fs.metadata.fileobjecttable, f.inode) {
                    Some(k) => k,
                    None => {
                        proof {
                            assert(false);
                        }
                        return -EBADF;
                    },
                };
                proof {
                    lemma_fobj_at(fs.metadata.fileobjecttable@, f.inode, k as int);
                    assert(fobj_entry_ok(
                        fs.metadata.inodetable@,
                        fs.metadata.fileobjecttable@[k as int],
                    ));
                }
                let n = read_at(
                    &fs.metadata.fileobjecttable[k].data,
                    buf,
                    count,
                    f.position,
                );
                let newpos = f.position + n;
                fs.desctable[idx] = Some(
                    DescEntry {
                        refs,
                        desc: FileDescriptor::File(
                            FileDesc { position: newpos, inode: f.inode, flags: f.flags },
                        ),
                    },
                );
                proof {
                    assert forall|i: int| 0 <= i < fs.desctable@.len() implies (match
                    #[trigger] fs.desctable@[i] {
                        Some(e2) => crate::cage::desc_ok(fs.metadata, e2),
                        None => true,
                    }) by {
                        if i != idx {
                            assert(fs.desctable@[i] == old(fs).desctable@[i]);
                        }
                    }
                    crate::cage::lemma_census_same_contrib(
                        fs.metadata,
                        old(fs).desctable@,
                        idx as int,
                        fs.desctable@[idx as int],
                    );
                }
                n as i32
            },
            Some(Inode::CharDev(cdev)) => {
                let dev = cdev.dev;
                self._read_chr_file(&dev, buf, count, &mut fs.devrand)
            },
            Some(Inode::Dir(_)) => -EISDIR,
            _ => {
                proof {
                    assert(false);
                }
                -EBADF
            },
        }
    }

    /// Write `count` bytes from the head of `buf` through descriptor
    /// `fd`, advancing its position and growing the file as needed; the
    /// well-known devices accept and discard, stdout and stderr append to
    /// the log sink, writing a directory is `EISDIR`, a read-only or
    /// unknown descriptor `EBADF`, and sockets and pipes are not
    /// implemented.
    pub fn write_syscall(&self, fs: &mut FsState, fd: i32, buf: &Vec<u8>, count: usize) -> (r:
        i32)
        requires
            old(fs).wf(),
            self.wf(*old(fs)),
            count <= buf.len(),
            count <= FS_SIZE_MAX,
        ensures
            final(fs).wf(),
            self.wf(*final(fs)),
            final(fs).desctable@.len() == old(fs).desctable@.len(),
            write_outcome(
                *self,
                *old(fs),
                fd as int,
                buf@,
                count as int,
                *final(fs),
                r,
            ),
    {
        let idx = match self.fd_get(fd) {
            Some(i) => i,
            None => {
                return -EBADF;
            },
        };
        let f: FileDesc;
        let refs: usize;
        match &fs.desctable[idx] {
            Some(e) => match &e.desc {
                FileDescriptor::File(f0) => {
                    f = FileDesc {
                        position: f0.position,
                        inode: f0.inode,
                        flags: f0.flags,
                    };
                    refs = e.refs;
                },
                FileDescriptor::Stream(s) => {
                    if 1 <= s.stream && s.stream <= 2 {
                        let mut i: usize = 0;
                        while i < count
                            invariant
                                i <= count,
                                count <= buf.len(),
                                fs.logsink@ == old(fs).logsink@ + buf@.subrange(
                                    0,
                                    i as int,
                                ),
                                fs.metadata == old(fs).metadata,
                                fs.desctable == old(fs).desctable,
                                fs.devrand == old(fs).devrand,
                                old(fs).wf(),
                            decreases count - i,
                        {
                            fs.logsink.push(buf[i]);
                            proof {
                                assert(fs.logsink@ =~= old(fs).logsink@ + buf@.subrange(
                                    0,
                                    i + 1 as int,
                                ));
                            }
                            i = i + 1;
                        }
                        return count as i32;
                    } else {
                        return 0;
                    }
                },
                FileDescriptor::Pipe(p) => {
                    let rd = is_rdonly(p.flags);
                    return if rd {
                        -EBADF
                    } else {
                        -EOPNOTSUPP
                    };
                },
                _ => {
                    return -EOPNOTSUPP;
                },
            },
            None => {
                return -EBADF;
            },
        }
        if is_rdonly(f.flags) {
            return -EBADF;
        }
        match &fs.metadata.inodetable[f.inode] {
            Some(Inode::CharDev(cdev)) => {
                let dev = cdev.dev;
                return self._write_chr_file(&dev, count);
            },
            Some(Inode::Dir(_)) => {
                return -EISDIR;
            },
            Some(Inode::File(_)) => {},
            _ => {
                proof {
                    assert(false);
                }
                return -EBADF;
            },
        }
        let room = FS_SIZE_MAX - f.position;
        let n = if count < room {
            count
        } else {
            room
        };
        let k = match fobj_lookup(&fs.metadata.fileobjecttable, f.inode) {
            Some(k) => k,
            None => {
                proof {
                    assert(false);
                }
                return -EBADF;
            },
        };
        proof {
            lemma_fobj_at(fs.metadata.fileobjecttable@, f.inode, k as int);
            assert(fobj_entry_ok(
                fs.metadata.inodetable@,
                fs.metadata.fileobjecttable@[k as int],
            ));
        }
        let fo = &mut fs.metadata.fileobjecttable[k];
        write_at(&mut fo.data, buf, n, f.position);
        let newsize = fs.metadata.fileobjecttable[k].data.len();
        match &mut fs.metadata.inodetable[f.inode] {
            Some(Inode::File(g)) => {
                g.size = newsize;
            },
            _ => {
                proof {
                    assert(false);
                }
            },
        }
        let newpos = f.position + n;
        fs.desctable[idx] = Some(
            DescEntry {
                refs,
                desc: FileDescriptor::File(
                    FileDesc { position: newpos, inode: f.inode, flags: f.flags },
                ),
            },
        );
        proof {
            let tbl1 = fs.metadata.inodetable@;
            let fot1 = fs.metadata.fileobjecttable@;
            let tbl0 = old(fs).metadata.inodetable@;
            let fot0 = old(fs).metadata.fileobjecttable@;
            assert forall|j: int|
                0 <= j < fot1.len() && fot0[j].inodenum != f.inode implies fot1[j] == (
            #[trigger] fot0[j]) by {}
            lemma_fobj_at(fot1, f.inode, k as int);
            assert(md_wf(fs.metadata)) by {
                assert(crate::filesystem::table_ok(tbl1)) by {
                    assert forall|i: int| 0 <= i < tbl1.len() implies (match
                    #[trigger] tbl1[i] {
                        Some(Inode::Dir(d)) => crate::filesystem::dir_ok(tbl1, d),
                        _ => true,
                    }) by {
                        match tbl1[i] {
                            Some(Inode::Dir(d)) => {
                                assert(tbl0[i] == tbl1[i]);
                                assert(crate::filesystem::dir_ok(tbl0, d));
                                assert forall|j: int|
                                    0 <= j < d.filename_to_inode_dict@.len() implies valid_target(
                                    tbl1,
                                    (#[trigger] d.filename_to_inode_dict@[j]).inode,
                                ) by {
                                    assert(valid_target(
                                        tbl0,
                                        d.filename_to_inode_dict@[j].inode,
                                    ));
                                }
                            },
                            _ => {},
                        }
                    }
                }
                assert forall|kk: int| 0 <= kk < fot1.len() implies fobj_entry_ok(
                    tbl1,
                    #[trigger] fot1[kk],
                ) by {
                    assert(fobj_entry_ok(tbl0, fot0[kk]));
                    if kk != k {
                        assert(fot0[kk].inodenum != fot0[k as int].inodenum);
                    }
                }
            }
            assert forall|i: int| 0 <= i < fs.desctable@.len() implies (match
            #[trigger] fs.desctable@[i] {
                Some(e2) => crate::cage::desc_ok(fs.metadata, e2),
                None => true,
            }) by {
                if i != idx {
                    assert(fs.desctable@[i] == old(fs).desctable@[i]);
                    match fs.desctable@[i] {
                        Some(e2) => {
                            assert(crate::cage::desc_ok(old(fs).metadata, e2));
                        },
                        None => {},
                    }
                }
            }
            assert forall|ino: usize| ino < tbl0.len() implies refcount_of(tbl1, ino)
                == #[trigger] refcount_of(tbl0, ino) by {
                if ino != f.inode {
                    assert(tbl1[ino as int] == tbl0[ino as int]);
                }
            }
            crate::cage::lemma_census_md(old(fs).metadata, fs.metadata, old(fs).desctable@);
            crate::cage::lemma_census_same_contrib(
                fs.metadata,
                old(fs).desctable@,
                idx as int,
                fs.desctable@[idx as int],
            );
        }
        n as i32
    }
}

// ---------------------------------------------------------------------------
// Seek and positional I/O
// ---------------------------------------------------------------------------

/// What `lseek` does: the new position from `whence` and `offset`, or
/// `EINVAL` when the whence is unknown or the position would leave the
/// representable range; only file descriptors seek.
pub open spec fn lseek_outcome(
    c: Cage,
    fs0: FsState,
    fd: int,
    offset: int,
    whence: i32,
    fs1: FsState,
    r: i32,
) -> bool {
    match c.spec_fd_get(fd) {
        None => r == -EBADF && fs1 == fs0,
        Some(idx) => match fs0.desctable@[idx as int] {
            None => r == -EBADF && fs1 == fs0,
            Some(e) => match e.desc {
                FileDescriptor::File(f) => {
                    if whence != SEEK_SET && whence != SEEK_CUR && whence != SEEK_END {
                        r == -EINVAL && fs1 == fs0
                    } else {
                        let s = size_of(fs0.metadata.inodetable@, f.inode);
                        let np = if whence == SEEK_SET {
                            offset
                        } else if whence == SEEK_CUR {
                            f.position + offset
                        } else {
                            s + offset
                        };
                        if 0 <= np <= FS_SIZE_MAX {
                            &&& r == np
                            &&& fs1.metadata == fs0.metadata
                            &&& fs1.logsink == fs0.logsink
                            &&& fs1.desctable@ == fs0.desctable@.update(
                                idx as int,
                                Some(
                                    DescEntry {
                                        refs: e.refs,
                                        desc: FileDescriptor::File(
                                            FileDesc {
                                                position: np as usize,
                                                inode: f.inode,
                                                flags: f.flags,
                                            },
                                        ),
                                    },
                                ),
                            )
                        } else {
                            r == -EINVAL && fs1 == fs0
                        }
                    }
                },
                _ => r == -EBADF && fs1 == fs0,
            },
        },
    }
}

/// What `pread` does: as `read`, but at the given offset and with the
/// descriptor's own position never moved.
pub open spec fn pread_outcome(
    c: Cage,
    fs0: FsState,
    fd: int,
    count: int,
    offset: int,
    buf0: Seq<u8>,
    fs1: FsState,
    buf1: Seq<u8>,
    r: i32,
) -> bool {
    match c.spec_fd_get(fd) {
        None => r == -EBADF && fs1 == fs0 && buf1 == buf0,
        Some(idx) => match fs0.desctable@[idx as int] {
            None => r == -EBADF && fs1 == fs0 && buf1 == buf0,
            Some(e) => match e.desc {
                FileDescriptor::File(f) => {
                    if spec_is_wronly(f.flags) {
                        r == -EBADF && fs1 == fs0 && buf1 == buf0
                    } else {
                        match inode_at(fs0.metadata.inodetable@, f.inode) {
                            Some(Inode::File(g)) => {
                                let avail = if offset < g.size {
                                    g.size - offset
                                } else {
                                    0
                                };
                                let n = if count < avail {
                                    count
                                } else {
                                    avail
                                };
                                &&& r == n
                                &&& fs1.metadata == fs0.metadata
                                &&& fs1.desctable == fs0.desctable
                                &&& fs1.logsink == fs0.logsink
                                &&& buf1.len() == buf0.len()
                                &&& forall|i: int|
                                    0 <= i < n ==> buf1[i] == fobj_data(
                                        fs0.metadata.fileobjecttable@,
                                        f.inode,
                                    )[offset + i]
                                &&& forall|i: int|
                                    n <= i < buf0.len() ==> buf1[i] == buf0[i]
                            },
                            Some(Inode::CharDev(cdev)) => {
                                &&& chr_read_outcome(cdev.dev, count, buf0, buf1, r)
                                &&& fs1.metadata == fs0.metadata
                                &&& fs1.desctable == fs0.desctable
                                &&& fs1.logsink == fs0.logsink
                            },
                            Some(Inode::Dir(_)) => r == -EISDIR && fs1 == fs0 && buf1
                                == buf0,
                            _ => false,
                        }
                    }
                },
                FileDescriptor::Pipe(p) => r == (if spec_is_wronly(p.flags) {
                    -EBADF
                } else {
                    -EOPNOTSUPP
                }) && fs1 == fs0 && buf1 == buf0,
                _ => r == -EOPNOTSUPP && fs1 == fs0 && buf1 == buf0,
            },
        },
    }
}

/// What `pwrite` does: as `write`, but at the given offset and with the
/// descriptor's own position never moved.
pub open spec fn pwrite_outcome(
    c: Cage,
    fs0: FsState,
    fd: int,
    bufv: Seq<u8>,
    count: int,
    offset: int,
    fs1: FsState,
    r: i32,
) -> bool {
    match c.spec_fd_get(fd) {
        None => r == -EBADF && fs1 == fs0,
        Some(idx) => match fs0.desctable@[idx as int] {
            None => r == -EBADF && fs1 == fs0,
            Some(e) => match e.desc {
                FileDescriptor::File(f) => {
                    if spec_is_rdonly(f.flags) {
                        r == -EBADF && fs1 == fs0
                    } else {
                        match inode_at(fs0.metadata.inodetable@, f.inode) {
                            Some(Inode::File(g)) => {
                                let room = if offset < FS_SIZE_MAX {
                                    FS_SIZE_MAX - offset
                                } else {
                                    0
                                };
                                let n = if count < room {
                                    count
                                } else {
                                    room
                                };
                                if n == 0 {
                                    r == 0 && fs1 == fs0
                                } else {
                                    let newsize = if g.size >= offset + n {
                                        g.size as int
                                    } else {
                                        offset + n
                                    };
                                    &&& r == n
                                    &&& file_written(
                                        fs0,
                                        fs1,
                                        f.inode,
                                        (GenericInode { size: newsize as usize, ..g }),
                                        spec_write_at(
                                            fobj_data(
                                                fs0.metadata.fileobjecttable@,
                                                f.inode,
                                            ),
                                            bufv,
                                            n,
                                            offset,
                                        ),
                                    )
                                    &&& fs1.desctable == fs0.desctable
                                    &&& fs1.logsink == fs0.logsink
                                }
                            },
                            Some(Inode::CharDev(cdev)) => {
                                &&& chr_write_outcome(cdev.dev, count, r)
                                &&& fs1 == fs0
                            },
                            Some(Inode::Dir(_)) => r == -EISDIR && fs1 == fs0,
                            _ => false,
                        }
                    }
                },
                FileDescriptor::Pipe(p) => r == (if spec_is_rdonly(p.flags) {
                    -EBADF
                } else {
                    -EOPNOTSUPP
                }) && fs1 == fs0,
                _ => r == -EOPNOTSUPP && fs1 == fs0,
            },
        },
    }
}

impl Cage {
    /// Move the position of file descriptor `fd` per `whence` (set,
    /// relative, or from the end) and report the new position; `EINVAL`
    /// for an unknown whence or an unrepresentable position, `EBADF` for
    /// anything that is not a file descriptor.
    pub fn lseek_syscall(&self, fs: &mut FsState, fd: i32, offset: isize, whence: i32) -> (r:
        i32)
        requires
            old(fs).wf(),
            self.wf(*old(fs)),
        ensures
            final(fs).wf(),
            self.wf(*final(fs)),
            final(fs).desctable@.len() == old(fs).desctable@.len(),
            lseek_outcome(
                *self,
                *old(fs),
                fd as int,
                offset as int,
                whence,
                *final(fs),
                r,
            ),
    {
        let idx = match self.fd_get(fd) {
            Some(i) => i,
            None => {
                return -EBADF;
            },
        };
        let f: FileDesc;
        let refs: usize;
        match &fs.desctable[idx] {
            Some(e) => match &e.desc {
                FileDescriptor::File(f0) => {
                    f = FileDesc {
                        position: f0.position,
                        inode: f0.inode,
                        flags: f0.flags,
                    };
                    refs = e.refs;
                },
                _ => {
                    return -EBADF;
                },
            },
            None => {
                return -EBADF;
            },
        }
        if whence != SEEK_SET && whence != SEEK_CUR && whence != SEEK_END {
            return -EINVAL;
        }
        let size: usize = match &fs.metadata.inodetable[f.inode] {
            Some(Inode::File(g)) => g.size,
            Some(Inode::CharDev(c)) => c.size,
            Some(Inode::Dir(d)) => d.size,
            _ => {
                proof {
                    assert(false);
                }
                0
            },
        };
        let cap: isize = FS_SIZE_MAX as isize;
        if offset > cap || offset < -cap - 1 {
            proof {
                let s = size_of(old(fs).metadata.inodetable@, f.inode);
                let np = if whence == SEEK_SET {
                    offset as int
                } else if whence == SEEK_CUR {
                    f.position + offset
                } else {
                    s + offset
                };
                assert(np < 0 || np > FS_SIZE_MAX);
            }
            return -EINVAL;
        }
        let base: i64 = if whence == SEEK_SET {
            0
        } else if whence == SEEK_CUR {
            f.position as i64
        } else {
            size as i64
        };
        let np64: i64 = base + (offset as i64);
        if np64 < 0 || np64 > (FS_SIZE_MAX as i64) {
            return -EINVAL;
        }
        let newpos = np64 as usize;
        fs.desctable[idx] = Some(
            DescEntry {
                refs,
                desc: FileDescriptor::File(
                    FileDesc { position: newpos, inode: f.inode, flags: f.flags },
                ),
            },
        );
        proof {
            assert forall|i: int| 0 <= i < fs.desctable@.len() implies (match
            #[trigger] fs.desctable@[i] {
                Some(e2) => crate::cage::desc_ok(fs.metadata, e2),
                None => true,
            }) by {
                if i != idx {
                    assert(fs.desctable@[i] == old(fs).desctable@[i]);
                }
            }
            crate::cage::lemma_census_same_contrib(
                fs.metadata,
                old(fs).desctable@,
                idx as int,
                fs.desctable@[idx as int],
            );
        }
        np64 as i32
    }

    /// Read at an explicit offset: as `read_syscall`, but the
    /// descriptor's position is never moved.
    pub fn pread_syscall(
        &self,
        fs: &mut FsState,
        fd: i32,
        buf: &mut Vec<u8>,
        count: usize,
        offset: usize,
    ) -> (r: i32)
        requires
            old(fs).wf(),
            self.wf(*old(fs)),
            count <= old(buf).len(),
            count <= FS_SIZE_MAX,
        ensures
            final(fs).wf(),
            self.wf(*final(fs)),
            final(fs).desctable == old(fs).desctable,
            final(fs).metadata == old(fs).metadata,
            pread_outcome(
                *self,
                *old(fs),
                fd as int,
                count as int,
                offset as int,
                old(buf)@,
                *final(fs),
                final(buf)@,
                r,
            ),
    {
        let idx = match self.fd_get(fd) {
            Some(i) => i,
            None => {
                return -EBADF;
            },
        };
        let f: FileDesc;
        match &fs.desctable[idx] {
            Some(e) => match &e.desc {
                FileDescriptor::File(f0) => {
                    f = FileDesc {
                        position: f0.position,
                        inode: f0.inode,
                        flags: f0.flags,
                    };
                },
                FileDescriptor::Pipe(p) => {
                    let wr = is_wronly(p.flags);
                    return if wr {
                        -EBADF
                    } else {
                        -EOPNOTSUPP
                    };
                },
                _ => {
                    return -EOPNOTSUPP;
                },
            },
            None => {
                return -EBADF;
            },
        }
        if is_wronly(f.flags) {
            return -EBADF;
        }
        match &fs.metadata.inodetable[f.inode] {
            Some(Inode::File(_)) => {
                let k = match fobj_lookup(&fs.metadata.fileobjecttable, f.inode) {
                    Some(k) => k,
                    None => {
                        proof {
                            assert(false);
                        }
                        return -EBADF;
                    },
                };
                proof {
                    lemma_fobj_at(fs.metadata.fileobjecttable@, f.inode, k as int);
                    assert(fobj_entry_ok(
                        fs.metadata.inodetable@,
                        fs.metadata.fileobjecttable@[k as int],
                    ));
                }
                let n = read_at(&fs.metadata.fileobjecttable[k].data, buf, count, offset);
                n as i32
            },
            Some(Inode::CharDev(cdev)) => {
                let dev = cdev.dev;
                self._read_chr_file(&dev, buf, count, &mut fs.devrand)
            },
            Some(Inode::Dir(_)) => -EISDIR,
            _ => {
                proof {
                    assert(false);
                }
                -EBADF
            },
        }
    }

    /// Write at an explicit offset: as `write_syscall`, but the
    /// descriptor's position is never moved.
    pub fn pwrite_syscall(
        &self,
        fs: &mut FsState,
        fd: i32,
        buf: &Vec<u8>,
        count: usize,
        offset: usize,
    ) -> (r: i32)
        requires
            old(fs).wf(),
            self.wf(*old(fs)),
            count <= buf.len(),
            count <= FS_SIZE_MAX,
        ensures
            final(fs).wf(),
            self.wf(*final(fs)),
            final(fs).desctable == old(fs).desctable,
            pwrite_outcome(
                *self,
                *old(fs),
                fd as int,
                buf@,
                count as int,
                offset as int,
                *final(fs),
                r,
            ),
    {
        let idx = match self.fd_get(fd) {
            Some(i) => i,
            None => {
                return -EBADF;
            },
        };
        let f: FileDesc;
        match &fs.desctable[idx] {
            Some(e) => match &e.desc {
                FileDescriptor::File(f0) => {
                    f = FileDesc {
                        position: f0.position,
                        inode: f0.inode,
                        flags: f0.flags,
                    };
                },
                FileDescriptor::Pipe(p) => {
                    let rd = is_rdonly(p.flags);
                    return if rd {
                        -EBADF
                    } else {
                        -EOPNOTSUPP
                    };
                },
                _ => {
                    return -EOPNOTSUPP;
                },
            },
            None => {
                return -EBADF;
            },
        }
        if is_rdonly(f.flags) {
            return -EBADF;
        }
        match &fs.metadata.inodetable[f.inode] {
            Some(Inode::CharDev(cdev)) => {
                let dev = cdev.dev;
                return self._write_chr_file(&dev, count);
            },
            Some(Inode::Dir(_)) => {
                return -EISDIR;
            },
            Some(Inode::File(_)) => {},
            _ => {
                proof {
                    assert(false);
                }
                return -EBADF;
            },
        }
        let room: usize = if offset < FS_SIZE_MAX {
            FS_SIZE_MAX - offset
        } else {
            0
        };
        let n = if count < room {
            count
        } else {
            room
        };
        if n == 0 {
            return 0;
        }
        let k = match fobj_lookup(&fs.metadata.fileobjecttable, f.inode) {
            Some(k) => k,
            None => {
                proof {
                    assert(false);
                }
                return -EBADF;
            },
        };
        proof {
            lemma_fobj_at(fs.metadata.fileobjecttable@, f.inode, k as int);
            assert(fobj_entry_ok(
                fs.metadata.inodetable@,
                fs.metadata.fileobjecttable@[k as int],
            ));
        }
        let fo = &mut fs.metadata.fileobjecttable[k];
        write_at(&mut fo.data, buf, n, offset);
        let newsize = fs.metadata.fileobjecttable[k].data.len();
        match &mut fs.metadata.inodetable[f.inode] {
            Some(Inode::File(g)) => {
                g.size = newsize;
            },
            _ => {
                proof {
                    assert(false);
                }
            },
        }
        proof {
            let tbl1 = fs.metadata.inodetable@;
            let fot1 = fs.metadata.fileobjecttable@;
            let tbl0 = old(fs).metadata.inodetable@;
            let fot0 = old(fs).metadata.fileobjecttable@;
            lemma_fobj_at(fot1, f.inode, k as int);
            assert(md_wf(fs.metadata)) by {
                assert(crate::filesystem::table_ok(tbl1)) by {
                    assert forall|i: int| 0 <= i < tbl1.len() implies (match
                    #[trigger] tbl1[i] {
                        Some(Inode::Dir(d)) => crate::filesystem::dir_ok(tbl1, d),
                        _ => true,
                    }) by {
                        match tbl1[i] {
                            Some(Inode::Dir(d)) => {
                                assert(tbl0[i] == tbl1[i]);
                                assert(crate::filesystem::dir_ok(tbl0, d));
                                assert forall|j: int|
                                    0 <= j < d.filename_to_inode_dict@.len() implies valid_target(
                                    tbl1,
                                    (#[trigger] d.filename_to_inode_dict@[j]).inode,
                                ) by {
                                    assert(valid_target(
                                        tbl0,
                                        d.filename_to_inode_dict@[j].inode,
                                    ));
                                }
                            },
                            _ => {},
                        }
                    }
                }
                assert forall|i: int| 0 <= i < tbl1.len() implies (match
                #[trigger] tbl1[i] {
                    Some(nn) => inode_size(nn) <= FS_SIZE_MAX,
                    None => true,
                }) by {
                    if i != f.inode {
                        assert(tbl1[i] == tbl0[i]);
                    }
                }
                assert forall|i: int| 0 <= i < tbl1.len() implies (match
                #[trigger] tbl1[i] {
                    Some(Inode::File(_)) => has_fobj(fot1, i as usize),
                    _ => true,
                }) by {
                    match tbl1[i] {
                        Some(Inode::File(_)) => {
                            assert(has_fobj(fot0, i as usize));
                            let j = choose|j: int|
                                0 <= j < fot0.len() && (#[trigger] fot0[j]).inodenum == i
                                    as usize;
                            assert(fot1[j].inodenum == i as usize);
                            assert(has_fobj(fot1, i as usize));
                        },
                        _ => {},
                    }
                }
                assert forall|kk: int| 0 <= kk < fot1.len() implies fobj_entry_ok(
                    tbl1,
                    #[trigger] fot1[kk],
                ) by {
                    assert(fobj_entry_ok(tbl0, fot0[kk]));
                    if kk != k {
                        assert(fot0[kk].inodenum != fot0[k as int].inodenum);
                    }
                }
                assert forall|k1: int, k2: int| 0 <= k1 < k2 < fot1.len() implies (
                #[trigger] fot1[k1]).inodenum != (#[trigger] fot1[k2]).inodenum by {
                    assert(fot1[k1].inodenum == fot0[k1].inodenum);
                    assert(fot1[k2].inodenum == fot0[k2].inodenum);
                }
            }
            assert forall|i: int| 0 <= i < fs.desctable@.len() implies (match
            #[trigger] fs.desctable@[i] {
                Some(e2) => crate::cage::desc_ok(fs.metadata, e2),
                None => true,
            }) by {
                if fs.desctable@[i] is Some {
                    assert(fs.desctable@[i] == old(fs).desctable@[i]);
                    assert(crate::cage::desc_ok(old(fs).metadata, fs.desctable@[i]->0));
                }
            }
        }
        n as i32
    }
}

// ---------------------------------------------------------------------------
// fstat, dup, close, unlink, exit
// ---------------------------------------------------------------------------

/// An inode with one open handle fewer (never below zero).
pub open spec fn dec_refcount(o: Option<Inode>) -> Option<Inode> {
    match o {
        Some(Inode::File(g)) => Some(
            Inode::File(
                (GenericInode {
                    refcount: if g.refcount > 0 {
                        (g.refcount - 1) as u32
                    } else {
                        0
                    },
                    ..g
                }),
            ),
        ),
        Some(Inode::Dir(d)) => Some(
            Inode::Dir(
                (DirectoryInode {
                    refcount: if d.refcount > 0 {
                        (d.refcount - 1) as u32
                    } else {
                        0
                    },
                    ..d
                }),
            ),
        ),
        Some(Inode::CharDev(c)) => Some(
            Inode::CharDev(
                (DeviceInode {
                    refcount: if c.refcount > 0 {
                        (c.refcount - 1) as u32
                    } else {
                        0
                    },
                    ..c
                }),
            ),
        ),
        other => other,
    }
}

/// One slot of the shared descriptor table is released: a later alias
/// just gives its reference up; the last alias removes the object and,
/// for a file, takes one open handle off the inode.
pub open spec fn release_slot(fs0: FsState, idx: int, fs1: FsState) -> bool {
    let tbl0 = fs0.metadata.inodetable@;
    match fs0.desctable@[idx] {
        None => fs1 == fs0,
        Some(e) => {
            if e.refs > 1 {
                &&& fs1.metadata == fs0.metadata
                &&& fs1.logsink == fs0.logsink
                &&& fs1.desctable@ == fs0.desctable@.update(
                    idx,
                    Some(DescEntry { refs: (e.refs - 1) as usize, desc: e.desc }),
                )
            } else {
                &&& fs1.desctable@ == fs0.desctable@.update(idx, None::<DescEntry>)
                &&& fs1.logsink == fs0.logsink
                &&& (match e.desc {
                    FileDescriptor::File(f) => {
                        &&& fs1.metadata.fileobjecttable
                            == fs0.metadata.fileobjecttable
                        &&& fs1.metadata.nextinode == fs0.metadata.nextinode
                        &&& fs1.metadata.dev_id == fs0.metadata.dev_id
                        &&& (if f.inode < tbl0.len() {
                            fs1.metadata.inodetable@ == tbl0.update(
                                f.inode as int,
                                dec_refcount(tbl0[f.inode as int]),
                            )
                        } else {
                            fs1.metadata == fs0.metadata
                        })
                    },
                    _ => fs1.metadata == fs0.metadata,
                })
            }
        },
    }
}

/// Release one slot of the shared descriptor table.
fn release_slot_exec(fs: &mut FsState, idx: usize)
    requires
        old(fs).wf(),
        idx < old(fs).desctable@.len(),
    ensures
        final(fs).wf(),
        release_slot(*old(fs), idx as int, *final(fs)),
        final(fs).desctable@.len() == old(fs).desctable@.len(),
        final(fs).metadata.inodetable@.len() == old(fs).metadata.inodetable@.len(),
        final(fs).devrand == old(fs).devrand,
{
    let origrefs: usize;
    let last: Option<FileDesc>;
    match &fs.desctable[idx] {
        Some(e) => {
            origrefs = e.refs;
            last = match &e.desc {
                FileDescriptor::File(f) => Some(
                    FileDesc { position: f.position, inode: f.inode, flags: f.flags },
                ),
                _ => None,
            };
        },
        None => {
            return ;
        },
    }
    if origrefs > 1 {
        match &mut fs.desctable[idx] {
            Some(e) => {
                e.refs = e.refs - 1;
            },
            None => {
                proof {
                    assert(false);
                }
            },
        }
        proof {
            assert forall|i: int| 0 <= i < fs.desctable@.len() implies (match
            #[trigger] fs.desctable@[i] {
                Some(e2) => crate::cage::desc_ok(fs.metadata, e2),
                None => true,
            }) by {
                if i != idx {
                    assert(fs.desctable@[i] == old(fs).desctable@[i]);
                }
            }
            crate::cage::lemma_census_same_contrib(
                fs.metadata,
                old(fs).desctable@,
                idx as int,
                fs.desctable@[idx as int],
            );
        }
        return ;
    }
    fs.desctable[idx] = None;
    if let Some(f) = last {
        if f.inode < fs.metadata.inodetable.len() {
            match &mut fs.metadata.inodetable[f.inode] {
                Some(Inode::File(g)) => {
                    if g.refcount > 0 {
                        g.refcount = g.refcount - 1;
                    }
                },
                Some(Inode::Dir(g)) => {
                    if g.refcount > 0 {
                        g.refcount = g.refcount - 1;
                    }
                },
                Some(Inode::CharDev(g)) => {
                    if g.refcount > 0 {
                        g.refcount = g.refcount - 1;
                    }
                },
                _ => {},
            }
        }
    }
    proof {
        let tbl0 = old(fs).metadata.inodetable@;
        let tbl1 = fs.metadata.inodetable@;
        let fot0 = old(fs).metadata.fileobjecttable@;
        assert(md_wf(fs.metadata)) by {
            assert(crate::filesystem::table_ok(tbl1)) by {
                assert forall|i: int| 0 <= i < tbl1.len() implies (match
                #[trigger] tbl1[i] {
                    Some(Inode::Dir(d)) => crate::filesystem::dir_ok(tbl1, d),
                    _ => true,
                }) by {
                    match tbl1[i] {
                        Some(Inode::Dir(d)) => {
                            let dd0 = (match tbl0[i] {
                                Some(Inode::Dir(x)) => x,
                                _ => arbitrary(),
                            });
                            assert(tbl0[i] matches Some(Inode::Dir(_)));
                            assert(d.filename_to_inode_dict@
                                == dd0.filename_to_inode_dict@);
                            assert(crate::filesystem::dir_ok(tbl0, dd0));
                            assert forall|j: int|
                                0 <= j < d.filename_to_inode_dict@.len() implies valid_target(
                                tbl1,
                                (#[trigger] d.filename_to_inode_dict@[j]).inode,
                            ) by {
                                assert(valid_target(
                                    tbl0,
                                    dd0.filename_to_inode_dict@[j].inode,
                                ));
                            }
                        },
                        _ => {},
                    }
                }
            }
            assert forall|kk: int| 0 <= kk < fot0.len() implies fobj_entry_ok(
                tbl1,
                #[trigger] fot0[kk],
            ) by {
                assert(fobj_entry_ok(tbl0, fot0[kk]));
            }
        }
        assert forall|i: int| 0 <= i < fs.desctable@.len() implies (match
        #[trigger] fs.desctable@[i] {
            Some(e2) => crate::cage::desc_ok(fs.metadata, e2),
            None => true,
        }) by {
            if i != idx {
                assert(fs.desctable@[i] == old(fs).desctable@[i]);
                match fs.desctable@[i] {
                    Some(e2) => {
                        assert(crate::cage::desc_ok(old(fs).metadata, e2));
                    },
                    None => {},
                }
            }
        }
        let dt0 = old(fs).desctable@;
        assert forall|ino: usize| ino < tbl1.len() implies refcount_of(tbl1, ino)
            == #[trigger] crate::cage::desc_count(fs.desctable@, ino) by {
            crate::cage::lemma_desc_count_update(dt0, idx as int, None, ino);
            assert(crate::cage::desc_count(dt0, ino) == refcount_of(tbl0, ino));
            match last {
                Some(f) => {
                    assert(crate::cage::desc_ok(old(fs).metadata, (match dt0[idx as int] {
                        Some(e2) => e2,
                        None => arbitrary(),
                    })));
                    assert(f.inode < tbl0.len());
                    if ino == f.inode {
                        assert(crate::cage::desc_contrib(dt0[idx as int], ino) == 1);
                        assert(refcount_of(tbl0, ino) >= 1);
                        assert(refcount_of(tbl1, ino) == refcount_of(tbl0, ino) - 1);
                    } else {
                        assert(crate::cage::desc_contrib(dt0[idx as int], ino) == 0);
                        assert(tbl1[ino as int] == tbl0[ino as int]);
                    }
                },
                None => {
                    assert(crate::cage::desc_contrib(dt0[idx as int], ino) == 0);
                    assert(tbl1 == tbl0);
                },
            }
        }
    }
}

/// What `close` does: the descriptor number is unbound and its shared
/// object released.
pub open spec fn close_outcome(
    c0: Cage,
    fs0: FsState,
    fd: int,
    c1: Cage,
    fs1: FsState,
    r: i32,
) -> bool {
    match c0.spec_fd_get(fd) {
        None => r == -EBADF && state_unchanged(c0, fs0, c1, fs1),
        Some(idx) => match fs0.desctable@[idx as int] {
            None => r == -EBADF && state_unchanged(c0, fs0, c1, fs1),
            Some(_) => {
                &&& r == 0
                &&& release_slot(fs0, idx as int, fs1)
                &&& c1.filedescriptortable@ == fdt_with(
                    c0.filedescriptortable@,
                    fd,
                    None,
                )
                &&& c1.cwd == c0.cwd
                &&& c1.cageid == c0.cageid
                &&& c1.parent == c0.parent
            },
        },
    }
}

/// What `dup` does: a fresh (or preferred) descriptor number aliases the
/// same shared object, whose reference count grows by one; positions and
/// flags are shared, and the filesystem metadata never moves.
pub open spec fn dup_outcome(
    c0: Cage,
    fs0: FsState,
    fd: int,
    start_desc: Option<i32>,
    c1: Cage,
    fs1: FsState,
    r: i32,
) -> bool {
    match c0.spec_fd_get(fd) {
        None => r == -EBADF && state_unchanged(c0, fs0, c1, fs1),
        Some(idx) => match fs0.desctable@[idx as int] {
            None => r == -EBADF && state_unchanged(c0, fs0, c1, fs1),
            Some(e) => {
                if no_free_fd(c0.filedescriptortable@) || e.refs == usize::MAX {
                    r == -ENFILE && state_unchanged(c0, fs0, c1, fs1)
                } else {
                    &&& r >= 0
                    &&& fd_free(c0.filedescriptortable@, r as int)
                    &&& (match start_desc {
                        Some(p) => fd_free(c0.filedescriptortable@, p as int) ==> r == p,
                        None => true,
                    })
                    &&& (match start_desc {
                        Some(p) => fd_free(c0.filedescriptortable@, p as int) || forall|
                            k: int,
                        | 0 <= k < r ==> !fd_free(c0.filedescriptortable@, k),
                        None => forall|k: int|
                            0 <= k < r ==> !fd_free(c0.filedescriptortable@, k),
                    })
                    &&& c1.filedescriptortable@ == fdt_with(
                        c0.filedescriptortable@,
                        r as int,
                        Some(idx),
                    )
                    &&& c1.cwd == c0.cwd
                    &&& c1.cageid == c0.cageid
                    &&& c1.parent == c0.parent
                    &&& fs1.metadata == fs0.metadata
                    &&& fs1.logsink == fs0.logsink
                    &&& fs1.desctable@ == fs0.desctable@.update(
                        idx as int,
                        Some(DescEntry { refs: (e.refs + 1) as usize, desc: e.desc }),
                    )
                }
            },
        },
    }
}

/// One slot number out of a descriptor table is processed: a bound
/// in-range slot is released, anything else changes nothing.
pub open spec fn release_step(fs0: FsState, slot: Option<usize>, fs1: FsState) -> bool {
    match slot {
        Some(idx) => if (idx as int) < fs0.desctable@.len() {
            release_slot(fs0, idx as int, fs1)
        } else {
            fs1 == fs0
        },
        None => fs1 == fs0,
    }
}

/// Every slot of `slots` is processed once, from the last slot down to
/// the first: the chain of releases `exit` performs.
pub open spec fn released_all(
    fs0: FsState,
    slots: Seq<Option<usize>>,
    fs1: FsState,
) -> bool
    decreases slots.len(),
{
    if slots.len() == 0 {
        fs1 == fs0
    } else {
        exists|mid: FsState|
            #[trigger] release_step(fs0, slots.last(), mid) && released_all(
                mid,
                slots.drop_last(),
                fs1,
            )
    }
}

/// A further step onto a finished chain extends the chain by one slot
/// at its front (the front is released last).
proof fn lemma_released_all_extend(
    fs0: FsState,
    s: Seq<Option<usize>>,
    f1: FsState,
    x: Option<usize>,
    f2: FsState,
)
    requires
        released_all(fs0, s, f1),
        release_step(f1, x, f2),
    ensures
        released_all(fs0, seq![x] + s, f2),
    decreases s.len(),
{
    let s2 = seq![x] + s;
    if s.len() == 0 {
        assert(f1 == fs0);
        assert(s2.last() == x);
        assert(s2.drop_last() =~= Seq::<Option<usize>>::empty());
        assert(release_step(fs0, s2.last(), f2) && released_all(f2, s2.drop_last(), f2));
    } else {
        let mid = choose|mid: FsState|
            #[trigger] release_step(fs0, s.last(), mid) && released_all(
                mid,
                s.drop_last(),
                f1,
            );
        lemma_released_all_extend(mid, s.drop_last(), f1, x, f2);
        assert(s2.last() == s.last());
        assert(s2.drop_last() =~= seq![x] + s.drop_last());
        assert(release_step(fs0, s2.last(), mid) && released_all(mid, s2.drop_last(), f2));
    }
}

impl Cage {
    /// Report metadata through a descriptor: a file descriptor reads its
    /// inode, streams and pipes read fixed placeholder records, sockets
    /// are not supported, and an unknown descriptor is `EBADF`.
    pub fn fstat_syscall(&self, fs: &FsState, fd: i32, statbuf: &mut StatData) -> (r:
        i32)
        requires
            fs.wf(),
            self.wf(*fs),
        ensures
            (match self.spec_fd_get(fd as int) {
                None => r == -EBADF && *final(statbuf) == *old(statbuf),
                Some(idx) => match fs.desctable@[idx as int] {
                    None => r == -EBADF && *final(statbuf) == *old(statbuf),
                    Some(e) => match e.desc {
                        FileDescriptor::File(f) => r == 0 && *final(statbuf)
                            == spec_statdata(
                            fs.metadata.inodetable@,
                            fs.metadata.dev_id,
                            f.inode,
                            *old(statbuf),
                        ),
                        FileDescriptor::Socket(_) => r == -EOPNOTSUPP && *final(statbuf)
                            == *old(statbuf),
                        FileDescriptor::Stream(_) => r == 0 && *final(statbuf)
                            == spec_alt_statdata(
                            fs.metadata.dev_id,
                            STREAMINODE,
                            *old(statbuf),
                        ),
                        FileDescriptor::Pipe(_) => r == 0 && *final(statbuf)
                            == spec_alt_statdata(
                            fs.metadata.dev_id,
                            0xfeef0000,
                            *old(statbuf),
                        ),
                    },
                },
            }),
    {
        let idx = match self.fd_get(fd) {
            Some(i) => i,
            None => {
                return -EBADF;
            },
        };
        match &fs.desctable[idx] {
            Some(e) => match &e.desc {
                FileDescriptor::File(f) => {
                    proof {
                        assert((match fs.desctable@[idx as int] {
                            Some(e2) => crate::cage::desc_ok(fs.metadata, e2),
                            None => true,
                        }));
                    }
                    statbuf.st_ino = f.inode;
                    statbuf.st_dev = fs.metadata.dev_id;
                    match &fs.metadata.inodetable[f.inode] {
                        Some(Inode::File(g)) => {
                            Self::_istat_helper(g, statbuf);
                        },
                        Some(Inode::CharDev(g)) => {
                            Self::_istat_helper_chr_file(g, statbuf);
                        },
                        Some(Inode::Dir(g)) => {
                            Self::_istat_helper_dir(g, statbuf);
                        },
                        _ => {
                            proof {
                                assert(false);
                            }
                        },
                    }
                    0
                },
                FileDescriptor::Socket(_) => -EOPNOTSUPP,
                FileDescriptor::Stream(_) => {
                    self._stat_alt_helper(statbuf, STREAMINODE, &fs.metadata);
                    0
                },
                FileDescriptor::Pipe(_) => {
                    self._stat_alt_helper(statbuf, 0xfeef0000, &fs.metadata);
                    0
                },
            },
            None => -EBADF,
        }
    }

    /// Alias descriptor `fd` under a fresh number (the preferred one when
    /// supplied and free, else the lowest free): both numbers share one
    /// descriptor object, so they see one position.
    pub fn dup_syscall(&mut self, fs: &mut FsState, fd: i32, start_desc: Option<i32>) -> (r:
        i32)
        requires
            old(fs).wf(),
            old(self).wf(*old(fs)),
        ensures
            final(fs).wf(),
            final(self).wf(*final(fs)),
            final(fs).desctable@.len() == old(fs).desctable@.len(),
            dup_outcome(
                *old(self),
                *old(fs),
                fd as int,
                start_desc,
                *final(self),
                *final(fs),
                r,
            ),
    {
        let idx = match self.fd_get(fd) {
            Some(i) => i,
            None => {
                return -EBADF;
            },
        };
        let refs: usize = match &fs.desctable[idx] {
            Some(e) => e.refs,
            None => {
                return -EBADF;
            },
        };
        let newfd = match self.get_next_fd(start_desc) {
            Some(nfd) => nfd,
            None => {
                return -ENFILE;
            },
        };
        if refs == usize::MAX {
            return -ENFILE;
        }
        match &mut fs.desctable[idx] {
            Some(e) => {
                e.refs = e.refs + 1;
            },
            None => {
                proof {
                    assert(false);
                }
            },
        }
        self.fd_set(newfd as usize, Some(idx));
        proof {
            assert forall|i: int| 0 <= i < fs.desctable@.len() implies (match
            #[trigger] fs.desctable@[i] {
                Some(e2) => crate::cage::desc_ok(fs.metadata, e2),
                None => true,
            }) by {
                if i != idx {
                    assert(fs.desctable@[i] == old(fs).desctable@[i]);
                }
            }
            crate::cage::lemma_census_same_contrib(
                fs.metadata,
                old(fs).desctable@,
                idx as int,
                fs.desctable@[idx as int],
            );
        }
        newfd
    }

    /// `dup` onto a chosen number: equal numbers are a no-op; otherwise
    /// the target number is closed if open and then bound to the same
    /// shared object as `oldfd`.
    pub fn dup2_syscall(&mut self, fs: &mut FsState, oldfd: i32, newfd: i32) -> (r: i32)
        requires
            old(fs).wf(),
            old(self).wf(*old(fs)),
        ensures
            final(fs).wf(),
            final(self).wf(*final(fs)),
            final(fs).desctable@.len() == old(fs).desctable@.len(),
            (match old(self).spec_fd_get(oldfd as int) {
                None => r == -EBADF && state_unchanged(
                    *old(self),
                    *old(fs),
                    *final(self),
                    *final(fs),
                ),
                Some(idx) => {
                    if newfd < 0 || newfd >= MAXFD as i32 {
                        r == -EBADF && state_unchanged(
                            *old(self),
                            *old(fs),
                            *final(self),
                            *final(fs),
                        )
                    } else if newfd == oldfd || old(self).spec_fd_get(newfd as int)
                        == Some(idx) {
                        r == newfd && state_unchanged(
                            *old(self),
                            *old(fs),
                            *final(self),
                            *final(fs),
                        )
                    } else {
                        match old(fs).desctable@[idx as int] {
                            None => r == -EBADF && state_unchanged(
                                *old(self),
                                *old(fs),
                                *final(self),
                                *final(fs),
                            ),
                            Some(e) => {
                                if e.refs == usize::MAX {
                                    r == -ENFILE && state_unchanged(
                                        *old(self),
                                        *old(fs),
                                        *final(self),
                                        *final(fs),
                                    )
                                } else {
                                    &&& r == newfd
                                    &&& final(self).filedescriptortable@ == fdt_with(
                                        old(self).filedescriptortable@,
                                        newfd as int,
                                        Some(idx),
                                    )
                                    &&& final(self).cwd == old(self).cwd
                                    &&& final(self).cageid == old(self).cageid
                                    &&& final(self).parent == old(self).parent
                                    &&& (match old(self).spec_fd_get(newfd as int) {
                                        Some(oldidx) => exists|mid: FsState|
                                            release_slot(*old(fs), oldidx as int, mid)
                                                && #[trigger] bump_ref(
                                                mid,
                                                idx as int,
                                                *final(fs),
                                            ),
                                        None => bump_ref(
                                            *old(fs),
                                            idx as int,
                                            *final(fs),
                                        ),
                                    })
                                }
                            },
                        }
                    }
                },
            }),
    {
        let idx = match self.fd_get(oldfd) {
            Some(i) => i,
            None => {
                return -EBADF;
            },
        };
        if newfd < 0 || newfd >= MAXFD as i32 {
            return -EBADF;
        }
        if newfd == oldfd {
            return newfd;
        }
        let oldtarget = self.fd_get(newfd);
        if let Some(oidx) = oldtarget {
            if oidx == idx {
                return newfd;
            }
        }
        let refs: usize = match &fs.desctable[idx] {
            Some(e) => e.refs,
            None => {
                return -EBADF;
            },
        };
        if refs == usize::MAX {
            return -ENFILE;
        }
        let ghost fs_before = *fs;
        if let Some(oidx) = oldtarget {
            release_slot_exec(fs, oidx);
        }
        let ghost fs_mid = *fs;
        match &mut fs.desctable[idx] {
            Some(e) => {
                e.refs = e.refs + 1;
            },
            None => {
                proof {
                    assert(false);
                }
            },
        }
        self.fd_set(newfd as usize, Some(idx));
        proof {
            assert forall|i: int| 0 <= i < fs.desctable@.len() implies (match
            #[trigger] fs.desctable@[i] {
                Some(e2) => crate::cage::desc_ok(fs.metadata, e2),
                None => true,
            }) by {
                if i != idx {
                    assert(fs.desctable@[i] == fs_mid.desctable@[i]);
                }
            }
            crate::cage::lemma_census_same_contrib(
                fs.metadata,
                fs_mid.desctable@,
                idx as int,
                fs.desctable@[idx as int],
            );
            assert(bump_ref(fs_mid, idx as int, *fs));
        }
        newfd
    }

    /// Unbind descriptor number `fd` and release its shared object; the
    /// last alias of a file descriptor gives the inode's open handle
    /// back.
    pub fn close_syscall(&mut self, fs: &mut FsState, fd: i32) -> (r: i32)
        requires
            old(fs).wf(),
            old(self).wf(*old(fs)),
        ensures
            final(fs).wf(),
            final(self).wf(*final(fs)),
            final(fs).desctable@.len() == old(fs).desctable@.len(),
            close_outcome(*old(self), *old(fs), fd as int, *final(self), *final(fs), r),
    {
        let idx = match self.fd_get(fd) {
            Some(i) => i,
            None => {
                return -EBADF;
            },
        };
        match &fs.desctable[idx] {
            Some(_) => {},
            None => {
                return -EBADF;
            },
        }
        release_slot_exec(fs, idx);
        self.fd_set(fd as usize, None);
        0
    }

    /// Remove the name `path` gives to a file. Removing a directory is
    /// `EISDIR`, a missing path `ENOENT`; while any descriptor still
    /// holds the file open the deferred-reclamation path is not
    /// implemented and the call reports `EOPNOTSUPP`.
    pub fn unlink_syscall(&self, fs: &mut FsState, path: &str) -> (r: i32)
        requires
            old(fs).wf(),
            self.wf(*old(fs)),
        ensures
            final(fs).wf(),
            self.wf(*final(fs)),
            final(fs).desctable == old(fs).desctable,
            (match spec_walk2(old(fs).metadata, self.spec_path(path)) {
                (None, _) => r == -ENOENT && *final(fs) == *old(fs),
                (Some(ino), popt) => {
                    let tbl0 = old(fs).metadata.inodetable@;
                    if inode_at(tbl0, ino) matches Some(Inode::Dir(_)) {
                        r == -EISDIR && *final(fs) == *old(fs)
                    } else if popt is None {
                        r == -ENOENT && *final(fs) == *old(fs)
                    } else if refcount_of(tbl0, ino) > 0 {
                        r == -EOPNOTSUPP && *final(fs) == *old(fs)
                    } else {
                        let p = popt->0;
                        let tbl1 = final(fs).metadata.inodetable@;
                        &&& r == 0
                        &&& spec_walk(final(fs).metadata, self.spec_path(path)) is None
                        &&& linkcount_of(tbl1, ino) == (if linkcount_of(tbl0, ino) > 0 {
                            linkcount_of(tbl0, ino) - 1
                        } else {
                            0
                        })
                        &&& forall|i: int|
                            0 <= i < tbl0.len() && i != p && i != ino
                                ==> #[trigger] tbl1[i] == tbl0[i]
                        &&& tbl1.len() == tbl0.len()
                        &&& (match (tbl0[p as int], tbl1[p as int]) {
                            (Some(Inode::Dir(d0)), Some(Inode::Dir(d1))) => {
                                &&& d1.filename_to_inode_dict@.len()
                                    == d0.filename_to_inode_dict@.len() - 1
                                &&& dir_find(
                                    d1.filename_to_inode_dict@,
                                    self.spec_path(path).last(),
                                ) is None
                            },
                            _ => false,
                        })
                        &&& final(fs).metadata.fileobjecttable
                            == old(fs).metadata.fileobjecttable
                        &&& final(fs).logsink == old(fs).logsink
                    }
                },
            }),
    {
        let pathbytes = convpath(path);
        let truepath = normpath(&self.cwd, &pathbytes);
        let ghost comps = comps_view(truepath);
        let ghost tbl0 = fs.metadata.inodetable@;
        let walked = metawalkandparent(&fs.metadata, &truepath);
        let (ino, p) = match (walked.0, walked.1) {
            (None, _) => {
                return -ENOENT;
            },
            (Some(ino), None) => {
                proof {
                    lemma_walk2_fst(tbl0, ROOTDIRECTORYINODE, comps);
                    assert(valid_target(tbl0, ROOTDIRECTORYINODE));
                    lemma_walk_valid(tbl0, ROOTDIRECTORYINODE, comps);
                }
                match &fs.metadata.inodetable[ino] {
                    Some(Inode::Dir(_)) => {
                        return -EISDIR;
                    },
                    _ => {
                        return -ENOENT;
                    },
                }
            },
            (Some(ino), Some(p)) => (ino, p),
        };
        proof {
            lemma_walk2_fst(tbl0, ROOTDIRECTORYINODE, comps);
            assert(valid_target(tbl0, ROOTDIRECTORYINODE));
            lemma_walk_valid(tbl0, ROOTDIRECTORYINODE, comps);
            lemma_walk2_parent(tbl0, ROOTDIRECTORYINODE, comps);
        }
        let isdir: bool = match &fs.metadata.inodetable[ino] {
            Some(Inode::Dir(_)) => true,
            _ => false,
        };
        if isdir {
            return -EISDIR;
        }
        let oldref: u32 = match &fs.metadata.inodetable[ino] {
            Some(Inode::File(g)) => g.refcount,
            Some(Inode::CharDev(g)) => g.refcount,
            _ => {
                proof {
                    assert(false);
                }
                0
            },
        };
        if oldref > 0 {
            return -EOPNOTSUPP;
        }
        let lastname = crate::filesystem::clone_bytes(&truepath[truepath.len() - 1]);
        let mut entpos: usize = 0;
        let mut found = false;
        match &fs.metadata.inodetable[p] {
            Some(Inode::Dir(d)) => {
                let mut j: usize = 0;
                while j < d.filename_to_inode_dict.len() && !found
                    invariant
                        j <= d.filename_to_inode_dict@.len(),
                        !found ==> forall|jj: int|
                            0 <= jj < j ==> (
                            #[trigger] d.filename_to_inode_dict@[jj].name@)
                                != lastname@,
                        found ==> entpos < d.filename_to_inode_dict@.len()
                            && d.filename_to_inode_dict@[entpos as int].name@
                            == lastname@,
                    decreases d.filename_to_inode_dict@.len() - j + (if found {
                        0int
                    } else {
                        1int
                    }),
                {
                    if bytes_eq(&d.filename_to_inode_dict[j].name, &lastname) {
                        entpos = j;
                        found = true;
                    } else {
                        j = j + 1;
                    }
                }
                proof {
                    lemma_dir_find_some(d.filename_to_inode_dict@, comps.last());
                    assert(lastname@ == comps.last());
                    assert(found);
                }
            },
            _ => {
                proof {
                    assert(false);
                }
            },
        }
        match &mut fs.metadata.inodetable[p] {
            Some(Inode::Dir(d)) => {
                d.filename_to_inode_dict.remove(entpos);
            },
            _ => {
                proof {
                    assert(false);
                }
            },
        }
        let ghost tblmid = fs.metadata.inodetable@;
        match &mut fs.metadata.inodetable[ino] {
            Some(Inode::File(g)) => {
                if g.linkcount > 0 {
                    g.linkcount = g.linkcount - 1;
                }
            },
            Some(Inode::CharDev(g)) => {
                if g.linkcount > 0 {
                    g.linkcount = g.linkcount - 1;
                }
            },
            _ => {
                proof {
                    assert(false);
                }
            },
        }
        proof {
            let tbl1 = fs.metadata.inodetable@;
            let fot0 = old(fs).metadata.fileobjecttable@;
            let d0 = (match tbl0[p as int] {
                Some(Inode::Dir(d)) => d,
                _ => arbitrary(),
            });
            let d1 = (match tbl1[p as int] {
                Some(Inode::Dir(d)) => d,
                _ => arbitrary(),
            });
            let s0 = d0.filename_to_inode_dict@;
            let s1 = d1.filename_to_inode_dict@;
            assert(s1 =~= s0.subrange(0, entpos as int) + s0.subrange(
                entpos + 1,
                s0.len() as int,
            ));
            assert forall|jj: int| 0 <= jj < s1.len() implies #[trigger] s1[jj].name@
                != comps.last() && valid_target(tbl1, s1[jj].inode) by {
                if jj < entpos {
                    assert(s1[jj] == s0[jj]);
                    assert(valid_target(tbl0, s0[jj].inode));
                } else {
                    assert(s1[jj] == s0[jj + 1]);
                    assert(valid_target(tbl0, s0[jj + 1].inode));
                }
            }
            lemma_dir_find_none(s1, comps.last());
            assert(md_wf(fs.metadata)) by {
                assert(crate::filesystem::table_ok(tbl1)) by {
                    assert forall|i: int| 0 <= i < tbl1.len() implies (match
                    #[trigger] tbl1[i] {
                        Some(Inode::Dir(d)) => crate::filesystem::dir_ok(tbl1, d),
                        _ => true,
                    }) by {
                        match tbl1[i] {
                            Some(Inode::Dir(d)) => {
                                if i == p {
                                    assert(d == d1);
                                    assert forall|j1: int, j2: int|
                                        0 <= j1 < j2 < s1.len() implies (
                                    #[trigger] s1[j1].name@) != (
                                    #[trigger] s1[j2].name@) by {
                                        let m1: int = if j1 < entpos {
                                            j1
                                        } else {
                                            j1 + 1
                                        };
                                        let m2: int = if j2 < entpos {
                                            j2
                                        } else {
                                            j2 + 1
                                        };
                                        assert(s1[j1] == s0[m1]);
                                        assert(s1[j2] == s0[m2]);
                                    }
                                } else {
                                    let dd0 = (match tbl0[i] {
                                        Some(Inode::Dir(x)) => x,
                                        _ => arbitrary(),
                                    });
                                    assert(tbl0[i] == tbl1[i]);
                                    assert(crate::filesystem::dir_ok(tbl0, dd0));
                                    assert forall|j: int|
                                        0 <= j < d.filename_to_inode_dict@.len() implies valid_target(
                                        tbl1,
                                        (#[trigger] d.filename_to_inode_dict@[j]).inode,
                                    ) by {
                                        assert(valid_target(
                                            tbl0,
                                            dd0.filename_to_inode_dict@[j].inode,
                                        ));
                                    }
                                }
                            },
                            _ => {},
                        }
                    }
                }
                assert forall|kk: int| 0 <= kk < fot0.len() implies fobj_entry_ok(
                    tbl1,
                    #[trigger] fot0[kk],
                ) by {
                    assert(fobj_entry_ok(tbl0, fot0[kk]));
                    assert(fot0[kk].inodenum != p);
                }
            }
            assert forall|i: int| 0 <= i < fs.desctable@.len() implies (match
            #[trigger] fs.desctable@[i] {
                Some(e2) => crate::cage::desc_ok(fs.metadata, e2),
                None => true,
            }) by {
                match fs.desctable@[i] {
                    Some(e2) => {
                        assert(crate::cage::desc_ok(old(fs).metadata, e2));
                    },
                    None => {},
                }
            }
            crate::filesystem::lemma_walk2_after_remove(
                tbl0,
                tblmid,
                ROOTDIRECTORYINODE,
                comps,
                p,
                entpos as int,
                ino,
            );
            assert forall|i: int| 0 <= i < tblmid.len() implies dir_dict_of(
                #[trigger] tbl1[i],
            ) == dir_dict_of(tblmid[i]) by {}
            lemma_walk2_shape(tblmid, tbl1, ROOTDIRECTORYINODE, comps);
            lemma_walk2_fst(tbl1, ROOTDIRECTORYINODE, comps);
        }
        0
    }

    /// Release every descriptor this cage holds — walking its table from
    /// the highest number down, each bound slot goes through one
    /// `release_slot` step — and report success; the embedder then
    /// removes the cage from the cage table.
    pub fn exit_syscall(&mut self, fs: &mut FsState) -> (r: i32)
        requires
            old(fs).wf(),
            old(self).wf(*old(fs)),
        ensures
            final(fs).wf(),
            final(self).wf(*final(fs)),
            final(self).filedescriptortable@.len() == 0,
            final(self).cageid == old(self).cageid,
            final(self).parent == old(self).parent,
            final(self).cwd == old(self).cwd,
            final(fs).desctable@.len() == old(fs).desctable@.len(),
            forall|i: int|
                0 <= i < old(fs).desctable@.len() ==> desc_weakened(
                    old(fs).desctable@[i],
                    #[trigger] final(fs).desctable@[i],
                ),
            final(fs).metadata.inodetable@.len() == old(fs).metadata.inodetable@.len(),
            forall|i: int|
                0 <= i < old(fs).metadata.inodetable@.len() ==> inode_weakened(
                    old(fs).metadata.inodetable@[i],
                    #[trigger] final(fs).metadata.inodetable@[i],
                ),
            final(fs).metadata.fileobjecttable == old(fs).metadata.fileobjecttable,
            final(fs).metadata.nextinode == old(fs).metadata.nextinode,
            final(fs).metadata.dev_id == old(fs).metadata.dev_id,
            final(fs).logsink == old(fs).logsink,
            released_all(*old(fs), old(self).filedescriptortable@, *final(fs)),
            r == 0,
    {
        proof {
            assert forall|i: int| 0 <= i < fs.desctable@.len() implies desc_weakened(
                old(fs).desctable@[i],
                #[trigger] fs.desctable@[i],
            ) by {}
            assert forall|i: int|
                0 <= i < fs.metadata.inodetable@.len() implies inode_weakened(
                old(fs).metadata.inodetable@[i],
                #[trigger] fs.metadata.inodetable@[i],
            ) by {
                match fs.metadata.inodetable@[i] {
                    Some(Inode::File(_)) => {},
                    Some(Inode::Dir(_)) => {},
                    Some(Inode::CharDev(_)) => {},
                    Some(Inode::Pipe(_)) => {},
                    Some(Inode::Socket(_)) => {},
                    None => {},
                }
            }
        }
        while self.filedescriptortable.len() > 0
            invariant
                fs.wf(),
                self.wf(*fs),
                self.cageid == old(self).cageid,
                self.parent == old(self).parent,
                self.cwd == old(self).cwd,
                fs.desctable@.len() == old(fs).desctable@.len(),
                forall|i: int|
                    0 <= i < old(fs).desctable@.len() ==> desc_weakened(
                        old(fs).desctable@[i],
                        #[trigger] fs.desctable@[i],
                    ),
                fs.metadata.inodetable@.len() == old(fs).metadata.inodetable@.len(),
                forall|i: int|
                    0 <= i < old(fs).metadata.inodetable@.len() ==> inode_weakened(
                        old(fs).metadata.inodetable@[i],
                        #[trigger] fs.metadata.inodetable@[i],
                    ),
                fs.metadata.fileobjecttable == old(fs).metadata.fileobjecttable,
                fs.metadata.nextinode == old(fs).metadata.nextinode,
                fs.metadata.dev_id == old(fs).metadata.dev_id,
                fs.logsink == old(fs).logsink,
                self.filedescriptortable@.len() <= old(self).filedescriptortable@.len(),
                self.filedescriptortable@ == old(self).filedescriptortable@.subrange(
                    0,
                    self.filedescriptortable@.len() as int,
                ),
                released_all(
                    *old(fs),
                    old(self).filedescriptortable@.skip(
                        self.filedescriptortable@.len() as int,
                    ),
                    *fs,
                ),
            decreases self.filedescriptortable@.len(),
        {
            let ghost pre = *self;
            let ghost n = pre.filedescriptortable@.len() as int;
            let ghost full = old(self).filedescriptortable@;
            let ghost prefs = *fs;
            let popped = self.filedescriptortable.pop();
            proof {
                assert(pre.filedescriptortable@ == full.subrange(0, n));
                assert(pre.filedescriptortable@.last() == full[n - 1]);
                assert(self.filedescriptortable@ =~= full.subrange(0, n - 1));
            }
            match popped {
                Some(Some(idx)) => {
                    proof {
                        assert((match full[n - 1] {
                            Some(x) => x < fs.desctable@.len(),
                            None => true,
                        }));
                    }
                    release_slot_exec(fs, idx);
                    proof {
                        lemma_release_weakens(*old(fs), prefs, *fs, idx as int);
                    }
                },
                _ => {},
            }
            proof {
                assert(release_step(prefs, full[n - 1], *fs));
                assert(released_all(*old(fs), full.skip(n), prefs));
                lemma_released_all_extend(
                    *old(fs),
                    full.skip(n),
                    prefs,
                    full[n - 1],
                    *fs,
                );
                assert(full.skip(n - 1) =~= seq![full[n - 1]] + full.skip(n));
            }
        }
        proof {
            assert(old(self).filedescriptortable@.skip(0)
                =~= old(self).filedescriptortable@);
        }
        0
    }
}

/// A release step composed onto an already-weakened state stays within
/// the weakened relation.
proof fn lemma_release_weakens(fs0: FsState, fsa: FsState, fsb: FsState, idx: int)
    requires
        fsa.desctable@.len() == fs0.desctable@.len(),
        forall|i: int|
            0 <= i < fs0.desctable@.len() ==> desc_weakened(
                fs0.desctable@[i],
                #[trigger] fsa.desctable@[i],
            ),
        fsa.metadata.inodetable@.len() == fs0.metadata.inodetable@.len(),
        forall|i: int|
            0 <= i < fs0.metadata.inodetable@.len() ==> inode_weakened(
                fs0.metadata.inodetable@[i],
                #[trigger] fsa.metadata.inodetable@[i],
            ),
        0 <= idx < fsa.desctable@.len(),
        release_slot(fsa, idx, fsb),
        fsb.desctable@.len() == fsa.desctable@.len(),
        fsb.metadata.inodetable@.len() == fsa.metadata.inodetable@.len(),
    ensures
        forall|i: int|
            0 <= i < fs0.desctable@.len() ==> desc_weakened(
                fs0.desctable@[i],
                #[trigger] fsb.desctable@[i],
            ),
        forall|i: int|
            0 <= i < fs0.metadata.inodetable@.len() ==> inode_weakened(
                fs0.metadata.inodetable@[i],
                #[trigger] fsb.metadata.inodetable@[i],
            ),
{
    assert forall|i: int| 0 <= i < fs0.desctable@.len() implies desc_weakened(
        fs0.desctable@[i],
        #[trigger] fsb.desctable@[i],
    ) by {
        if i != idx {
            match fsa.desctable@[idx] {
                Some(e) => {
                    assert(fsb.desctable@[i] == fsa.desctable@[i]);
                },
                None => {
                    assert(fsb == fsa);
                },
            }
        }
    }
    assert forall|i: int| 0 <= i < fs0.metadata.inodetable@.len() implies inode_weakened(
        fs0.metadata.inodetable@[i],
        #[trigger] fsb.metadata.inodetable@[i],
    ) by {
        match fsa.desctable@[idx] {
            Some(e) => {
                if e.refs > 1 {
                    assert(fsb.metadata == fsa.metadata);
                } else {
                    match e.desc {
                        FileDescriptor::File(f) => {
                            if f.inode < fsa.metadata.inodetable@.len() && i == f.inode {
                                assert(fsb.metadata.inodetable@[i] == dec_refcount(
                                    fsa.metadata.inodetable@[i],
                                ));
                                assert(inode_weakened(
                                    fsa.metadata.inodetable@[i],
                                    fsb.metadata.inodetable@[i],
                                ));
                            } else {
                                assert(fsb.metadata.inodetable@[i]
                                    == fsa.metadata.inodetable@[i]);
                            }
                        },
                        _ => {
                            assert(fsb.metadata == fsa.metadata);
                        },
                    }
                }
            },
            None => {
                assert(fsb == fsa);
            },
        }
        assert(inode_weakened(
            fsa.metadata.inodetable@[i],
            fsb.metadata.inodetable@[i],
        ));
        lemma_inode_weakened_trans(
            fs0.metadata.inodetable@[i],
            fsa.metadata.inodetable@[i],
            fsb.metadata.inodetable@[i],
        );
    }
}

/// The weakened-inode relation chains.
proof fn lemma_inode_weakened_trans(a: Option<Inode>, b: Option<Inode>, c: Option<Inode>)
    requires
        inode_weakened(a, b),
        inode_weakened(b, c),
    ensures
        inode_weakened(a, c),
{
}

/// Closing can only weaken a descriptor slot: a freed slot stays free,
/// and a kept object keeps its state with no more references than
/// before.
pub open spec fn desc_weakened(a: Option<DescEntry>, b: Option<DescEntry>) -> bool {
    match (a, b) {
        (None, bb) => bb is None,
        (Some(e0), Some(e1)) => e1.desc == e0.desc && e1.refs <= e0.refs,
        (Some(_), None) => true,
    }
}

/// Closing can only weaken an inode: everything is kept except the
/// open-handle count, which cannot grow.
pub open spec fn inode_weakened(a: Option<Inode>, b: Option<Inode>) -> bool {
    match (a, b) {
        (None, None) => true,
        (Some(Inode::File(g0)), Some(Inode::File(g1))) => g1 == (GenericInode {
            refcount: g1.refcount,
            ..g0
        }) && g1.refcount <= g0.refcount,
        (Some(Inode::Dir(d0)), Some(Inode::Dir(d1))) => d1 == (DirectoryInode {
            refcount: d1.refcount,
            filename_to_inode_dict: d1.filename_to_inode_dict,
            ..d0
        }) && d1.filename_to_inode_dict@ == d0.filename_to_inode_dict@ && d1.refcount
            <= d0.refcount,
        (Some(Inode::CharDev(c0)), Some(Inode::CharDev(c1))) => c1 == (DeviceInode {
            refcount: c1.refcount,
            ..c0
        }) && c1.refcount <= c0.refcount,
        (Some(Inode::Pipe(g0)), Some(Inode::Pipe(g1))) => g1 == g0,
        (Some(Inode::Socket(g0)), Some(Inode::Socket(g1))) => g1 == g0,
        _ => false,
    }
}

/// One more alias was taken on slot `idx`: its reference count grew by
/// one and nothing else moved.
pub open spec fn bump_ref(fs0: FsState, idx: int, fs1: FsState) -> bool {
    match fs0.desctable@[idx] {
        Some(e) => {
            &&& fs1.metadata == fs0.metadata
            &&& fs1.logsink == fs0.logsink
            &&& fs1.desctable@ == fs0.desctable@.update(
                idx,
                Some(DescEntry { refs: (e.refs + 1) as usize, desc: e.desc }),
            )
        },
        None => false,
    }
}

} // verus!
