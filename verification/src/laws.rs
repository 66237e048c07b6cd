//! Laws that tie several syscalls together, proved from the syscalls'
//! own contracts: what an open-close round trip does to an inode's
//! open-handle count, what aliased descriptors observe of one another,
//! how a run of sequential writes grows a file, and that an exclusive
//! create on one path can succeed only once.

use vstd::prelude::*;
use crate::cage::{Cage, FileDescriptor, FsState};
use crate::filesystem::{
    comps_view, inode_at, lemma_walk2_fst, linkcount_of, refcount_of, size_of,
    spec_normalize, spec_walk, spec_walk2, Inode,
};
use crate::fs_calls::{
    close_outcome, created_file_at, dup_outcome, no_free_fd, open_outcome,
    read_outcome, release_slot, write_outcome,
};
use crate::fs_constants::{EEXIST, FS_SIZE_MAX, O_CREAT, O_EXCL, spec_is_rdonly};

verus! {

/// The seek position a descriptor number observes, when it names a file
/// descriptor.
pub open spec fn position_via(c: Cage, fs: FsState, fd: int) -> Option<usize> {
    match c.spec_fd_get(fd) {
        Some(idx) => match fs.desctable@[idx as int] {
            Some(e) => match e.desc {
                FileDescriptor::File(f) => Some(f.position),
                _ => None,
            },
            None => None,
        },
        None => None,
    }
}

/// Descriptor number `fd` of cage `c` names an open regular file `ino`,
/// writable, whose position sits exactly at the end of the file.
pub open spec fn appending_fd(c: Cage, fs: FsState, fd: int, ino: usize) -> bool {
    match c.spec_fd_get(fd) {
        Some(idx) => match fs.desctable@[idx as int] {
            Some(e) => match e.desc {
                FileDescriptor::File(f) => {
                    &&& f.inode == ino
                    &&& !spec_is_rdonly(f.flags)
                    &&& f.position == size_of(fs.metadata.inodetable@, ino)
                    &&& inode_at(fs.metadata.inodetable@, ino) matches Some(
                        Inode::File(_),
                    )
                },
                _ => false,
            },
            None => false,
        },
        None => false,
    }
}

/// The total of a list of byte counts.
pub open spec fn sum_of(counts: Seq<int>) -> int
    decreases counts.len(),
{
    if counts.len() == 0 {
        0
    } else {
        counts[0] + sum_of(counts.skip(1))
    }
}

/// A run of writes through one descriptor: state `i` steps to state
/// `i + 1` by writing `counts[i]` bytes of `bufs[i]`.
pub open spec fn seq_writes(
    c: Cage,
    fd: int,
    states: Seq<FsState>,
    bufs: Seq<Seq<u8>>,
    counts: Seq<int>,
    rs: Seq<i32>,
) -> bool {
    &&& states.len() == counts.len() + 1
    &&& bufs.len() == counts.len()
    &&& rs.len() == counts.len()
    &&& forall|i: int|
        0 <= i < counts.len() ==> write_outcome(
            c,
            #[trigger] states[i],
            fd,
            bufs[i],
            counts[i],
            states[i + 1],
            rs[i],
        )
}

/// A successful open creates or opens the path's inode: afterwards the
/// walk finds it, and a created file carries its one fresh name.
pub proof fn lemma_open_finds_inode(
    c0: Cage,
    fs0: FsState,
    path: Seq<u8>,
    flags: i32,
    mode: u32,
    c1: Cage,
    fs1: FsState,
    r: i32,
)
    requires
        open_outcome(c0, fs0, path, flags, mode, c1, fs1, r),
        r >= 0,
    ensures
        spec_walk(fs1.metadata, spec_normalize(comps_view(c0.cwd), path)) is Some,
        (match spec_walk2(fs0.metadata, spec_normalize(comps_view(c0.cwd), path)) {
            (None, Some(_)) => {
                let ino = fs0.metadata.nextinode;
                &&& spec_walk(fs1.metadata, spec_normalize(comps_view(c0.cwd), path))
                    == Some(ino)
                &&& linkcount_of(fs1.metadata.inodetable@, ino) == 1
                &&& refcount_of(fs1.metadata.inodetable@, ino) == 1
            },
            _ => true,
        }),
{
    let comps = spec_normalize(comps_view(c0.cwd), path);
    match spec_walk2(fs0.metadata, comps) {
        (None, None) => {
            assert(false);
        },
        (None, Some(p)) => {
            assert(created_file_at(fs1, fs0.metadata.nextinode, mode));
        },
        (Some(ino), _) => {},
    }
}

/// An open followed by a close of the returned descriptor, with no other
/// operation in between, brings the opened inode's open-handle count back
/// to its value before the open — and that close cannot fail.
pub proof fn lemma_open_close_refcount(
    c0: Cage,
    fs0: FsState,
    path: Seq<u8>,
    flags: i32,
    mode: u32,
    c1: Cage,
    fs1: FsState,
    fd: i32,
    c2: Cage,
    fs2: FsState,
    rc: i32,
)
    requires
        fs0.wf(),
        open_outcome(c0, fs0, path, flags, mode, c1, fs1, fd),
        fd >= 0,
        close_outcome(c1, fs1, fd as int, c2, fs2, rc),
    ensures
        rc == 0,
        (match spec_walk(fs1.metadata, spec_normalize(comps_view(c0.cwd), path)) {
            Some(ino) => refcount_of(fs2.metadata.inodetable@, ino) == refcount_of(
                fs0.metadata.inodetable@,
                ino,
            ),
            None => false,
        }),
{
    let comps = spec_normalize(comps_view(c0.cwd), path);
    assert(vstd::std_specs::vec::spec_vec_len(&fs0.desctable) == fs0.desctable@.len());
    let idxu = fs0.desctable@.len() as usize;
    let idx0 = idxu as int;
    assert(idx0 == fs0.desctable@.len());
    match spec_walk2(fs0.metadata, comps) {
        (None, None) => {
            assert(false);
        },
        (None, Some(p)) => {
            let ino = fs0.metadata.nextinode;
            assert(c1.spec_fd_get(fd as int) == Some(idxu));
            assert(fs1.desctable@[idx0] matches Some(e) && e.refs == 1);
            assert(release_slot(fs1, idx0, fs2));
            assert(refcount_of(fs2.metadata.inodetable@, ino) == 0);
        },
        (Some(ino), _) => {
            lemma_walk2_fst(
                fs0.metadata.inodetable@,
                crate::fs_constants::ROOTDIRECTORYINODE,
                comps,
            );
            crate::filesystem::lemma_walk_valid(
                fs0.metadata.inodetable@,
                crate::fs_constants::ROOTDIRECTORYINODE,
                comps,
            );
            assert(crate::filesystem::valid_target(fs0.metadata.inodetable@, ino));
            assert(c1.spec_fd_get(fd as int) == Some(idxu));
            assert(fs1.desctable@[idx0] matches Some(e) && e.refs == 1);
            assert(release_slot(fs1, idx0, fs2));
            assert(refcount_of(fs1.metadata.inodetable@, ino) == refcount_of(
                fs0.metadata.inodetable@,
                ino,
            ) + 1);
            assert(ino < fs1.metadata.inodetable@.len());
            assert(refcount_of(fs2.metadata.inodetable@, ino) == refcount_of(
                fs0.metadata.inodetable@,
                ino,
            ));
        },
    }
}

/// Descriptor numbers produced by dup alias one shared object: a read
/// through either number moves the one position that both observe, by
/// exactly the bytes read.
pub proof fn lemma_dup_shares_position(
    c0: Cage,
    fs0: FsState,
    fd: i32,
    start_desc: Option<i32>,
    c1: Cage,
    fs1: FsState,
    newfd: i32,
    count: int,
    buf0: Seq<u8>,
    fs2: FsState,
    buf1: Seq<u8>,
    r: i32,
)
    requires
        fs1.wf(),
        c0.wf(fs0),
        dup_outcome(c0, fs0, fd as int, start_desc, c1, fs1, newfd),
        newfd >= 0,
        read_outcome(c1, fs1, fd as int, count, buf0, fs2, buf1, r),
        r >= 0,
        (match c0.spec_fd_get(fd as int) {
            Some(idx) => match fs0.desctable@[idx as int] {
                Some(e) => match e.desc {
                    FileDescriptor::File(f) => inode_at(
                        fs0.metadata.inodetable@,
                        f.inode,
                    ) matches Some(Inode::File(_)),
                    _ => false,
                },
                None => false,
            },
            None => false,
        }),
    ensures
        c1.spec_fd_get(newfd as int) == c1.spec_fd_get(fd as int),
        position_via(c1, fs2, newfd as int) == position_via(c1, fs2, fd as int),
        (match (position_via(c1, fs1, fd as int), position_via(c1, fs2, fd as int)) {
            (Some(p1), Some(p2)) => p2 == p1 + r,
            _ => false,
        }),
{
    let idx = (match c0.spec_fd_get(fd as int) {
        Some(i) => i,
        None => arbitrary(),
    });
    assert(c0.spec_fd_get(fd as int) is Some);
    assert(fd != newfd);
    assert(c1.spec_fd_get(fd as int) == Some(idx));
    assert(c1.spec_fd_get(newfd as int) == Some(idx));
    assert((match fs1.desctable@[idx as int] {
        Some(e2) => crate::cage::desc_ok(fs1.metadata, e2),
        None => true,
    }));
    match fs1.desctable@[idx as int] {
        Some(e) => match e.desc {
            FileDescriptor::File(f) => {
                assert(f.position <= FS_SIZE_MAX);
                assert((match fs1.metadata.inodetable@[f.inode as int] {
                    Some(nn) => crate::filesystem::inode_size(nn) <= FS_SIZE_MAX,
                    None => true,
                }));
            },
            _ => {
                assert(false);
            },
        },
        None => {
            assert(false);
        },
    }
}

/// `n` writes at sequential offsets starting at the end of the file (and
/// at offset 0 for a fresh file) leave the file's recorded size larger by
/// exactly the total bytes written, and every write is full.
pub proof fn lemma_sequential_writes_size(
    c: Cage,
    fd: int,
    states: Seq<FsState>,
    bufs: Seq<Seq<u8>>,
    counts: Seq<int>,
    rs: Seq<i32>,
    ino: usize,
)
    requires
        seq_writes(c, fd, states, bufs, counts, rs),
        forall|i: int| 0 <= i < states.len() ==> (#[trigger] states[i]).wf(),
        c.wf(states[0]),
        appending_fd(c, states[0], fd, ino),
        forall|i: int| 0 <= i < counts.len() ==> 0 <= #[trigger] counts[i] <= bufs[i].len(),
        size_of(states[0].metadata.inodetable@, ino) + sum_of(counts) <= FS_SIZE_MAX,
    ensures
        size_of(states.last().metadata.inodetable@, ino) == size_of(
            states[0].metadata.inodetable@,
            ino,
        ) + sum_of(counts),
        forall|i: int| 0 <= i < counts.len() ==> #[trigger] rs[i] == counts[i],
        appending_fd(c, states.last(), fd, ino),
    decreases counts.len(),
{
    if counts.len() == 0 {
        assert(states.last() == states[0]);
    } else {
        let s0 = states[0];
        let s1 = states[1];
        let size0 = size_of(s0.metadata.inodetable@, ino);
        assert(write_outcome(c, s0, fd, bufs[0], counts[0], s1, rs[0]));
        assert(states[0].wf() && states[1].wf());
        let idx = (match c.spec_fd_get(fd) {
            Some(i) => i,
            None => arbitrary(),
        });
        assert((match s0.desctable@[idx as int] {
            Some(e2) => crate::cage::desc_ok(s0.metadata, e2),
            None => true,
        }));
        assert((match s0.metadata.inodetable@[ino as int] {
            Some(nn) => crate::filesystem::inode_size(nn) <= FS_SIZE_MAX,
            None => true,
        }));
        assert(sum_of(counts) == counts[0] + sum_of(counts.skip(1)));
        assert(sum_of(counts.skip(1)) >= 0) by {
            lemma_sum_nonneg(counts.skip(1));
        }
        assert(rs[0] == counts[0]);
        assert(size_of(s1.metadata.inodetable@, ino) == size0 + counts[0]);
        assert(appending_fd(c, s1, fd, ino));
        assert(seq_writes(c, fd, states.skip(1), bufs.skip(1), counts.skip(1), rs.skip(1)))
            by {
            assert forall|i: int| 0 <= i < counts.skip(1).len() implies write_outcome(
                c,
                #[trigger] states.skip(1)[i],
                fd,
                bufs.skip(1)[i],
                counts.skip(1)[i],
                states.skip(1)[i + 1],
                rs.skip(1)[i],
            ) by {
                assert(states.skip(1)[i] == states[i + 1]);
                assert(states.skip(1)[i + 1] == states[i + 2]);
                assert(bufs.skip(1)[i] == bufs[i + 1]);
                assert(counts.skip(1)[i] == counts[i + 1]);
                assert(rs.skip(1)[i] == rs[i + 1]);
            }
        }
        assert forall|i: int| 0 <= i < states.skip(1).len() implies (
        #[trigger] states.skip(1)[i]).wf() by {
            assert(states.skip(1)[i] == states[i + 1]);
        }
        assert forall|i: int|
            0 <= i < counts.skip(1).len() implies 0 <= #[trigger] counts.skip(1)[i]
            <= bufs.skip(1)[i].len() by {
            assert(counts.skip(1)[i] == counts[i + 1]);
            assert(bufs.skip(1)[i] == bufs[i + 1]);
        }
        assert(c.wf(states[1])) by {
            assert forall|fdn: int|
                0 <= fdn < c.filedescriptortable@.len() implies (match
            #[trigger] c.filedescriptortable@[fdn] {
                Some(ix) => ix < s1.desctable@.len(),
                None => true,
            }) by {}
        }
        lemma_sequential_writes_size(
            c,
            fd,
            states.skip(1),
            bufs.skip(1),
            counts.skip(1),
            rs.skip(1),
            ino,
        );
        assert(states.skip(1).last() == states.last());
        assert(states.skip(1)[0] == states[1]);
        assert forall|i: int| 0 <= i < counts.len() implies #[trigger] rs[i]
            == counts[i] by {
            if i > 0 {
                assert(rs.skip(1)[i - 1] == rs[i]);
                assert(counts.skip(1)[i - 1] == counts[i]);
            }
        }
    }
}

/// A list of non-negative counts has a non-negative total.
pub proof fn lemma_sum_nonneg(counts: Seq<int>)
    requires
        forall|i: int| 0 <= i < counts.len() ==> 0 <= #[trigger] counts[i],
    ensures
        sum_of(counts) >= 0,
    decreases counts.len(),
{
    if counts.len() > 0 {
        assert forall|i: int| 0 <= i < counts.skip(1).len() implies 0 <= (
        #[trigger] counts.skip(1)[i]) by {
            assert(counts.skip(1)[i] == counts[i + 1]);
        }
        lemma_sum_nonneg(counts.skip(1));
    }
}

/// Two exclusive creates of the same missing path, from any two cages
/// that resolve it alike: once the first has succeeded, the second gets
/// its path already taken — at most one non-negative descriptor comes
/// back.
pub proof fn lemma_excl_create_exclusive(
    ca: Cage,
    fs0: FsState,
    path: Seq<u8>,
    flags: i32,
    mode: u32,
    ca1: Cage,
    fs1: FsState,
    r1: i32,
    cb: Cage,
    cb1: Cage,
    fs2: FsState,
    r2: i32,
)
    requires
        flags & (O_CREAT | O_EXCL) == (O_CREAT | O_EXCL),
        spec_normalize(comps_view(ca.cwd), path) == spec_normalize(
            comps_view(cb.cwd),
            path,
        ),
        spec_walk(fs0.metadata, spec_normalize(comps_view(ca.cwd), path)) is None,
        open_outcome(ca, fs0, path, flags, mode, ca1, fs1, r1),
        r1 >= 0,
        open_outcome(cb, fs1, path, flags, mode, cb1, fs2, r2),
    ensures
        r2 < 0,
        !no_free_fd(cb.filedescriptortable@) ==> r2 == -EEXIST,
{
    let comps = spec_normalize(comps_view(ca.cwd), path);
    match spec_walk2(fs0.metadata, comps) {
        (None, None) => {
            assert(false);
        },
        (None, Some(p)) => {
            assert(spec_walk(fs1.metadata, comps) == Some(fs0.metadata.nextinode));
            lemma_walk2_fst(
                fs1.metadata.inodetable@,
                crate::fs_constants::ROOTDIRECTORYINODE,
                comps,
            );
            assert(spec_walk2(fs1.metadata, comps).0 is Some);
            assert(path.len() > 0);
            if !no_free_fd(cb.filedescriptortable@) {
                match spec_walk2(fs1.metadata, comps) {
                    (Some(ino), _) => {
                        assert(r2 == -EEXIST);
                    },
                    _ => {
                        assert(false);
                    },
                }
            }
        },
        (Some(ino), _) => {
            lemma_walk2_fst(
                fs0.metadata.inodetable@,
                crate::fs_constants::ROOTDIRECTORYINODE,
                comps,
            );
            assert(false);
        },
    }
}

} // verus!
