//! Cages and descriptors: the process-like isolation units, their
//! descriptor tables, the shared descriptor objects that dup and fork
//! alias, and the process-wide cage table.

use vstd::prelude::*;
use crate::comm::GenSockaddr;
use crate::filesystem::{
    md_wf, valid_target, inode_at, has_fobj, dir_ok, table_ok, inode_size,
    FilesystemMetadata, Inode, DirectoryInode, DeviceInode, DirEnt, DevNo, FileObject,
};
use crate::fs_constants::{
    DEFAULT_GID, DEFAULT_UID, FS_SIZE_MAX, MAXFD, ROOTDIRECTORYINODE, S_IFCHR, S_IFDIR,
    S_IRWXA,
};
use crate::timer::timestamp;

verus! {

/// Socket connection state: sockets move from unbound through bound to
/// listening or connected, and close from any state.
#[derive(Debug, Clone, Copy, PartialEq, Eq, Structural)]
pub enum ConnState {
    Unbound,
    Bound,
    Listening,
    Connected,
}

/// A regular-file descriptor: inode number, seek position, and the
/// access-mode flags the descriptor was opened with.
#[derive(Debug, Clone)]
pub struct FileDesc {
    pub position: usize,
    pub inode: usize,
    pub flags: i32,
}

/// A socket descriptor: addressing parameters, option bitmap, connection
/// state, and the local and remote addresses once set.
#[derive(Debug, Clone)]
pub struct SocketDesc {
    pub domain: i32,
    pub socktype: i32,
    pub protocol: i32,
    pub options: i32,
    pub state: ConnState,
    pub localaddr: Option<GenSockaddr>,
    pub remoteaddr: Option<GenSockaddr>,
    pub flags: i32,
}

/// A standard-stream descriptor (0 stdin, 1 stdout, 2 stderr).
#[derive(Debug, Clone)]
pub struct StreamDesc {
    pub stream: i32,
    pub flags: i32,
}

/// A pipe-endpoint descriptor; the datapath is not implemented.
#[derive(Debug, Clone)]
pub struct PipeDesc {
    pub flags: i32,
}

/// The state behind one open descriptor.
#[derive(Debug)]
pub enum FileDescriptor {
    File(FileDesc),
    Socket(SocketDesc),
    Stream(StreamDesc),
    Pipe(PipeDesc),
}

/// One shared descriptor object and the number of descriptor-table slots
/// (across all cages) bound to it; dup, dup2 and fork alias the object,
/// so aliases observe one seek position.
#[derive(Debug)]
pub struct DescEntry {
    pub refs: usize,
    pub desc: FileDescriptor,
}

/// The process-wide shared world: the filesystem metadata, the shared
/// descriptor objects, the sink that collects stream writes, and the
/// byte-source state behind the random devices.
#[derive(Debug)]
pub struct FsState {
    pub metadata: FilesystemMetadata,
    pub desctable: Vec<Option<DescEntry>>,
    pub logsink: Vec<u8>,
    pub devrand: u64,
}

/// A process-like isolation unit: identifiers, the normalized absolute
/// working directory (as components), and the table mapping descriptor
/// numbers to shared descriptor objects.
#[derive(Debug)]
pub struct Cage {
    pub cageid: u64,
    pub parent: u64,
    pub cwd: Vec<Vec<u8>>,
    pub filedescriptortable: Vec<Option<usize>>,
}

/// A shared descriptor object is consistent with the metadata store: it
/// is referenced, a file descriptor points at a live path-reachable
/// inode, its position is reportable, and a regular file it points at has
/// its content entry.
pub open spec fn desc_ok(md: FilesystemMetadata, e: DescEntry) -> bool {
    &&& e.refs >= 1
    &&& match e.desc {
        FileDescriptor::File(f) => {
            &&& valid_target(md.inodetable@, f.inode)
            &&& f.position <= FS_SIZE_MAX
            &&& (match inode_at(md.inodetable@, f.inode) {
                Some(Inode::File(_)) => has_fobj(md.fileobjecttable@, f.inode),
                _ => true,
            })
        },
        _ => true,
    }
}

/// What one descriptor-table slot adds to an inode's open-handle count:
/// one for a file descriptor object on that inode (however many aliases
/// share it), nothing otherwise.
pub open spec fn desc_contrib(slot: Option<DescEntry>, ino: usize) -> nat {
    match slot {
        Some(e) => match e.desc {
            FileDescriptor::File(f) => if f.inode == ino {
                1nat
            } else {
                0
            },
            _ => 0,
        },
        None => 0,
    }
}

/// How many live shared descriptor objects bind file state to inode
/// `ino`.
pub open spec fn desc_count(dt: Seq<Option<DescEntry>>, ino: usize) -> nat
    decreases dt.len(),
{
    if dt.len() == 0 {
        0
    } else {
        desc_count(dt.drop_last(), ino) + desc_contrib(dt.last(), ino)
    }
}

/// The open-handle census: every live inode's recorded refcount is
/// exactly the number of shared descriptor objects bound to it.
pub open spec fn census_ok(md: FilesystemMetadata, dt: Seq<Option<DescEntry>>) -> bool {
    forall|ino: usize|
        ino < md.inodetable@.len() ==> crate::filesystem::refcount_of(md.inodetable@, ino)
            == #[trigger] desc_count(dt, ino)
}

/// Appending a slot adds exactly its contribution to every count.
pub proof fn lemma_desc_count_push(dt: Seq<Option<DescEntry>>, e: Option<DescEntry>, ino: usize)
    ensures
        desc_count(dt.push(e), ino) == desc_count(dt, ino) + desc_contrib(e, ino),
{
    assert(dt.push(e).last() == e);
    assert(dt.push(e).drop_last() =~= dt);
}

/// Replacing one slot trades its old contribution for the new one.
pub proof fn lemma_desc_count_update(
    dt: Seq<Option<DescEntry>>,
    i: int,
    e: Option<DescEntry>,
    ino: usize,
)
    requires
        0 <= i < dt.len(),
    ensures
        desc_count(dt.update(i, e), ino) + desc_contrib(dt[i], ino) == desc_count(
            dt,
            ino,
        ) + desc_contrib(e, ino),
    decreases dt.len(),
{
    let dt2 = dt.update(i, e);
    if i == dt.len() - 1 {
        assert(dt2.last() == e);
        assert(dt2.drop_last() =~= dt.drop_last());
    } else {
        assert(dt2.last() == dt.last());
        assert(dt2.drop_last() =~= dt.drop_last().update(i, e));
        lemma_desc_count_update(dt.drop_last(), i, e, ino);
    }
}

/// A count over slots that all contribute nothing is zero.
pub proof fn lemma_desc_count_zero(dt: Seq<Option<DescEntry>>, ino: usize)
    requires
        forall|i: int| 0 <= i < dt.len() ==> desc_contrib(#[trigger] dt[i], ino) == 0,
    ensures
        desc_count(dt, ino) == 0,
    decreases dt.len(),
{
    if dt.len() > 0 {
        assert(dt.last() == dt[dt.len() - 1]);
        assert forall|i: int| 0 <= i < dt.drop_last().len() implies desc_contrib(
            #[trigger] dt.drop_last()[i],
            ino,
        ) == 0 by {
            assert(dt.drop_last()[i] == dt[i]);
        }
        lemma_desc_count_zero(dt.drop_last(), ino);
    }
}

/// A slot swap that keeps every contribution keeps the census.
pub proof fn lemma_census_same_contrib(
    md: FilesystemMetadata,
    dt: Seq<Option<DescEntry>>,
    i: int,
    e: Option<DescEntry>,
)
    requires
        census_ok(md, dt),
        0 <= i < dt.len(),
        forall|ino: usize| desc_contrib(dt[i], ino) == desc_contrib(e, ino),
    ensures
        census_ok(md, dt.update(i, e)),
{
    assert forall|ino: usize| ino < md.inodetable@.len() implies crate::filesystem::refcount_of(
        md.inodetable@,
        ino,
    ) == #[trigger] desc_count(dt.update(i, e), ino) by {
        lemma_desc_count_update(dt, i, e, ino);
    }
}

/// Appending a slot that counts for no inode keeps the census.
pub proof fn lemma_census_push_neutral(
    md: FilesystemMetadata,
    dt: Seq<Option<DescEntry>>,
    e: Option<DescEntry>,
)
    requires
        census_ok(md, dt),
        forall|ino: usize| desc_contrib(e, ino) == 0,
    ensures
        census_ok(md, dt.push(e)),
{
    assert forall|ino: usize| ino < md.inodetable@.len() implies crate::filesystem::refcount_of(
        md.inodetable@,
        ino,
    ) == #[trigger] desc_count(dt.push(e), ino) by {
        lemma_desc_count_push(dt, e, ino);
    }
}

/// A metadata change that keeps every live refcount keeps the census.
pub proof fn lemma_census_md(
    md0: FilesystemMetadata,
    md1: FilesystemMetadata,
    dt: Seq<Option<DescEntry>>,
)
    requires
        census_ok(md0, dt),
        md1.inodetable@.len() == md0.inodetable@.len(),
        forall|ino: usize|
            ino < md0.inodetable@.len() ==> crate::filesystem::refcount_of(
                md1.inodetable@,
                ino,
            ) == #[trigger] crate::filesystem::refcount_of(md0.inodetable@, ino),
    ensures
        census_ok(md1, dt),
{
}

impl FsState {
    /// The metadata store is well-formed, every live shared descriptor
    /// is consistent with it, and the open-handle census holds.
    pub open spec fn wf(&self) -> bool {
        &&& md_wf(self.metadata)
        &&& forall|i: int|
            0 <= i < self.desctable@.len() ==> (match #[trigger] self.desctable@[i] {
                Some(e) => desc_ok(self.metadata, e),
                None => true,
            })
        &&& census_ok(self.metadata, self.desctable@)
    }
}

impl Cage {
    /// The descriptor table is bounded and points only into the shared
    /// descriptor table. A slot whose shared object has been released
    /// reads as a bad descriptor; it never dangles outside the table.
    pub open spec fn wf(&self, fs: FsState) -> bool {
        &&& self.filedescriptortable@.len() <= MAXFD
        &&& forall|fd: int|
            0 <= fd < self.filedescriptortable@.len() ==> (match
            #[trigger] self.filedescriptortable@[fd] {
                Some(idx) => idx < fs.desctable@.len(),
                None => true,
            })
    }

    /// The shared-descriptor index bound to descriptor number `fd`.
    pub open spec fn spec_fd_get(&self, fd: int) -> Option<usize> {
        if 0 <= fd < self.filedescriptortable@.len() {
            self.filedescriptortable@[fd]
        } else {
            None
        }
    }

    /// Look a descriptor number up in this cage's table.
    pub fn fd_get(&self, fd: i32) -> (r: Option<usize>)
        ensures
            r == self.spec_fd_get(fd as int),
    {
        if fd < 0 {
            return None;
        }
        let fdu = fd as usize;
        if fdu >= self.filedescriptortable.len() {
            return None;
        }
        self.filedescriptortable[fdu]
    }
}

/// Descriptor number `fd` is available in table `fdt`.
pub open spec fn fd_free(fdt: Seq<Option<usize>>, fd: int) -> bool {
    0 <= fd < MAXFD && (fd >= fdt.len() || fdt[fd] is None)
}

impl Cage {
    /// The lowest free descriptor number, or the preferred one when it is
    /// supplied and free; `None` when the table is full.
    pub fn get_next_fd(&self, preferred: Option<i32>) -> (r: Option<i32>)
        ensures
            (match r {
                Some(fd) => fd_free(self.filedescriptortable@, fd as int),
                None => forall|k: int| !fd_free(self.filedescriptortable@, k),
            }),
            (match preferred {
                Some(p) => fd_free(self.filedescriptortable@, p as int) ==> r == Some(p),
                None => true,
            }),
            (match r {
                Some(fd) => (match preferred {
                    Some(p) => fd_free(self.filedescriptortable@, p as int) || forall|
                        k: int,
                    | 0 <= k < fd ==> !fd_free(self.filedescriptortable@, k),
                    None => forall|k: int|
                        0 <= k < fd ==> !fd_free(self.filedescriptortable@, k),
                }),
                None => true,
            }),
    {
        if let Some(p) = preferred {
            if p >= 0 && (p as usize) < MAXFD {
                let pu = p as usize;
                if pu >= self.filedescriptortable.len() || self.filedescriptortable[pu]
                    .is_none() {
                    return Some(p);
                }
                proof {
                    assert(!fd_free(self.filedescriptortable@, p as int));
                }
            } else {
                proof {
                    assert(!fd_free(self.filedescriptortable@, p as int));
                }
            }
        }
        let mut fd: usize = 0;
        while fd < MAXFD
            invariant
                fd <= MAXFD,
                forall|k: int| 0 <= k < fd ==> !fd_free(self.filedescriptortable@, k),
                (match preferred {
                    Some(p) => !fd_free(self.filedescriptortable@, p as int),
                    None => true,
                }),
            decreases MAXFD - fd,
        {
            if fd >= self.filedescriptortable.len() || self.filedescriptortable[fd]
                .is_none() {
                return Some(fd as i32);
            }
            fd = fd + 1;
        }
        None
    }
}

/// Descriptor table `fdt` with number `fd` bound to `v`, grown with free
/// slots if `fd` lies past the end.
pub open spec fn fdt_with(fdt: Seq<Option<usize>>, fd: int, v: Option<usize>) -> Seq<
    Option<usize>,
> {
    Seq::new(
        if fd + 1 > fdt.len() {
            (fd + 1) as nat
        } else {
            fdt.len()
        },
        |i: int|
            if i == fd {
                v
            } else if i < fdt.len() {
                fdt[i]
            } else {
                None
            },
    )
}

impl Cage {
    /// Bind descriptor number `fd` to `v`, growing the table with free
    /// slots as needed.
    pub fn fd_set(&mut self, fd: usize, v: Option<usize>)
        requires
            fd < MAXFD,
        ensures
            final(self).filedescriptortable@ == fdt_with(
                old(self).filedescriptortable@,
                fd as int,
                v,
            ),
            final(self).cwd == old(self).cwd,
            final(self).cageid == old(self).cageid,
            final(self).parent == old(self).parent,
    {
        while self.filedescriptortable.len() <= fd
            invariant
                fd < MAXFD,
                self.cwd == old(self).cwd,
                self.cageid == old(self).cageid,
                self.parent == old(self).parent,
                self.filedescriptortable@.len() >= old(self).filedescriptortable@.len(),
                self.filedescriptortable@.len() <= (if old(
                    self,
                ).filedescriptortable@.len() > fd {
                    old(self).filedescriptortable@.len() as int
                } else {
                    fd + 1
                }),
                forall|k: int|
                    0 <= k < old(self).filedescriptortable@.len()
                        ==> #[trigger] self.filedescriptortable@[k] == old(
                        self,
                    ).filedescriptortable@[k],
                forall|k: int|
                    old(self).filedescriptortable@.len() <= k
                        < self.filedescriptortable@.len()
                        ==> #[trigger] self.filedescriptortable@[k] is None,
            decreases fd + 1 - self.filedescriptortable.len(),
        {
            self.filedescriptortable.push(None);
        }
        self.filedescriptortable[fd] = v;
        proof {
            assert(self.filedescriptortable@ =~= fdt_with(
                old(self).filedescriptortable@,
                fd as int,
                v,
            ));
        }
    }
}

/// The process-wide table from cage id to cage.
#[derive(Debug)]
pub struct CageTable {
    pub cages: Vec<Option<Cage>>,
}

/// The cage stored under `id`, if any.
pub open spec fn spec_cage_at(ct: CageTable, id: u64) -> Option<Cage> {
    if id < ct.cages@.len() {
        ct.cages@[id as int]
    } else {
        None
    }
}

impl CageTable {
    /// Every stored cage is consistent with the shared world.
    pub open spec fn wf(&self, fs: FsState) -> bool {
        forall|i: int|
            0 <= i < self.cages@.len() ==> (match #[trigger] self.cages@[i] {
                Some(c) => c.wf(fs),
                None => true,
            })
    }

    pub fn new_table() -> (r: Self)
        ensures
            r.cages@.len() == 0,
            forall|id: u64| spec_cage_at(r, id) is None,
    {
        CageTable { cages: Vec::new() }
    }

    /// Store `cage` under its id, growing the table as needed.
    pub fn insert_cage(&mut self, cage: Cage)
        requires
            cage.cageid < 4096,
        ensures
            spec_cage_at(*final(self), cage.cageid) == Some(cage),
            forall|id: u64|
                id != cage.cageid ==> #[trigger] spec_cage_at(*final(self), id)
                    == spec_cage_at(*old(self), id),
            forall|k: int|
                0 <= k < final(self).cages@.len() && k != cage.cageid as int
                    ==> #[trigger] final(self).cages@[k] == (if k < old(
                    self,
                ).cages@.len() {
                    old(self).cages@[k]
                } else {
                    None
                }),
    {
        let id = cage.cageid as usize;
        while self.cages.len() <= id
            invariant
                self.cages@.len() >= old(self).cages@.len(),
                forall|k: int|
                    0 <= k < old(self).cages@.len() ==> #[trigger] self.cages@[k]
                        == old(self).cages@[k],
                forall|k: int|
                    old(self).cages@.len() <= k < self.cages@.len()
                        ==> #[trigger] self.cages@[k] is None,
            decreases id + 1 - self.cages.len(),
        {
            self.cages.push(None);
        }
        self.cages[id] = Some(cage);
        proof {
            assert(spec_cage_at(*self, cage.cageid) == Some(cage));
            assert forall|other: u64| other != cage.cageid implies #[trigger] spec_cage_at(
                *self,
                other,
            ) == spec_cage_at(*old(self), other) by {
                if (other as int) < old(self).cages@.len() {
                } else if (other as int) < self.cages@.len() {
                    assert(self.cages@[other as int] is None);
                }
            }
        }
    }

    /// Remove and hand back the cage stored under `id`.
    pub fn take_cage(&mut self, id: u64) -> (r: Option<Cage>)
        ensures
            r == spec_cage_at(*old(self), id),
            spec_cage_at(*final(self), id) is None,
            forall|other: u64|
                other != id ==> #[trigger] spec_cage_at(*final(self), other)
                    == spec_cage_at(*old(self), other),
    {
        if id >= (self.cages.len() as u64) {
            return None;
        }
        let idu = id as usize;
        let slot = &mut self.cages[idu];
        slot.take()
    }
}

/// Create a cage against the shared world: empty working directory (the
/// root) and descriptors 0, 1, 2 pre-bound to fresh stream objects.
pub fn new_cage(fs: &mut FsState, cageid: u64, parent: u64) -> (r: Cage)
    requires
        old(fs).wf(),
    ensures
        final(fs).wf(),
        r.wf(*final(fs)),
        r.cageid == cageid,
        r.parent == parent,
        r.cwd@.len() == 0,
        r.filedescriptortable@ == seq![
            Some(old(fs).desctable@.len() as usize),
            Some((old(fs).desctable@.len() + 1) as usize),
            Some((old(fs).desctable@.len() + 2) as usize),
        ],
        final(fs).metadata == old(fs).metadata,
        final(fs).logsink == old(fs).logsink,
        final(fs).devrand == old(fs).devrand,
        final(fs).desctable@.len() == old(fs).desctable@.len() + 3,
        forall|i: int|
            0 <= i < old(fs).desctable@.len() ==> #[trigger] final(fs).desctable@[i]
                == old(fs).desctable@[i],
        forall|k: int|
            0 <= k < 3 ==> #[trigger] final(fs).desctable@[old(fs).desctable@.len() + k]
                == Some(
                DescEntry {
                    refs: 1,
                    desc: FileDescriptor::Stream(
                        (StreamDesc { stream: k as i32, flags: 0 }),
                    ),
                },
            ),
{
    let base = fs.desctable.len();
    let mut k: i32 = 0;
    while k < 3
        invariant
            0 <= k <= 3,
            fs.desctable@.len() == base + k,
            base == old(fs).desctable@.len(),
            fs.metadata == old(fs).metadata,
            fs.logsink == old(fs).logsink,
            forall|i: int|
                0 <= i < base ==> #[trigger] fs.desctable@[i] == old(fs).desctable@[i],
            forall|i: int|
                base <= i < fs.desctable@.len() ==> #[trigger] fs.desctable@[i] == Some(
                    DescEntry {
                        refs: 1,
                        desc: FileDescriptor::Stream(
                            (StreamDesc { stream: (i - base) as i32, flags: 0 }),
                        ),
                    },
                ),
            fs.devrand == old(fs).devrand,
            old(fs).wf(),
            fs.wf(),
        decreases 3 - k,
    {
        let ghost dt0 = fs.desctable@;
        fs.desctable.push(
            Some(
                DescEntry {
                    refs: 1,
                    desc: FileDescriptor::Stream(StreamDesc { stream: k, flags: 0 }),
                },
            ),
        );
        proof {
            let e = fs.desctable@.last();
            assert(forall|ino: usize| desc_contrib(e, ino) == 0);
            lemma_census_push_neutral(fs.metadata, dt0, e);
            assert(fs.desctable@ =~= dt0.push(e));
        }
        k = k + 1;
    }
    let top = fs.desctable.len();
    assert(top == base + 3);
    let mut fdt: Vec<Option<usize>> = Vec::new();
    fdt.push(Some(base));
    fdt.push(Some(top - 2));
    fdt.push(Some(top - 1));
    let cage = Cage { cageid, parent, cwd: Vec::new(), filedescriptortable: fdt };
    proof {
        assert(MAXFD >= 3);
        assert(cage.filedescriptortable@ =~= seq![
            Some(base),
            Some((base + 1) as usize),
            Some((base + 2) as usize),
        ]);
        assert forall|fd: int| 0 <= fd < cage.filedescriptortable@.len() implies (match
        #[trigger] cage.filedescriptortable@[fd] {
            Some(idx) => idx < fs.desctable@.len() && fs.desctable@[idx as int] is Some,
            None => true,
        }) by {
            assert(fs.desctable@[base as int] is Some);
            assert(fs.desctable@[base + 1] is Some);
            assert(fs.desctable@[base + 2] is Some);
        }
    }
    cage
}

/// Slot `slot` holds a fresh character device `(major, minor)`: size 0,
/// one name, no open handles, world-readable device mode.
pub open spec fn initial_device(slot: Option<Inode>, major: u32, minor: u32) -> bool {
    match slot {
        Some(Inode::CharDev(c)) => {
            &&& c.size == 0
            &&& c.mode == (S_IFCHR | 0o666)
            &&& c.linkcount == 1
            &&& c.refcount == 0
            &&& c.dev == (DevNo { major, minor })
        },
        _ => false,
    }
}

/// The world as `lindrustinit` builds it: a root directory (three links:
/// `.`, `..` and the mount anchor) holding only `dev`, the device
/// directory holding the null (1,3), zero (1,5), random (1,8) and
/// urandom (1,9) character devices, no open files, three stream
/// descriptor objects, and an empty log sink.
pub open spec fn initial_world(fs: FsState) -> bool {
    let tbl = fs.metadata.inodetable@;
    &&& fs.metadata.dev_id == 20
    &&& fs.metadata.nextinode == 8
    &&& tbl.len() == 8
    &&& fs.metadata.fileobjecttable@.len() == 0
    &&& tbl[0] is None
    &&& tbl[2] is None
    &&& (match tbl[ROOTDIRECTORYINODE as int] {
        Some(Inode::Dir(d)) => {
            let ents = d.filename_to_inode_dict@;
            &&& d.size == 0
            &&& d.mode == (S_IFDIR | S_IRWXA)
            &&& d.linkcount == 3
            &&& d.refcount == 0
            &&& ents.len() == 1
            &&& ents[0].name@ == seq![100u8, 101u8, 118u8]
            &&& ents[0].inode == 3
        },
        _ => false,
    })
    &&& (match tbl[3] {
        Some(Inode::Dir(d)) => {
            let ents = d.filename_to_inode_dict@;
            &&& d.size == 0
            &&& d.mode == (S_IFDIR | S_IRWXA)
            &&& d.linkcount == 2
            &&& d.refcount == 0
            &&& ents.len() == 4
            &&& ents[0].name@ == seq![110u8, 117u8, 108u8, 108u8]
            &&& ents[0].inode == 4
            &&& ents[1].name@ == seq![122u8, 101u8, 114u8, 111u8]
            &&& ents[1].inode == 5
            &&& ents[2].name@ == seq![114u8, 97u8, 110u8, 100u8, 111u8, 109u8]
            &&& ents[2].inode == 6
            &&& ents[3].name@ == seq![117u8, 114u8, 97u8, 110u8, 100u8, 111u8, 109u8]
            &&& ents[3].inode == 7
        },
        _ => false,
    })
    &&& initial_device(tbl[4], 1, 3)
    &&& initial_device(tbl[5], 1, 5)
    &&& initial_device(tbl[6], 1, 8)
    &&& initial_device(tbl[7], 1, 9)
    &&& fs.desctable@.len() == 3
    &&& forall|k: int|
        0 <= k < 3 ==> #[trigger] fs.desctable@[k] == Some(
            DescEntry {
                refs: 1,
                desc: FileDescriptor::Stream((StreamDesc { stream: k as i32, flags: 0 })),
            },
        )
    &&& fs.logsink@.len() == 0
}

fn device_inode(t: u64, major: u32, minor: u32) -> (r: DeviceInode)
    ensures
        r.size == 0,
        r.mode == (S_IFCHR | 0o666),
        r.linkcount == 1,
        r.refcount == 0,
        r.dev == (DevNo { major, minor }),
{
    DeviceInode {
        size: 0,
        uid: DEFAULT_UID,
        gid: DEFAULT_GID,
        mode: S_IFCHR | 0o666,
        linkcount: 1,
        refcount: 0,
        atime: t,
        ctime: t,
        mtime: t,
        dev: DevNo { major, minor },
    }
}

/// Bring the world up: a filesystem whose root holds the device directory
/// `/dev` with the null, zero, random and urandom character devices, and
/// the cage table holding the first cage (id 1) at the root.
pub fn lindrustinit() -> (r: (FsState, CageTable))
    ensures
        r.0.wf(),
        r.1.wf(r.0),
        initial_world(r.0),
        (match spec_cage_at(r.1, 1) {
            Some(c) => {
                &&& c.cageid == 1
                &&& c.parent == 1
                &&& c.cwd@.len() == 0
                &&& c.wf(r.0)
                &&& c.filedescriptortable@ == seq![
                    Some(0usize),
                    Some(1usize),
                    Some(2usize),
                ]
            },
            None => false,
        }),
{
    let t = timestamp();
    let mut n_dev: Vec<u8> = Vec::new();
    n_dev.push(100);
    n_dev.push(101);
    n_dev.push(118);
    let mut n_null: Vec<u8> = Vec::new();
    n_null.push(110);
    n_null.push(117);
    n_null.push(108);
    n_null.push(108);
    let mut n_zero: Vec<u8> = Vec::new();
    n_zero.push(122);
    n_zero.push(101);
    n_zero.push(114);
    n_zero.push(111);
    let mut n_random: Vec<u8> = Vec::new();
    n_random.push(114);
    n_random.push(97);
    n_random.push(110);
    n_random.push(100);
    n_random.push(111);
    n_random.push(109);
    let mut n_urandom: Vec<u8> = Vec::new();
    n_urandom.push(117);
    n_urandom.push(114);
    n_urandom.push(97);
    n_urandom.push(110);
    n_urandom.push(100);
    n_urandom.push(111);
    n_urandom.push(109);

    let mut rootdict: Vec<DirEnt> = Vec::new();
    rootdict.push(DirEnt { name: n_dev, inode: 3 });
    let ghost g_rootdict = rootdict@;
    let root = DirectoryInode {
        size: 0,
        uid: DEFAULT_UID,
        gid: DEFAULT_GID,
        mode: S_IFDIR | S_IRWXA,
        linkcount: 3,
        refcount: 0,
        atime: t,
        ctime: t,
        mtime: t,
        filename_to_inode_dict: rootdict,
    };
    let ghost g_root = root;

    let mut devdict: Vec<DirEnt> = Vec::new();
    devdict.push(DirEnt { name: n_null, inode: 4 });
    devdict.push(DirEnt { name: n_zero, inode: 5 });
    devdict.push(DirEnt { name: n_random, inode: 6 });
    devdict.push(DirEnt { name: n_urandom, inode: 7 });
    let ghost g_devdict = devdict@;
    let devdir = DirectoryInode {
        size: 0,
        uid: DEFAULT_UID,
        gid: DEFAULT_GID,
        mode: S_IFDIR | S_IRWXA,
        linkcount: 2,
        refcount: 0,
        atime: t,
        ctime: t,
        mtime: t,
        filename_to_inode_dict: devdict,
    };
    let ghost g_devdir = devdir;

    let mut tbl: Vec<Option<Inode>> = Vec::new();
    tbl.push(None);
    tbl.push(Some(Inode::Dir(root)));
    tbl.push(None);
    tbl.push(Some(Inode::Dir(devdir)));
    tbl.push(Some(Inode::CharDev(device_inode(t, 1, 3))));
    tbl.push(Some(Inode::CharDev(device_inode(t, 1, 5))));
    tbl.push(Some(Inode::CharDev(device_inode(t, 1, 8))));
    tbl.push(Some(Inode::CharDev(device_inode(t, 1, 9))));
    let md = FilesystemMetadata {
        dev_id: 20,
        nextinode: 8,
        inodetable: tbl,
        fileobjecttable: Vec::new(),
    };
    let mut fs = FsState {
        metadata: md,
        desctable: Vec::new(),
        logsink: Vec::new(),
        devrand: 0,
    };
    proof {
        let tblv = fs.metadata.inodetable@;
        assert(tblv.len() == 8);
        assert(tblv[1] == Some(Inode::Dir(g_root)));
        assert(tblv[3] == Some(Inode::Dir(g_devdir)));
        assert(dir_ok(tblv, g_root)) by {
            assert(g_rootdict.len() == 1);
            assert(g_rootdict[0].inode == 3);
            assert(valid_target(tblv, 3));
        }
        assert(dir_ok(tblv, g_devdir)) by {
            assert(g_devdict.len() == 4);
            assert(g_devdict[0].inode == 4 && valid_target(tblv, 4));
            assert(g_devdict[1].inode == 5 && valid_target(tblv, 5));
            assert(g_devdict[2].inode == 6 && valid_target(tblv, 6));
            assert(g_devdict[3].inode == 7 && valid_target(tblv, 7));
            assert(g_devdict[0].name@[0] == 110);
            assert(g_devdict[1].name@[0] == 122);
            assert(g_devdict[2].name@[0] == 114);
            assert(g_devdict[3].name@[0] == 117);
        }
        assert(table_ok(tblv)) by {
            assert forall|i: int| 0 <= i < tblv.len() implies (match #[trigger] tblv[i] {
                Some(Inode::Dir(d)) => dir_ok(tblv, d),
                _ => true,
            }) by {
                if i == 1 {
                    assert(dir_ok(tblv, g_root));
                } else if i == 3 {
                    assert(dir_ok(tblv, g_devdir));
                }
            }
        }
        assert forall|i: int| 0 <= i < tblv.len() implies (match #[trigger] tblv[i] {
            Some(n) => inode_size(n) <= FS_SIZE_MAX,
            None => true,
        }) by {}
        assert(md_wf(fs.metadata));
        assert(fs.wf());
    }
    proof {
        assert(g_rootdict[0].name@ =~= seq![100u8, 101u8, 118u8]);
        assert(g_devdict[0].name@ =~= seq![110u8, 117u8, 108u8, 108u8]);
        assert(g_devdict[1].name@ =~= seq![122u8, 101u8, 114u8, 111u8]);
        assert(g_devdict[2].name@ =~= seq![114u8, 97u8, 110u8, 100u8, 111u8, 109u8]);
        assert(g_devdict[3].name@ =~= seq![117u8, 114u8, 97u8, 110u8, 100u8, 111u8,
            109u8]);
    }
    let cage = new_cage(&mut fs, 1, 1);
    proof {
        let tblv = fs.metadata.inodetable@;
        assert(fs.metadata.dev_id == 20 && fs.metadata.nextinode == 8 && tblv.len()
            == 8);
        assert(tblv[0] is None && tblv[2] is None);
        assert((match tblv[1] {
            Some(Inode::Dir(d)) => d.linkcount == 3 && d.filename_to_inode_dict@.len()
                == 1,
            _ => false,
        }));
        assert((match tblv[3] {
            Some(Inode::Dir(d)) => d.linkcount == 2 && d.filename_to_inode_dict@.len()
                == 4,
            _ => false,
        }));
        assert(initial_device(tblv[4], 1, 3));
        assert(initial_device(tblv[5], 1, 5));
        assert(initial_device(tblv[6], 1, 8));
        assert(initial_device(tblv[7], 1, 9));
        assert(fs.desctable@.len() == 3);
        assert forall|k: int| 0 <= k < 3 implies #[trigger] fs.desctable@[k] == Some(
            DescEntry {
                refs: 1,
                desc: FileDescriptor::Stream((StreamDesc { stream: k as i32, flags: 0 })),
            },
        ) by {
            assert(fs.desctable@[0 + k] == Some(
                DescEntry {
                    refs: 1,
                    desc: FileDescriptor::Stream(
                        (StreamDesc { stream: k as i32, flags: 0 }),
                    ),
                },
            ));
        }
        assert(initial_world(fs));
    }
    let ghost g_cage = cage;
    let mut ct = CageTable::new_table();
    ct.insert_cage(cage);
    proof {
        assert(spec_cage_at(ct, 1) == Some(g_cage));
        assert forall|i: int| 0 <= i < ct.cages@.len() implies (match
        #[trigger] ct.cages@[i] {
            Some(c) => c.wf(fs),
            None => true,
        }) by {
            if i == 1 {
                assert(ct.cages@[i] == spec_cage_at(ct, 1));
            } else {
                assert(ct.cages@[i] is None);
            }
        }
    }
    (fs, ct)
}

/// Tear the world down, releasing every cage and the filesystem.
pub fn lindrustfinalize(fs: FsState, cagetable: CageTable) {
    let _ = fs;
    let _ = cagetable;
}

} // verus!
