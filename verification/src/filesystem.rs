//! The in-memory filesystem metadata store: the inode table, the directory
//! tree, path normalization and the walk primitives, and the file object
//! table holding regular-file content.
//!
//! Inode numbers index directly into the inode table; a number, once
//! assigned, is never reused while the table lives, so `nextinode` is the
//! table length. Directory children are an association list from component
//! name (bytes) to inode number, with names unique within one directory.

use vstd::prelude::*;
use crate::fs_constants::{FS_SIZE_MAX, ROOTDIRECTORYINODE};
use crate::misc::bytes_eq;
use vstd::string::StringSliceAdditionalSpecFns;

verus! {

/// A character-device number (major, minor).
#[derive(Debug, Clone, Copy, PartialEq, Eq, Structural)]
pub struct DevNo {
    pub major: u32,
    pub minor: u32,
}

/// Metadata common to regular files (also used for the pipe and socket
/// placeholders): sizes are in bytes, times in whole seconds.
#[derive(Debug, Clone)]
pub struct GenericInode {
    pub size: usize,
    pub uid: u32,
    pub gid: u32,
    pub mode: u32,
    pub linkcount: u32,
    pub refcount: u32,
    pub atime: u64,
    pub ctime: u64,
    pub mtime: u64,
}

/// A character-device inode: generic metadata plus the device number.
#[derive(Debug, Clone)]
pub struct DeviceInode {
    pub size: usize,
    pub uid: u32,
    pub gid: u32,
    pub mode: u32,
    pub linkcount: u32,
    pub refcount: u32,
    pub atime: u64,
    pub ctime: u64,
    pub mtime: u64,
    pub dev: DevNo,
}

/// One directory entry: a component name and the inode it names.
#[derive(Debug)]
pub struct DirEnt {
    pub name: Vec<u8>,
    pub inode: usize,
}

/// A directory inode; children are an association list with unique names.
#[derive(Debug)]
pub struct DirectoryInode {
    pub size: usize,
    pub uid: u32,
    pub gid: u32,
    pub mode: u32,
    pub linkcount: u32,
    pub refcount: u32,
    pub atime: u64,
    pub ctime: u64,
    pub mtime: u64,
    pub filename_to_inode_dict: Vec<DirEnt>,
}

/// A filesystem object: regular file, directory, character device, or the
/// placeholders for pipe and socket endpoints (which no path ever names).
#[derive(Debug)]
pub enum Inode {
    File(GenericInode),
    CharDev(DeviceInode),
    Dir(DirectoryInode),
    Pipe(GenericInode),
    Socket(GenericInode),
}

/// The content store for one open regular file: the inode it belongs to
/// and its bytes. The byte length always equals the inode's size.
#[derive(Debug)]
pub struct FileObject {
    pub inodenum: usize,
    pub data: Vec<u8>,
}

/// The shared filesystem metadata: device id, the dense inode table
/// (indexed by inode number), and the file object table for open regular
/// files.
#[derive(Debug)]
pub struct FilesystemMetadata {
    pub dev_id: u64,
    pub nextinode: usize,
    pub inodetable: Vec<Option<Inode>>,
    pub fileobjecttable: Vec<FileObject>,
}

/// The `stat`/`fstat` result record.
#[derive(Debug)]
pub struct StatData {
    pub st_dev: u64,
    pub st_ino: usize,
    pub st_mode: u32,
    pub st_nlink: u32,
    pub st_uid: u32,
    pub st_gid: u32,
    pub st_rdev: u64,
    pub st_size: usize,
    pub st_blksize: usize,
    pub st_blocks: usize,
    pub st_atim: (u64, u64),
    pub st_mtim: (u64, u64),
    pub st_ctim: (u64, u64),
}

// ---------------------------------------------------------------------------
// Path normalization
// ---------------------------------------------------------------------------

/// The sequence of component views of a component list.
pub open spec fn comps_view(v: Vec<Vec<u8>>) -> Seq<Seq<u8>> {
    v@.map_values(|c: Vec<u8>| c@)
}

/// Split the remaining bytes `p` on `/`, with `cur` the component read so
/// far; yields every raw component, empty ones included.
pub open spec fn split_acc(p: Seq<u8>, cur: Seq<u8>) -> Seq<Seq<u8>>
    decreases p.len(),
{
    if p.len() == 0 {
        seq![cur]
    } else if p[0] == 47u8 {
        seq![cur] + split_acc(p.skip(1), Seq::empty())
    } else {
        split_acc(p.skip(1), cur.push(p[0]))
    }
}

/// Fold one raw component into a normalized component stack: empty and `.`
/// vanish, `..` drops the last component (or nothing at the root), and any
/// other name is kept.
pub open spec fn canon_step(acc: Seq<Seq<u8>>, c: Seq<u8>) -> Seq<Seq<u8>> {
    if c.len() == 0 || c == seq![46u8] {
        acc
    } else if c == seq![46u8, 46u8] {
        if acc.len() > 0 {
            acc.drop_last()
        } else {
            acc
        }
    } else {
        acc.push(c)
    }
}

/// Fold a whole raw component list into a normalized component stack.
pub open spec fn canon(acc: Seq<Seq<u8>>, comps: Seq<Seq<u8>>) -> Seq<Seq<u8>>
    decreases comps.len(),
{
    if comps.len() == 0 {
        acc
    } else {
        canon(canon_step(acc, comps[0]), comps.skip(1))
    }
}

/// Normalize a path against a working directory: an absolute path starts
/// from the root, a relative one from `cwd`; `.`, `..` and empty
/// components collapse away. The result is the absolute component list.
pub open spec fn spec_normalize(cwd: Seq<Seq<u8>>, p: Seq<u8>) -> Seq<Seq<u8>> {
    let start = if p.len() > 0 && p[0] == 47u8 {
        Seq::<Seq<u8>>::empty()
    } else {
        cwd
    };
    canon(start, split_acc(p, Seq::empty()))
}

/// Byte-for-byte copy of a buffer.
pub fn clone_bytes(src: &Vec<u8>) -> (r: Vec<u8>)
    ensures
        r@ == src@,
{
    let mut r: Vec<u8> = Vec::new();
    let mut i: usize = 0;
    while i < src.len()
        invariant
            i <= src.len(),
            r@ == src@.subrange(0, i as int),
        decreases src.len() - i,
    {
        r.push(src[i]);
        proof {
            assert(r@ =~= src@.subrange(0, i + 1 as int));
        }
        i = i + 1;
    }
    proof {
        assert(src@.subrange(0, src@.len() as int) =~= src@);
    }
    r
}

/// Component-for-component copy of a component list.
pub fn clone_comps(src: &Vec<Vec<u8>>) -> (r: Vec<Vec<u8>>)
    ensures
        comps_view(r) == comps_view(*src),
{
    let mut r: Vec<Vec<u8>> = Vec::new();
    let mut i: usize = 0;
    while i < src.len()
        invariant
            i <= src.len(),
            r@.len() == i,
            forall|k: int| 0 <= k < i ==> r@[k]@ == src@[k]@,
        decreases src.len() - i,
    {
        r.push(clone_bytes(&src[i]));
        i = i + 1;
    }
    proof {
        assert forall|k: int| 0 <= k < comps_view(r).len() implies comps_view(r)[k]
            == comps_view(*src)[k] by {
            assert(comps_view(r)[k] == r@[k]@);
            assert(comps_view(*src)[k] == src@[k]@);
        }
        assert(comps_view(r) =~= comps_view(*src));
    }
    r
}

/// Bytes of a path string.
pub fn convpath(path: &str) -> (r: Vec<u8>)
    ensures
        r@ == path.spec_bytes(),
{
    vstd::slice::slice_to_vec(path.as_bytes())
}

fn apply_component(acc: &mut Vec<Vec<u8>>, comp: Vec<u8>)
    ensures
        comps_view(*final(acc)) == canon_step(comps_view(*old(acc)), comp@),
{
    if comp.len() == 0 {
        return ;
    }
    if comp.len() == 1 && comp[0] == 46u8 {
        proof {
            assert(comp@ =~= seq![46u8]);
        }
        return ;
    }
    if comp.len() == 2 && comp[0] == 46u8 && comp[1] == 46u8 {
        proof {
            assert(comp@ =~= seq![46u8, 46u8]);
        }
        if acc.len() > 0 {
            acc.pop();
            proof {
                assert(comps_view(*acc) =~= comps_view(*old(acc)).drop_last());
            }
        }
        return ;
    }
    proof {
        assert(comp@ != seq![46u8] && comp@ != seq![46u8, 46u8]) by {
            if comp@.len() == 1 {
                assert(comp@[0] != 46u8);
            } else if comp@.len() == 2 {
                assert(comp@[0] == 46u8 ==> comp@[1] != 46u8);
            }
        }
    }
    acc.push(comp);
    proof {
        assert(comps_view(*acc) =~= comps_view(*old(acc)).push(comp@));
    }
}

/// Normalize path bytes against a working directory, collapsing `.`,
/// `..` and repeated separators; the result is absolute.
pub fn normpath(cwd: &Vec<Vec<u8>>, path: &Vec<u8>) -> (r: Vec<Vec<u8>>)
    ensures
        comps_view(r) == spec_normalize(comps_view(*cwd), path@),
{
    let is_abs = path.len() > 0 && path[0] == 47u8;
    let mut acc: Vec<Vec<u8>> = if is_abs {
        Vec::new()
    } else {
        clone_comps(cwd)
    };
    let ghost start: Seq<Seq<u8>> = comps_view(acc);
    let mut cur: Vec<u8> = Vec::new();
    let mut i: usize = 0;
    proof {
        assert(path@.skip(0) =~= path@);
        if is_abs {
            assert(start =~~= Seq::<Seq<u8>>::empty());
        }
        assert(start == (if path@.len() > 0 && path@[0] == 47u8 {
            Seq::<Seq<u8>>::empty()
        } else {
            comps_view(*cwd)
        }));
    }
    while i < path.len()
        invariant
            i <= path.len(),
            canon(comps_view(acc), split_acc(path@.skip(i as int), cur@)) == canon(
                start,
                split_acc(path@, Seq::empty()),
            ),
        decreases path.len() - i,
    {
        let ghost rest = path@.skip(i as int);
        proof {
            assert(rest.len() > 0);
            assert(rest[0] == path@[i as int]);
            assert(rest.skip(1) =~= path@.skip(i + 1 as int));
        }
        let b = path[i];
        if b == 47u8 {
            proof {
                let tail = split_acc(rest.skip(1), Seq::empty());
                assert(split_acc(rest, cur@) == seq![cur@] + tail);
                assert((seq![cur@] + tail)[0] == cur@);
                assert((seq![cur@] + tail).skip(1) =~= tail);
            }
            apply_component(&mut acc, cur);
            cur = Vec::new();
        } else {
            cur.push(b);
        }
        i = i + 1;
    }
    proof {
        reveal_with_fuel(canon, 3);
        assert(path@.skip(path@.len() as int) =~= Seq::<u8>::empty());
        let last = split_acc(Seq::<u8>::empty(), cur@);
        assert(last == seq![cur@]);
        assert(last[0] == cur@);
        assert(last.skip(1) =~= Seq::<Seq<u8>>::empty());
        assert(canon(comps_view(acc), last) == canon_step(comps_view(acc), cur@));
    }
    apply_component(&mut acc, cur);
    acc
}

// ---------------------------------------------------------------------------
// Directory lookup and tree walking
// ---------------------------------------------------------------------------

/// The inode a directory entry list gives to `name`: the first match.
pub open spec fn dir_find(ents: Seq<DirEnt>, name: Seq<u8>) -> Option<usize>
    decreases ents.len(),
{
    if ents.len() == 0 {
        None
    } else if ents[0].name@ == name {
        Some(ents[0].inode)
    } else {
        dir_find(ents.skip(1), name)
    }
}

/// The inode stored under number `ino`, if that number is live.
pub open spec fn inode_at(tbl: Seq<Option<Inode>>, ino: usize) -> Option<Inode> {
    if ino < tbl.len() {
        tbl[ino as int]
    } else {
        None
    }
}

/// Walk the tree from `cur` along `comps`: the walk fails at the first
/// missing component and at any attempt to traverse a non-directory.
pub open spec fn walk_from(tbl: Seq<Option<Inode>>, cur: usize, comps: Seq<Seq<u8>>) -> Option<
    usize,
>
    decreases comps.len(),
{
    if comps.len() == 0 {
        Some(cur)
    } else {
        match inode_at(tbl, cur) {
            Some(Inode::Dir(d)) => match dir_find(d.filename_to_inode_dict@, comps[0]) {
                Some(n) => walk_from(tbl, n, comps.skip(1)),
                None => None,
            },
            _ => None,
        }
    }
}

/// The terminal inode a normalized path names, walking from the root.
pub open spec fn spec_walk(md: FilesystemMetadata, comps: Seq<Seq<u8>>) -> Option<usize> {
    walk_from(md.inodetable@, ROOTDIRECTORYINODE, comps)
}

/// Walk yielding `(terminal, parent)`. The parent is reported only when
/// the walk reached the directory that holds (or would hold) the last
/// component; the root itself has no parent. Crossing a non-directory or
/// losing the way before the last component yields `(None, None)`.
pub open spec fn walk2_from(tbl: Seq<Option<Inode>>, cur: usize, comps: Seq<Seq<u8>>) -> (
    Option<usize>,
    Option<usize>,
)
    decreases comps.len(),
{
    if comps.len() == 0 {
        (Some(cur), None)
    } else {
        match inode_at(tbl, cur) {
            Some(Inode::Dir(d)) => match dir_find(d.filename_to_inode_dict@, comps[0]) {
                Some(n) => if comps.len() == 1 {
                    (Some(n), Some(cur))
                } else {
                    walk2_from(tbl, n, comps.skip(1))
                },
                None => if comps.len() == 1 {
                    (None, Some(cur))
                } else {
                    (None, None)
                },
            },
            _ => (None, None),
        }
    }
}

/// `(terminal, parent)` of a normalized path, walking from the root.
pub open spec fn spec_walk2(md: FilesystemMetadata, comps: Seq<Seq<u8>>) -> (
    Option<usize>,
    Option<usize>,
) {
    walk2_from(md.inodetable@, ROOTDIRECTORYINODE, comps)
}

// ---------------------------------------------------------------------------
// Well-formedness of the metadata store
// ---------------------------------------------------------------------------

/// Inodes that a path can name.
pub open spec fn is_pathable(i: Inode) -> bool {
    i is File || i is Dir || i is CharDev
}

/// `ino` is live and names a path-reachable inode.
pub open spec fn valid_target(tbl: Seq<Option<Inode>>, ino: usize) -> bool {
    ino < tbl.len() && (match tbl[ino as int] {
        Some(n) => is_pathable(n),
        None => false,
    })
}

/// Every child of `d` is a valid target and child names are unique.
pub open spec fn dir_ok(tbl: Seq<Option<Inode>>, d: DirectoryInode) -> bool {
    &&& forall|j: int|
        0 <= j < d.filename_to_inode_dict@.len() ==> valid_target(
            tbl,
            (#[trigger] d.filename_to_inode_dict@[j]).inode,
        )
    &&& forall|j1: int, j2: int|
        0 <= j1 < j2 < d.filename_to_inode_dict@.len() ==> (
        #[trigger] d.filename_to_inode_dict@[j1].name@) != (
        #[trigger] d.filename_to_inode_dict@[j2].name@)
}

pub open spec fn inode_size(i: Inode) -> usize {
    match i {
        Inode::File(g) => g.size,
        Inode::CharDev(c) => c.size,
        Inode::Dir(d) => d.size,
        Inode::Pipe(g) => g.size,
        Inode::Socket(g) => g.size,
    }
}

pub open spec fn inode_refcount(i: Inode) -> u32 {
    match i {
        Inode::File(g) => g.refcount,
        Inode::CharDev(c) => c.refcount,
        Inode::Dir(d) => d.refcount,
        Inode::Pipe(g) => g.refcount,
        Inode::Socket(g) => g.refcount,
    }
}

pub open spec fn inode_linkcount(i: Inode) -> u32 {
    match i {
        Inode::File(g) => g.linkcount,
        Inode::CharDev(c) => c.linkcount,
        Inode::Dir(d) => d.linkcount,
        Inode::Pipe(g) => g.linkcount,
        Inode::Socket(g) => g.linkcount,
    }
}

pub open spec fn inode_mode(i: Inode) -> u32 {
    match i {
        Inode::File(g) => g.mode,
        Inode::CharDev(c) => c.mode,
        Inode::Dir(d) => d.mode,
        Inode::Pipe(g) => g.mode,
        Inode::Socket(g) => g.mode,
    }
}

/// The mode word recorded on inode `ino` (0 if not live).
pub open spec fn mode_of(tbl: Seq<Option<Inode>>, ino: usize) -> u32 {
    match inode_at(tbl, ino) {
        Some(n) => inode_mode(n),
        None => 0,
    }
}

/// The open-descriptor count recorded on inode `ino` (0 if not live).
pub open spec fn refcount_of(tbl: Seq<Option<Inode>>, ino: usize) -> u32 {
    match inode_at(tbl, ino) {
        Some(n) => inode_refcount(n),
        None => 0,
    }
}

/// The link count recorded on inode `ino` (0 if not live).
pub open spec fn linkcount_of(tbl: Seq<Option<Inode>>, ino: usize) -> u32 {
    match inode_at(tbl, ino) {
        Some(n) => inode_linkcount(n),
        None => 0,
    }
}

/// The size recorded on inode `ino` (0 if not live).
pub open spec fn size_of(tbl: Seq<Option<Inode>>, ino: usize) -> usize {
    match inode_at(tbl, ino) {
        Some(n) => inode_size(n),
        None => 0,
    }
}

/// The file object table holds content for inode `ino`.
pub open spec fn has_fobj(fot: Seq<FileObject>, ino: usize) -> bool {
    exists|k: int| 0 <= k < fot.len() && (#[trigger] fot[k]).inodenum == ino
}

/// The content bytes the file object table holds for inode `ino`.
pub open spec fn fobj_data(fot: Seq<FileObject>, ino: usize) -> Seq<u8> {
    let k = choose|k: int| 0 <= k < fot.len() && (#[trigger] fot[k]).inodenum == ino;
    fot[k].data@
}

/// A file object entry belongs to a live regular file whose recorded size
/// is the content length.
pub open spec fn fobj_entry_ok(tbl: Seq<Option<Inode>>, e: FileObject) -> bool {
    match inode_at(tbl, e.inodenum) {
        Some(Inode::File(g)) => g.size == e.data@.len(),
        _ => false,
    }
}

/// Directory entries are valid and unique within each directory.
pub open spec fn table_ok(tbl: Seq<Option<Inode>>) -> bool {
    forall|i: int|
        0 <= i < tbl.len() ==> (match #[trigger] tbl[i] {
            Some(Inode::Dir(d)) => dir_ok(tbl, d),
            _ => true,
        })
}

/// Well-formedness of the whole metadata store: the next inode number is
/// the table length, the root is a directory, directory entries are valid
/// and unique, sizes fit the reporting range, every regular file has a
/// content entry, and content entries are unique and sized consistently.
pub open spec fn md_wf(md: FilesystemMetadata) -> bool {
    let tbl = md.inodetable@;
    let fot = md.fileobjecttable@;
    &&& md.nextinode == tbl.len()
    &&& ROOTDIRECTORYINODE < tbl.len()
    &&& (match tbl[ROOTDIRECTORYINODE as int] {
        Some(n) => n is Dir,
        None => false,
    })
    &&& table_ok(tbl)
    &&& forall|i: int|
        0 <= i < tbl.len() ==> (match #[trigger] tbl[i] {
            Some(n) => inode_size(n) <= FS_SIZE_MAX,
            None => true,
        })
    &&& forall|i: int|
        0 <= i < tbl.len() ==> (match #[trigger] tbl[i] {
            Some(Inode::File(_)) => has_fobj(fot, i as usize),
            _ => true,
        })
    &&& forall|k: int| 0 <= k < fot.len() ==> fobj_entry_ok(tbl, #[trigger] fot[k])
    &&& forall|k1: int, k2: int|
        0 <= k1 < k2 < fot.len() ==> (#[trigger] fot[k1]).inodenum != (
        #[trigger] fot[k2]).inodenum
}

// ---------------------------------------------------------------------------
// Lemmas about lookup and walking
// ---------------------------------------------------------------------------

/// A found entry sits somewhere in the list under the searched name.
pub proof fn lemma_dir_find_some(ents: Seq<DirEnt>, name: Seq<u8>)
    ensures
        (match dir_find(ents, name) {
            Some(n) => exists|j: int|
                0 <= j < ents.len() && (#[trigger] ents[j]).name@ == name && ents[j].inode
                    == n,
            None => forall|j: int|
                0 <= j < ents.len() ==> (#[trigger] ents[j]).name@ != name,
        }),
    decreases ents.len(),
{
    if ents.len() > 0 {
        if ents[0].name@ == name {
        } else {
            lemma_dir_find_some(ents.skip(1), name);
            match dir_find(ents.skip(1), name) {
                Some(n) => {
                    let j = choose|j: int|
                        0 <= j < ents.skip(1).len() && (#[trigger] ents.skip(1)[j]).name@
                            == name && ents.skip(1)[j].inode == n;
                    assert(ents[j + 1].name@ == name && ents[j + 1].inode == n);
                },
                None => {
                    assert forall|j: int| 0 <= j < ents.len() implies (
                    #[trigger] ents[j]).name@ != name by {
                        if j > 0 {
                            assert(ents.skip(1)[j - 1] == ents[j]);
                        }
                    }
                },
            }
        }
    }
}

/// A name no entry carries is not found.
pub proof fn lemma_dir_find_none(ents: Seq<DirEnt>, name: Seq<u8>)
    requires
        forall|j: int| 0 <= j < ents.len() ==> (#[trigger] ents[j]).name@ != name,
    ensures
        dir_find(ents, name) is None,
    decreases ents.len(),
{
    if ents.len() > 0 {
        assert(ents[0].name@ != name);
        assert forall|j: int| 0 <= j < ents.skip(1).len() implies (
        #[trigger] ents.skip(1)[j]).name@ != name by {
            assert(ents.skip(1)[j] == ents[j + 1]);
        }
        lemma_dir_find_none(ents.skip(1), name);
    }
}

/// Appending an entry changes a lookup only for the appended name, and
/// only when that name was absent.
pub proof fn lemma_dir_find_push(ents: Seq<DirEnt>, ent: DirEnt, name: Seq<u8>)
    ensures
        dir_find(ents.push(ent), name) == (match dir_find(ents, name) {
            Some(n) => Some(n),
            None => if ent.name@ == name {
                Some(ent.inode)
            } else {
                None
            },
        }),
    decreases ents.len(),
{
    reveal_with_fuel(dir_find, 3);
    if ents.len() == 0 {
        assert(ents.push(ent)[0] == ent);
        assert(ents.push(ent).skip(1) =~= Seq::<DirEnt>::empty());
    } else {
        assert(ents.push(ent)[0] == ents[0]);
        assert(ents.push(ent).skip(1) =~= ents.skip(1).push(ent));
        lemma_dir_find_push(ents.skip(1), ent, name);
    }
}

/// Under a well-formed table, a walk from a valid target ends at a valid
/// target.
pub proof fn lemma_walk_valid(tbl: Seq<Option<Inode>>, cur: usize, comps: Seq<Seq<u8>>)
    requires
        table_ok(tbl),
        valid_target(tbl, cur),
    ensures
        (match walk_from(tbl, cur, comps) {
            Some(r) => valid_target(tbl, r),
            None => true,
        }),
    decreases comps.len(),
{
    if comps.len() > 0 {
        match inode_at(tbl, cur) {
            Some(Inode::Dir(d)) => {
                match dir_find(d.filename_to_inode_dict@, comps[0]) {
                    Some(n) => {
                        lemma_dir_find_some(d.filename_to_inode_dict@, comps[0]);
                        assert(valid_target(tbl, n));
                        lemma_walk_valid(tbl, n, comps.skip(1));
                    },
                    None => {},
                }
            },
            _ => {},
        }
    }
}

/// The terminal of the two-result walk is the plain walk's result.
pub proof fn lemma_walk2_fst(tbl: Seq<Option<Inode>>, cur: usize, comps: Seq<Seq<u8>>)
    ensures
        walk2_from(tbl, cur, comps).0 == walk_from(tbl, cur, comps),
    decreases comps.len(),
{
    reveal_with_fuel(walk_from, 3);
    reveal_with_fuel(walk2_from, 3);
    if comps.len() > 0 {
        match inode_at(tbl, cur) {
            Some(Inode::Dir(d)) => {
                match dir_find(d.filename_to_inode_dict@, comps[0]) {
                    Some(n) => {
                        if comps.len() == 1 {
                            assert(comps.skip(1).len() == 0);
                        } else {
                            lemma_walk2_fst(tbl, n, comps.skip(1));
                        }
                    },
                    None => {},
                }
            },
            _ => {},
        }
    }
}

/// When the two-result walk reports a parent, the walk consumed at least
/// one component, the parent is a live directory, and the terminal result
/// is exactly that directory's lookup of the last component.
pub proof fn lemma_walk2_parent(tbl: Seq<Option<Inode>>, cur: usize, comps: Seq<Seq<u8>>)
    requires
        walk2_from(tbl, cur, comps).1 is Some,
    ensures
        comps.len() > 0,
        (match walk2_from(tbl, cur, comps).1 {
            Some(p) => match inode_at(tbl, p) {
                Some(Inode::Dir(d)) => walk2_from(tbl, cur, comps).0 == dir_find(
                    d.filename_to_inode_dict@,
                    comps.last(),
                ),
                _ => false,
            },
            None => false,
        }),
    decreases comps.len(),
{
    match inode_at(tbl, cur) {
        Some(Inode::Dir(d)) => {
            match dir_find(d.filename_to_inode_dict@, comps[0]) {
                Some(n) => {
                    if comps.len() == 1 {
                        assert(comps.last() == comps[0]);
                    } else {
                        lemma_walk2_parent(tbl, n, comps.skip(1));
                        assert(comps.skip(1).last() == comps.last());
                    }
                },
                None => {
                    assert(comps.len() == 1);
                    assert(comps.last() == comps[0]);
                },
            }
        },
        _ => {},
    }
}

/// What a walk can see of one table slot: the child map if the slot is a
/// live directory, nothing otherwise.
pub open spec fn dir_dict_of(a: Option<Inode>) -> Option<Seq<DirEnt>> {
    match a {
        Some(Inode::Dir(d)) => Some(d.filename_to_inode_dict@),
        _ => None,
    }
}

/// A walk sees only directory shapes: two tables with the same directory
/// slots and child maps walk identically.
pub proof fn lemma_walk2_shape(
    tbl: Seq<Option<Inode>>,
    tbl2: Seq<Option<Inode>>,
    cur: usize,
    comps: Seq<Seq<u8>>,
)
    requires
        tbl2.len() == tbl.len(),
        forall|i: int|
            0 <= i < tbl.len() ==> dir_dict_of(#[trigger] tbl2[i]) == dir_dict_of(
                tbl[i],
            ),
    ensures
        walk2_from(tbl2, cur, comps) == walk2_from(tbl, cur, comps),
    decreases comps.len(),
{
    if comps.len() > 0 {
        match inode_at(tbl, cur) {
            Some(Inode::Dir(d)) => {
                assert(dir_dict_of(tbl2[cur as int]) == Some(d.filename_to_inode_dict@));
                match inode_at(tbl2, cur) {
                    Some(Inode::Dir(d2)) => {
                        assert(d2.filename_to_inode_dict@ == d.filename_to_inode_dict@);
                        match dir_find(d.filename_to_inode_dict@, comps[0]) {
                            Some(n) => {
                                if comps.len() > 1 {
                                    lemma_walk2_shape(tbl, tbl2, n, comps.skip(1));
                                }
                            },
                            None => {},
                        }
                    },
                    _ => {
                        assert(false);
                    },
                }
            },
            _ => {
                if cur < tbl.len() {
                    assert(dir_dict_of(tbl2[cur as int]) == dir_dict_of(tbl[cur as int]));
                }
            },
        }
    }
}

/// After a fresh inode is linked under `name` in directory `p`, the walk
/// that failed exactly at its last component now lands on the new inode.
pub proof fn lemma_walk2_after_create(
    tbl: Seq<Option<Inode>>,
    tbl2: Seq<Option<Inode>>,
    cur: usize,
    comps: Seq<Seq<u8>>,
    p: usize,
    ent: DirEnt,
    newino: usize,
)
    requires
        comps.len() >= 1,
        ent.name@ == comps.last(),
        ent.inode == newino,
        walk2_from(tbl, cur, comps) == (None::<usize>, Some(p)),
        newino >= tbl.len(),
        tbl2.len() > tbl.len(),
        p < tbl.len(),
        (match (tbl[p as int], tbl2[p as int]) {
            (Some(Inode::Dir(d0)), Some(Inode::Dir(d1))) => d1.filename_to_inode_dict@
                == d0.filename_to_inode_dict@.push(ent),
            _ => false,
        }),
        forall|i: int| 0 <= i < tbl.len() && i != p ==> #[trigger] tbl2[i] == tbl[i],
    ensures
        walk2_from(tbl2, cur, comps) == (Some(newino), Some(p)),
    decreases comps.len(),
{
    match inode_at(tbl, cur) {
        Some(Inode::Dir(d)) => {
            let d2 = (match tbl2[cur as int] {
                Some(Inode::Dir(dd)) => dd,
                _ => arbitrary(),
            });
            if cur == p {
                assert(d2.filename_to_inode_dict@ == d.filename_to_inode_dict@.push(
                    ent,
                ));
            } else {
                assert(tbl2[cur as int] == tbl[cur as int]);
                assert(d2 == d);
            }
            match dir_find(d.filename_to_inode_dict@, comps[0]) {
                Some(n) => {
                    assert(comps.len() > 1) by {
                        if comps.len() == 1 {
                            assert(walk2_from(tbl, cur, comps).0 == Some(n));
                        }
                    }
                    if cur == p {
                        lemma_dir_find_push(d.filename_to_inode_dict@, ent, comps[0]);
                        assert(dir_find(d2.filename_to_inode_dict@, comps[0]) == Some(
                            n,
                        ));
                    }
                    assert(comps.skip(1).last() == comps.last());
                    lemma_walk2_after_create(tbl, tbl2, n, comps.skip(1), p, ent, newino);
                },
                None => {
                    assert(comps.len() == 1) by {
                        if comps.len() > 1 {
                            assert(walk2_from(tbl, cur, comps) == (
                                None::<usize>,
                                None::<usize>,
                            ));
                        }
                    }
                    assert(cur == p);
                    assert(comps[0] == comps.last());
                    lemma_dir_find_push(d.filename_to_inode_dict@, ent, comps[0]);
                    assert(dir_find(d2.filename_to_inode_dict@, comps[0]) == Some(
                        newino,
                    ));
                },
            }
        },
        _ => {
            assert(false);
        },
    }
}

/// Removing one entry never disturbs the lookup of a different name.
pub proof fn lemma_dir_find_remove_other(ents: Seq<DirEnt>, entpos: int, c: Seq<u8>)
    requires
        0 <= entpos < ents.len(),
        ents[entpos].name@ != c,
    ensures
        dir_find(ents.remove(entpos), c) == dir_find(ents, c),
    decreases ents.len(),
{
    reveal_with_fuel(dir_find, 2);
    if entpos == 0 {
        assert(ents.remove(0) =~= ents.skip(1));
    } else {
        assert(ents.remove(entpos)[0] == ents[0]);
        assert(ents.remove(entpos).skip(1) =~= ents.skip(1).remove(entpos - 1));
        assert(ents.skip(1)[entpos - 1] == ents[entpos]);
        lemma_dir_find_remove_other(ents.skip(1), entpos - 1, c);
    }
}

/// After the unique entry under `name` leaves directory `p`, the walk
/// that used to end on that entry's non-directory target finds nothing.
pub proof fn lemma_walk2_after_remove(
    tbl: Seq<Option<Inode>>,
    tbl2: Seq<Option<Inode>>,
    cur: usize,
    comps: Seq<Seq<u8>>,
    p: usize,
    entpos: int,
    ino: usize,
)
    requires
        comps.len() >= 1,
        walk2_from(tbl, cur, comps) == (Some(ino), Some(p)),
        (match inode_at(tbl, ino) {
            Some(n) => !(n is Dir),
            None => true,
        }),
        table_ok(tbl),
        tbl2.len() == tbl.len(),
        forall|i: int| 0 <= i < tbl.len() && i != p ==> #[trigger] tbl2[i] == tbl[i],
        (match (tbl[p as int], tbl2[p as int]) {
            (Some(Inode::Dir(d0)), Some(Inode::Dir(d1))) => {
                &&& 0 <= entpos < d0.filename_to_inode_dict@.len()
                &&& d0.filename_to_inode_dict@[entpos].name@ == comps.last()
                &&& d1.filename_to_inode_dict@ == d0.filename_to_inode_dict@.remove(
                    entpos,
                )
            },
            _ => false,
        }),
    ensures
        walk2_from(tbl2, cur, comps) == (None::<usize>, Some(p)),
    decreases comps.len(),
{
    lemma_walk2_parent(tbl, cur, comps);
    let d0 = (match tbl[p as int] {
        Some(Inode::Dir(d)) => d,
        _ => arbitrary(),
    });
    let d1 = (match tbl2[p as int] {
        Some(Inode::Dir(d)) => d,
        _ => arbitrary(),
    });
    assert(dir_find(d0.filename_to_inode_dict@, comps.last()) == Some(ino));
    match inode_at(tbl, cur) {
        Some(Inode::Dir(d)) => {
            if comps.len() == 1 {
                assert(cur == p);
                assert(d == d0);
                assert(comps[0] == comps.last());
                assert forall|jj: int|
                    0 <= jj < d1.filename_to_inode_dict@.len() implies (
                #[trigger] d1.filename_to_inode_dict@[jj]).name@ != comps.last() by {
                    let s0 = d0.filename_to_inode_dict@;
                    let m: int = if jj < entpos {
                        jj
                    } else {
                        jj + 1
                    };
                    assert(d1.filename_to_inode_dict@[jj] == s0[m]);
                    if m != entpos {
                        lemma_dir_find_some(s0, comps.last());
                        if s0[m].name@ == comps.last() {
                            assert(dir_ok(tbl, d0));
                            assert(s0[m].name@ != s0[entpos].name@);
                        }
                    }
                }
                lemma_dir_find_none(d1.filename_to_inode_dict@, comps.last());
            } else {
                match dir_find(d.filename_to_inode_dict@, comps[0]) {
                    Some(n) => {
                        if cur == p && comps[0] == comps.last() {
                            assert(n == ino);
                            assert(walk2_from(tbl, n, comps.skip(1)) == (
                                Some(ino),
                                Some(p),
                            ));
                            assert(comps.skip(1).len() >= 1);
                            assert(false);
                        }
                        let d2 = (match tbl2[cur as int] {
                            Some(Inode::Dir(dd)) => dd,
                            _ => arbitrary(),
                        });
                        if cur == p {
                            lemma_dir_find_remove_other(
                                d0.filename_to_inode_dict@,
                                entpos,
                                comps[0],
                            );
                            assert(dir_find(d2.filename_to_inode_dict@, comps[0])
                                == Some(n));
                        } else {
                            assert(d2 == d);
                        }
                        assert(comps.skip(1).last() == comps.last());
                        lemma_walk2_after_remove(
                            tbl,
                            tbl2,
                            n,
                            comps.skip(1),
                            p,
                            entpos,
                            ino,
                        );
                    },
                    None => {
                        assert(false);
                    },
                }
            }
        },
        _ => {
            assert(false);
        },
    }
}

// ---------------------------------------------------------------------------
// Executable lookup and walking
// ---------------------------------------------------------------------------

/// Look a name up in a directory's entry list.
pub fn dir_lookup(ents: &Vec<DirEnt>, name: &Vec<u8>) -> (r: Option<usize>)
    ensures
        r == dir_find(ents@, name@),
{
    let mut j: usize = 0;
    proof {
        assert(ents@.skip(0) =~= ents@);
    }
    while j < ents.len()
        invariant
            j <= ents.len(),
            dir_find(ents@, name@) == dir_find(ents@.skip(j as int), name@),
        decreases ents.len() - j,
    {
        proof {
            assert(ents@.skip(j as int)[0] == ents@[j as int]);
            assert(ents@.skip(j as int).skip(1) =~= ents@.skip(j + 1 as int));
        }
        if bytes_eq(&ents[j].name, name) {
            return Some(ents[j].inode);
        }
        j = j + 1;
    }
    proof {
        assert(ents@.skip(ents@.len() as int) =~= Seq::<DirEnt>::empty());
    }
    None
}

/// Walk a normalized path from the root of the tree.
pub fn metawalk(md: &FilesystemMetadata, comps: &Vec<Vec<u8>>) -> (r: Option<usize>)
    ensures
        r == spec_walk(*md, comps_view(*comps)),
{
    let ghost full = comps_view(*comps);
    let ghost tbl = md.inodetable@;
    let mut cur: usize = ROOTDIRECTORYINODE;
    let mut i: usize = 0;
    proof {
        assert(full.skip(0) =~= full);
    }
    while i < comps.len()
        invariant
            i <= comps.len(),
            full == comps_view(*comps),
            tbl == md.inodetable@,
            walk_from(tbl, ROOTDIRECTORYINODE, full) == walk_from(
                tbl,
                cur,
                full.skip(i as int),
            ),
        decreases comps.len() - i,
    {
        let ghost rest = full.skip(i as int);
        proof {
            assert(rest[0] == comps@[i as int]@);
            assert(rest.skip(1) =~= full.skip(i + 1 as int));
        }
        if cur >= md.inodetable.len() {
            return None;
        }
        match &md.inodetable[cur] {
            Some(Inode::Dir(d)) => {
                match dir_lookup(&d.filename_to_inode_dict, &comps[i]) {
                    Some(n) => {
                        cur = n;
                    },
                    None => {
                        return None;
                    },
                }
            },
            _ => {
                return None;
            },
        }
        i = i + 1;
    }
    proof {
        assert(full.skip(comps@.len() as int) =~= Seq::<Seq<u8>>::empty());
    }
    Some(cur)
}

/// Walk a normalized path from the root, yielding `(terminal, parent)`.
/// A reported parent is always a live directory.
pub fn metawalkandparent(md: &FilesystemMetadata, comps: &Vec<Vec<u8>>) -> (r: (
    Option<usize>,
    Option<usize>,
))
    ensures
        r == spec_walk2(*md, comps_view(*comps)),
        (match r.1 {
            Some(p) => p < md.inodetable@.len() && (match md.inodetable@[p as int] {
                Some(n) => n is Dir,
                None => false,
            }),
            None => true,
        }),
{
    let ghost full = comps_view(*comps);
    let ghost tbl = md.inodetable@;
    if comps.len() == 0 {
        return (Some(ROOTDIRECTORYINODE), None);
    }
    let mut cur: usize = ROOTDIRECTORYINODE;
    let mut i: usize = 0;
    proof {
        assert(full.skip(0) =~= full);
    }
    while i + 1 < comps.len()
        invariant
            i + 1 <= comps.len(),
            full == comps_view(*comps),
            tbl == md.inodetable@,
            walk2_from(tbl, ROOTDIRECTORYINODE, full) == walk2_from(
                tbl,
                cur,
                full.skip(i as int),
            ),
        decreases comps.len() - i,
    {
        let ghost rest = full.skip(i as int);
        proof {
            assert(rest.len() >= 2);
            assert(rest[0] == comps@[i as int]@);
            assert(rest.skip(1) =~= full.skip(i + 1 as int));
        }
        if cur >= md.inodetable.len() {
            return (None, None);
        }
        match &md.inodetable[cur] {
            Some(Inode::Dir(d)) => {
                match dir_lookup(&d.filename_to_inode_dict, &comps[i]) {
                    Some(n) => {
                        cur = n;
                    },
                    None => {
                        return (None, None);
                    },
                }
            },
            _ => {
                return (None, None);
            },
        }
        i = i + 1;
    }
    let ghost rest = full.skip(i as int);
    proof {
        assert(rest.len() == 1);
        assert(rest[0] == comps@[i as int]@);
    }
    if cur >= md.inodetable.len() {
        return (None, None);
    }
    match &md.inodetable[cur] {
        Some(Inode::Dir(d)) => {
            match dir_lookup(&d.filename_to_inode_dict, &comps[i]) {
                Some(n) => (Some(n), Some(cur)),
                None => (None, Some(cur)),
            }
        },
        _ => (None, None),
    }
}

/// Find the file object table slot holding content for inode `ino`.
pub fn fobj_lookup(fot: &Vec<FileObject>, ino: usize) -> (r: Option<usize>)
    ensures
        r is Some <==> has_fobj(fot@, ino),
        (match r {
            Some(u) => u < fot@.len() && fot@[u as int].inodenum == ino,
            None => true,
        }),
{
    let mut k: usize = 0;
    while k < fot.len()
        invariant
            k <= fot.len(),
            forall|j: int| 0 <= j < k ==> (#[trigger] fot@[j]).inodenum != ino,
        decreases fot.len() - k,
    {
        if fot[k].inodenum == ino {
            return Some(k);
        }
        k = k + 1;
    }
    None
}

/// With unique file object entries, the slot found for `ino` holds
/// exactly the content `fobj_data` denotes.
pub proof fn lemma_fobj_at(fot: Seq<FileObject>, ino: usize, u: int)
    requires
        forall|k1: int, k2: int|
            0 <= k1 < k2 < fot.len() ==> (#[trigger] fot[k1]).inodenum != (
            #[trigger] fot[k2]).inodenum,
        0 <= u < fot.len(),
        fot[u].inodenum == ino,
    ensures
        has_fobj(fot, ino),
        fobj_data(fot, ino) == fot[u].data@,
{
    assert(has_fobj(fot, ino));
    let k = choose|k: int| 0 <= k < fot.len() && (#[trigger] fot[k]).inodenum == ino;
    if k < u {
        assert(fot[k].inodenum != fot[u].inodenum);
    } else if u < k {
        assert(fot[u].inodenum != fot[k].inodenum);
    }
}

// ---------------------------------------------------------------------------
// Positional content access
// ---------------------------------------------------------------------------

/// `n` zero bytes.
pub open spec fn zero_seq(n: int) -> Seq<u8> {
    Seq::new(n as nat, |i: int| 0u8)
}

/// The content after writing the first `count` bytes of `b` into `d` at
/// `offset`: a gap past the old end is zero-filled, the tail past the
/// write survives, and the length becomes `max(len, offset + count)`.
pub open spec fn spec_write_at(d: Seq<u8>, b: Seq<u8>, count: int, offset: int) -> Seq<
    u8,
> {
    let pre = if offset <= d.len() {
        d.subrange(0, offset)
    } else {
        d + zero_seq(offset - d.len())
    };
    let post = if d.len() > offset + count {
        d.subrange(offset + count, d.len() as int)
    } else {
        Seq::empty()
    };
    pre + b.subrange(0, count) + post
}

/// Read up to `count` bytes of `data` at `offset` into the head of
/// `buf`; a read at or past the end yields nothing.
pub fn read_at(data: &Vec<u8>, buf: &mut Vec<u8>, count: usize, offset: usize) -> (r:
    usize)
    requires
        count <= old(buf).len(),
    ensures
        r == (if offset < data@.len() {
            if count <= data@.len() - offset {
                count as int
            } else {
                data@.len() - offset
            }
        } else {
            0
        }),
        final(buf).len() == old(buf).len(),
        forall|i: int| 0 <= i < r ==> final(buf)@[i] == data@[offset + i],
        forall|i: int| r <= i < old(buf).len() ==> final(buf)@[i] == old(buf)@[i],
{
    let n: usize = if offset < data.len() {
        let avail = data.len() - offset;
        if count <= avail {
            count
        } else {
            avail
        }
    } else {
        0
    };
    let mut i: usize = 0;
    while i < n
        invariant
            i <= n,
            n <= count,
            count <= buf.len(),
            buf.len() == old(buf).len(),
            offset + n <= data@.len() || n == 0,
            forall|j: int| 0 <= j < i ==> buf@[j] == data@[offset + j],
            forall|j: int| i <= j < old(buf).len() ==> buf@[j] == old(buf)@[j],
        decreases n - i,
    {
        let dl = data.len();
        proof {
            assert(offset + n <= dl);
        }
        buf[i] = data[offset + i];
        i = i + 1;
    }
    n
}

/// Write the first `count` bytes of `buf` into `data` at `offset`,
/// zero-filling any gap past the old end and extending the length as
/// needed; reports the count written.
pub fn write_at(data: &mut Vec<u8>, buf: &Vec<u8>, count: usize, offset: usize) -> (r:
    usize)
    requires
        count <= buf.len(),
        offset + count <= FS_SIZE_MAX,
    ensures
        r == count,
        final(data)@ == spec_write_at(old(data)@, buf@, count as int, offset as int),
        final(data)@.len() == (if old(data)@.len() >= offset + count {
            old(data)@.len() as int
        } else {
            offset + count
        }),
{
    let ghost orig = data@;
    while data.len() < offset
        invariant
            orig == old(data)@,
            data@.len() == orig.len() || data@.len() <= offset,
            data@.len() >= orig.len(),
            forall|j: int| 0 <= j < orig.len() ==> data@[j] == orig[j],
            forall|j: int| orig.len() <= j < data@.len() ==> data@[j] == 0u8,
        decreases offset - data.len(),
    {
        data.push(0u8);
    }
    let mut i: usize = 0;
    while i < count
        invariant
            i <= count,
            count <= buf.len(),
            orig == old(data)@,
            offset + count <= FS_SIZE_MAX,
            data@.len() == (if orig.len() >= offset + i {
                orig.len() as int
            } else {
                offset + i
            }),
            offset <= data@.len(),
            forall|j: int| 0 <= j < orig.len() && j < offset ==> data@[j] == orig[j],
            forall|j: int| orig.len() <= j < offset ==> data@[j] == 0u8,
            forall|j: int| offset <= j < offset + i ==> data@[j] == buf@[j - offset],
            forall|j: int|
                offset + i <= j < data@.len() && offset + count <= j ==> data@[j]
                    == orig[j],
            forall|j: int|
                offset + i <= j < data@.len() && j < offset + count ==> data@[j]
                    == orig[j],
        decreases count - i,
    {
        if offset + i < data.len() {
            data[offset + i] = buf[i];
        } else {
            data.push(buf[i]);
        }
        i = i + 1;
    }
    proof {
        let target = spec_write_at(orig, buf@, count as int, offset as int);
        assert(data@.len() == target.len());
        assert forall|j: int| 0 <= j < data@.len() implies data@[j] == target[j] by {
            if j < offset {
                if j < orig.len() {
                } else {
                }
            } else if j < offset + count {
            } else {
            }
        }
        assert(data@ =~= target);
    }
    count
}

/// Compose a device number into the single word `stat` reports.
pub open spec fn spec_makedev(major: u32, minor: u32) -> u64 {
    ((major as u64 & 0xfffu64) << 8u64) | (minor as u64 & 0xffu64) | ((minor as u64
        & 0xffffff00u64) << 12u64) | ((major as u64 & 0xfffff000u64) << 32u64)
}

pub fn makedev(dev: &DevNo) -> (r: u64)
    ensures
        r == spec_makedev(dev.major, dev.minor),
{
    ((dev.major as u64 & 0xfffu64) << 8u64) | (dev.minor as u64 & 0xffu64) | ((dev.minor
        as u64 & 0xffffff00u64) << 12u64) | ((dev.major as u64 & 0xfffff000u64) << 32u64)
}

} // verus!
