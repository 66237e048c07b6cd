//! Small shared utilities: the advisory lock state machine, hash-map
//! construction, and byte-buffer helpers used by the device files.

use vstd::prelude::*;
use std::collections::HashMap;
use vstd::string::StringSliceAdditionalSpecFns;

verus! {

/// Cooperative shared/exclusive lock. The whole lock is the counter:
/// `0` means unlocked, `-1` held exclusively, and `n > 0` held by `n`
/// shared holders. Blocking acquisition is expressed by preconditions:
/// an acquire may be called exactly when a waiter would have stopped
/// waiting, so a caller that could never be woken may not call in.
pub struct AdvisoryLock {
    advisory_lock: i32,
}

impl AdvisoryLock {
    /// The counter encoding the lock state.
    pub closed spec fn state(&self) -> int {
        self.advisory_lock as int
    }

    /// The counter never goes below the exclusive marker.
    pub open spec fn wf(&self) -> bool {
        self.state() >= -1
    }

    pub fn new() -> (r: Self)
        ensures
            r.state() == 0,
            r.wf(),
    {
        AdvisoryLock { advisory_lock: 0 }
    }

    /// Take the lock exclusively; proceeds once no holder remains.
    pub fn lock_ex(&mut self)
        requires
            old(self).state() == 0,
        ensures
            final(self).state() == -1,
            final(self).wf(),
    {
        self.advisory_lock = -1;
    }

    /// Take the lock shared; proceeds once no exclusive holder remains.
    pub fn lock_sh(&mut self)
        requires
            old(self).state() >= 0,
            old(self).state() < i32::MAX,
        ensures
            final(self).state() == old(self).state() + 1,
            final(self).wf(),
    {
        self.advisory_lock = self.advisory_lock + 1;
    }

    /// Take the lock exclusively if it is free right now.
    pub fn try_lock_ex(&mut self) -> (r: bool)
        requires
            old(self).wf(),
        ensures
            r == (old(self).state() == 0),
            final(self).state() == (if r { -1int } else { old(self).state() }),
            final(self).wf(),
    {
        if self.advisory_lock == 0 {
            self.advisory_lock = -1;
            true
        } else {
            false
        }
    }

    /// Add a shared holder if no exclusive holder is present right now.
    pub fn try_lock_sh(&mut self) -> (r: bool)
        requires
            old(self).wf(),
        ensures
            r == (0 <= old(self).state() < i32::MAX),
            final(self).state() == (if r {
                old(self).state() + 1
            } else {
                old(self).state()
            }),
            final(self).wf(),
    {
        if self.advisory_lock >= 0 && self.advisory_lock < i32::MAX {
            self.advisory_lock = self.advisory_lock + 1;
            true
        } else {
            false
        }
    }

    /// Release one hold: an exclusive holder clears the marker, a shared
    /// holder decrements the count. Returns false when nothing was held.
    pub fn unlock(&mut self) -> (r: bool)
        requires
            old(self).wf(),
        ensures
            r == (old(self).state() != 0),
            final(self).state() == (if old(self).state() > 0 {
                old(self).state() - 1
            } else {
                0int
            }),
            final(self).wf(),
    {
        if self.advisory_lock > 0 {
            self.advisory_lock = self.advisory_lock - 1;
            true
        } else if self.advisory_lock == -1 {
            self.advisory_lock = 0;
            true
        } else {
            false
        }
    }
}

/// A fresh, empty dictionary.
pub fn new_hashmap<K, V>() -> (m: HashMap<K, V>)
    ensures
        m@ == Map::<K, V>::empty(),
{
    HashMap::new()
}

/// Overwrite the first `count` bytes of `buf` with zeroes and report the
/// count, as a read from the zero device does.
pub fn fillzero(buf: &mut Vec<u8>, count: usize) -> (r: i32)
    requires
        count <= old(buf).len(),
        count <= 0x7fff_ffff,
    ensures
        final(buf).len() == old(buf).len(),
        forall|i: int| 0 <= i < count ==> final(buf)@[i] == 0u8,
        forall|i: int| count <= i < old(buf).len() ==> final(buf)@[i] == old(buf)@[i],
        r == count as i32,
{
    let mut i: usize = 0;
    while i < count
        invariant
            i <= count,
            count <= buf.len(),
            buf.len() == old(buf).len(),
            forall|j: int| 0 <= j < i ==> buf@[j] == 0u8,
            forall|j: int| i <= j < old(buf).len() ==> buf@[j] == old(buf)@[j],
        decreases count - i,
    {
        buf[i] = 0u8;
        i = i + 1;
    }
    count as i32
}

/// Overwrite the first `count` bytes of `buf` with bytes drawn from the
/// generator state `seed`, and report the count, as a read from the random
/// devices does. Nothing is promised of the bytes themselves.
pub fn fillrandom(buf: &mut Vec<u8>, count: usize, seed: &mut u64) -> (r: i32)
    requires
        count <= old(buf).len(),
        count <= 0x7fff_ffff,
    ensures
        final(buf).len() == old(buf).len(),
        forall|i: int| count <= i < old(buf).len() ==> final(buf)@[i] == old(buf)@[i],
        r == count as i32,
{
    let mut i: usize = 0;
    let mut x: u64 = if *seed == 0 { 0x9e3779b97f4a7c15u64 } else { *seed };
    while i < count
        invariant
            i <= count,
            count <= buf.len(),
            buf.len() == old(buf).len(),
            forall|j: int| i <= j < old(buf).len() ==> buf@[j] == old(buf)@[j],
        decreases count - i,
    {
        x = x ^ (x << 13u64);
        x = x ^ (x >> 7u64);
        x = x ^ (x << 17u64);
        buf[i] = (x & 0xffu64) as u8;
        i = i + 1;
    }
    *seed = x;
    count as i32
}

/// An ASCII letter or digit.
pub open spec fn spec_is_alnum_byte(b: u8) -> bool {
    (48 <= b <= 57) || (65 <= b <= 90) || (97 <= b <= 122)
}

/// A name the content store may use for a backing file: non-empty, at
/// most 120 bytes, letters and digits only (which also rules out the
/// dot names and a leading period).
pub open spec fn spec_is_allowed_filename(name: Seq<u8>) -> bool {
    &&& 0 < name.len() <= 120
    &&& forall|i: int| 0 <= i < name.len() ==> spec_is_alnum_byte(#[trigger] name[i])
}

/// Check a backing-file name; the host layer refuses to open any name
/// this rejects. The check reads the name's UTF-8 bytes.
pub fn assert_is_allowed_filename(filename: &String) -> (r: bool)
    ensures
        r == spec_is_allowed_filename(vstd::utf8::encode_utf8(filename@)),
{
    let bytes = filename.as_str().as_bytes();
    if bytes.len() == 0 || bytes.len() > 120 {
        return false;
    }
    let mut i: usize = 0;
    while i < bytes.len()
        invariant
            i <= bytes@.len(),
            bytes@.len() <= 120,
            0 < bytes@.len(),
            bytes@ == vstd::utf8::encode_utf8(filename@),
            forall|j: int| 0 <= j < i ==> spec_is_alnum_byte(#[trigger] bytes@[j]),
        decreases bytes.len() - i,
    {
        let b = bytes[i];
        if !((48 <= b && b <= 57) || (65 <= b && b <= 90) || (97 <= b && b <= 122)) {
            return false;
        }
        i = i + 1;
    }
    true
}

/// Byte-for-byte equality of two buffers.
pub fn bytes_eq(a: &Vec<u8>, b: &Vec<u8>) -> (r: bool)
    ensures
        r == (a@ == b@),
{
    if a.len() != b.len() {
        assert(a@ != b@) by {
            assert(a@.len() != b@.len());
        }
        return false;
    }
    let mut i: usize = 0;
    while i < a.len()
        invariant
            i <= a.len(),
            a.len() == b.len(),
            forall|j: int| 0 <= j < i ==> a@[j] == b@[j],
        decreases a.len() - i,
    {
        if a[i] != b[i] {
            return false;
        }
        i = i + 1;
    }
    proof {
        assert(a@ =~= b@);
    }
    true
}

} // verus!
