//! Socket syscalls on a cage: the descriptor-state machine behind
//! socket/bind/connect/listen and the address accessors. Sockets move
//! from unbound through bound to listening or connected; the actual
//! network datapath lives outside the library.

use vstd::prelude::*;
use crate::cage::{
    Cage, ConnState, DescEntry, FileDescriptor, FsState, SocketDesc,
};
use crate::comm::{
    ipaddr_eq, spec_ipaddr_eq, GenSockaddr, SockaddrV4, SockaddrV6, V4Addr, V6Addr,
};
use crate::fs_constants::{
    AF_INET6, EADDRINUSE, EBADF, EINVAL, EISCONN, ENFILE, ENOTCONN, ENOTSOCK, EOPNOTSUPP,
    SOCK_DGRAM, SOL_SOCKET,
};
use crate::fs_calls::{no_free_fd, state_unchanged};
use crate::cage::{fd_free, fdt_with};

verus! {

/// Exact copy of a socket address value.
pub fn sockaddr_copy(a: &GenSockaddr) -> (r: GenSockaddr)
    ensures
        r == *a,
{
    match a {
        GenSockaddr::V4(v) => GenSockaddr::V4(
            SockaddrV4 {
                sin_family: v.sin_family,
                sin_port: v.sin_port,
                sin_addr: v.sin_addr,
            },
        ),
        GenSockaddr::V6(v) => GenSockaddr::V6(
            SockaddrV6 {
                sin6_family: v.sin6_family,
                sin6_port: v.sin6_port,
                sin6_flowinfo: v.sin6_flowinfo,
                sin6_addr: v.sin6_addr,
                sin6_scope_id: v.sin6_scope_id,
            },
        ),
    }
}

/// Exact copy of a socket descriptor value.
fn socketdesc_copy(s: &SocketDesc) -> (r: SocketDesc)
    ensures
        r == *s,
{
    SocketDesc {
        domain: s.domain,
        socktype: s.socktype,
        protocol: s.protocol,
        options: s.options,
        state: s.state,
        localaddr: match &s.localaddr {
            Some(a) => Some(sockaddr_copy(a)),
            None => None,
        },
        remoteaddr: match &s.remoteaddr {
            Some(a) => Some(sockaddr_copy(a)),
            None => None,
        },
        flags: s.flags,
    }
}

/// The port-reuse option bit in a socket's option bitmap.
pub open spec fn spec_reuseport(options: i32) -> bool {
    options & (1i32 << 15i32) != 0
}

/// One descriptor slot holds a socket bound to the same (address, port)
/// for the same socket type, without mutual port reuse with `s`.
pub open spec fn conflict_entry(
    eo: Option<DescEntry>,
    s: SocketDesc,
    addr: GenSockaddr,
) -> bool {
    match eo {
        Some(e) => match e.desc {
            FileDescriptor::Socket(o) => match o.localaddr {
                Some(a) => {
                    &&& a.spec_port() == addr.spec_port()
                    &&& spec_ipaddr_eq(a.spec_addr(), addr.spec_addr())
                    &&& o.socktype == s.socktype
                    &&& !(spec_reuseport(o.options) && spec_reuseport(s.options))
                },
                None => false,
            },
            _ => false,
        },
        None => false,
    }
}

/// Some other live socket already holds the same (address, port) for the
/// same socket type, and the two are not both marked for port reuse.
pub open spec fn addr_conflict(
    dt: Seq<Option<DescEntry>>,
    idx: int,
    s: SocketDesc,
    addr: GenSockaddr,
) -> bool {
    exists|i: int| 0 <= i < dt.len() && i != idx && conflict_entry(#[trigger] dt[i], s, addr)
}

/// Does this slot's socket clash with binding `s` to `addr`?
fn conflicts_with(eo: &Option<DescEntry>, s: &SocketDesc, addr: &GenSockaddr) -> (r:
    bool)
    ensures
        r == conflict_entry(*eo, *s, *addr),
{
    match eo {
        Some(e) => match &e.desc {
            FileDescriptor::Socket(o) => match &o.localaddr {
                Some(a) => {
                    let oaddr = a.addr();
                    let naddr = addr.addr();
                    a.port() == addr.port() && ipaddr_eq(&oaddr, &naddr) && o.socktype
                        == s.socktype && !((o.options & (1i32 << 15i32)) != 0 && (
                    s.options & (1i32 << 15i32)) != 0)
                },
                None => false,
            },
            _ => false,
        },
        None => false,
    }
}

/// Slot `idx` of the descriptor table now holds socket state `s1` (same
/// reference count); nothing else in the world moved.
pub open spec fn sock_updated(fs0: FsState, fs1: FsState, idx: int, s1: SocketDesc) -> bool {
    match fs0.desctable@[idx] {
        Some(e) => {
            &&& fs1.metadata == fs0.metadata
            &&& fs1.logsink == fs0.logsink
            &&& fs1.desctable@ == fs0.desctable@.update(
                idx,
                Some(DescEntry { refs: e.refs, desc: FileDescriptor::Socket(s1) }),
            )
        },
        None => false,
    }
}

/// The socket state stored at slot `idx`, when the slot holds a socket.
pub open spec fn sock_at(dt: Seq<Option<DescEntry>>, idx: int) -> Option<SocketDesc> {
    match dt[idx] {
        Some(e) => match e.desc {
            FileDescriptor::Socket(s) => Some(s),
            _ => None,
        },
        None => None,
    }
}

/// `a` is the all-zero address of the family `domain` selects.
pub open spec fn is_zero_addr(a: GenSockaddr, domain: i32) -> bool {
    if domain == AF_INET6 {
        match a {
            GenSockaddr::V6(v) => {
                &&& v.sin6_family == 0
                &&& v.sin6_port == 0
                &&& v.sin6_flowinfo == 0
                &&& v.sin6_scope_id == 0
                &&& forall|i: int| 0 <= i < 16 ==> v.sin6_addr.s6_addr[i] == 0u8
            },
            _ => false,
        }
    } else {
        a == GenSockaddr::V4(
            (SockaddrV4 { sin_family: 0, sin_port: 0, sin_addr: (V4Addr { s_addr: 0 }) }),
        )
    }
}

impl Cage {
    /// Create a socket descriptor in the unbound state and hand back its
    /// number; `ENFILE` when the table is full.
    pub fn socket_syscall(
        &mut self,
        fs: &mut FsState,
        domain: i32,
        socktype: i32,
        protocol: i32,
    ) -> (r: i32)
        requires
            old(fs).wf(),
            old(self).wf(*old(fs)),
        ensures
            final(fs).wf(),
            final(self).wf(*final(fs)),
            forall|i: int|
                0 <= i < old(fs).desctable@.len() ==> #[trigger] final(fs).desctable@[i]
                    == old(fs).desctable@[i],
            (if no_free_fd(old(self).filedescriptortable@) {
                r == -ENFILE && state_unchanged(
                    *old(self),
                    *old(fs),
                    *final(self),
                    *final(fs),
                )
            } else {
                &&& r >= 0
                &&& fd_free(old(self).filedescriptortable@, r as int)
                &&& (forall|k: int|
                    0 <= k < r ==> !fd_free(old(self).filedescriptortable@, k))
                &&& final(self).filedescriptortable@ == fdt_with(
                    old(self).filedescriptortable@,
                    r as int,
                    Some(old(fs).desctable@.len() as usize),
                )
                &&& final(self).cwd == old(self).cwd
                &&& final(self).cageid == old(self).cageid
                &&& final(self).parent == old(self).parent
                &&& final(fs).metadata == old(fs).metadata
                &&& final(fs).logsink == old(fs).logsink
                &&& final(fs).desctable@ == old(fs).desctable@.push(
                    Some(
                        DescEntry {
                            refs: 1,
                            desc: FileDescriptor::Socket(
                                (SocketDesc {
                                    domain,
                                    socktype,
                                    protocol,
                                    options: 0,
                                    state: ConnState::Unbound,
                                    localaddr: None,
                                    remoteaddr: None,
                                    flags: 0,
                                }),
                            ),
                        },
                    ),
                )
            }),
    {
        let thisfd = match self.get_next_fd(None) {
            Some(fd) => fd,
            None => {
                return -ENFILE;
            },
        };
        let descidx = fs.desctable.len();
        fs.desctable.push(
            Some(
                DescEntry {
                    refs: 1,
                    desc: FileDescriptor::Socket(
                        SocketDesc {
                            domain,
                            socktype,
                            protocol,
                            options: 0,
                            state: ConnState::Unbound,
                            localaddr: None,
                            remoteaddr: None,
                            flags: 0,
                        },
                    ),
                },
            ),
        );
        self.fd_set(thisfd as usize, Some(descidx));
        proof {
            assert forall|i: int| 0 <= i < fs.desctable@.len() implies (match
            #[trigger] fs.desctable@[i] {
                Some(e2) => crate::cage::desc_ok(fs.metadata, e2),
                None => true,
            }) by {
                if i < old(fs).desctable@.len() {
                    assert(fs.desctable@[i] == old(fs).desctable@[i]);
                }
            }
            crate::cage::lemma_census_push_neutral(
                fs.metadata,
                old(fs).desctable@,
                fs.desctable@.last(),
            );
            assert(fs.desctable@ =~= old(fs).desctable@.push(fs.desctable@.last()));
        }
        thisfd
    }

    /// Bind a socket to a local address: `EINVAL` on a socket already
    /// bound through this descriptor, `EADDRINUSE` when another socket of
    /// the same type holds the address and port without mutual port
    /// reuse, and 0 on success with the socket recorded as bound.
    pub fn bind_syscall(&self, fs: &mut FsState, fd: i32, localaddr: &GenSockaddr, _addrlen: usize) -> (r:
        i32)
        requires
            old(fs).wf(),
            self.wf(*old(fs)),
        ensures
            final(fs).wf(),
            self.wf(*final(fs)),
            final(fs).desctable@.len() == old(fs).desctable@.len(),
            (match self.spec_fd_get(fd as int) {
                None => r == -EBADF && *final(fs) == *old(fs),
                Some(idx) => match sock_at(old(fs).desctable@, idx as int) {
                    None => r == (if old(fs).desctable@[idx as int] is Some {
                        -ENOTSOCK
                    } else {
                        -EBADF
                    }) && *final(fs) == *old(fs),
                    Some(s) => {
                        if s.localaddr is Some {
                            r == -EINVAL && *final(fs) == *old(fs)
                        } else if addr_conflict(
                            old(fs).desctable@,
                            idx as int,
                            s,
                            *localaddr,
                        ) {
                            r == -EADDRINUSE && *final(fs) == *old(fs)
                        } else {
                            r == 0 && sock_updated(
                                *old(fs),
                                *final(fs),
                                idx as int,
                                (SocketDesc {
                                    localaddr: Some(*localaddr),
                                    state: ConnState::Bound,
                                    ..s
                                }),
                            )
                        }
                    },
                },
            }),
    {
        let idx = match self.fd_get(fd) {
            Some(i) => i,
            None => {
                return -EBADF;
            },
        };
        let (refs, s): (usize, SocketDesc) = match &fs.desctable[idx] {
            Some(e) => match &e.desc {
                FileDescriptor::Socket(s0) => (e.refs, socketdesc_copy(s0)),
                _ => {
                    return -ENOTSOCK;
                },
            },
            None => {
                return -EBADF;
            },
        };
        if s.localaddr.is_some() {
            return -EINVAL;
        }
        let mut i: usize = 0;
        while i < fs.desctable.len()
            invariant
                i <= fs.desctable@.len(),
                *fs == *old(fs),
                old(fs).wf(),
                self.wf(*old(fs)),
                idx < fs.desctable@.len(),
                self.spec_fd_get(fd as int) == Some(idx),
                sock_at(old(fs).desctable@, idx as int) == Some(s),
                s.localaddr is None,
                forall|k: int|
                    0 <= k < i && k != idx ==> !conflict_entry(
                        #[trigger] fs.desctable@[k],
                        s,
                        *localaddr,
                    ),
            decreases fs.desctable@.len() - i,
        {
            if i != idx && conflicts_with(&fs.desctable[i], &s, localaddr) {
                proof {
                    assert(conflict_entry(fs.desctable@[i as int], s, *localaddr));
                    assert(addr_conflict(
                        old(fs).desctable@,
                        idx as int,
                        s,
                        *localaddr,
                    ));
                }
                return -EADDRINUSE;
            }
            i = i + 1;
        }
        let newaddr = sockaddr_copy(localaddr);
        fs.desctable[idx] = Some(
            DescEntry {
                refs,
                desc: FileDescriptor::Socket(
                    SocketDesc {
                        localaddr: Some(newaddr),
                        state: ConnState::Bound,
                        domain: s.domain,
                        socktype: s.socktype,
                        protocol: s.protocol,
                        options: s.options,
                        remoteaddr: s.remoteaddr,
                        flags: s.flags,
                    },
                ),
            },
        );
        proof {
            assert forall|i2: int| 0 <= i2 < fs.desctable@.len() implies (match
            #[trigger] fs.desctable@[i2] {
                Some(e2) => crate::cage::desc_ok(fs.metadata, e2),
                None => true,
            }) by {
                if i2 != idx {
                    assert(fs.desctable@[i2] == old(fs).desctable@[i2]);
                }
            }
            crate::cage::lemma_census_same_contrib(
                fs.metadata,
                old(fs).desctable@,
                idx as int,
                fs.desctable@[idx as int],
            );
        }
        0
    }

    /// Connect a socket: a datagram socket may connect and re-connect at
    /// will, a stream socket connects once (`EISCONN` when already
    /// connected or listening); the remote address is recorded and the
    /// state becomes connected.
    pub fn connect_syscall(&self, fs: &mut FsState, fd: i32, remoteaddr: &GenSockaddr) -> (r:
        i32)
        requires
            old(fs).wf(),
            self.wf(*old(fs)),
        ensures
            final(fs).wf(),
            self.wf(*final(fs)),
            final(fs).desctable@.len() == old(fs).desctable@.len(),
            (match self.spec_fd_get(fd as int) {
                None => r == -EBADF && *final(fs) == *old(fs),
                Some(idx) => match sock_at(old(fs).desctable@, idx as int) {
                    None => r == (if old(fs).desctable@[idx as int] is Some {
                        -ENOTSOCK
                    } else {
                        -EBADF
                    }) && *final(fs) == *old(fs),
                    Some(s) => {
                        if s.socktype != SOCK_DGRAM && (s.state is Connected
                            || s.state is Listening) {
                            r == -EISCONN && *final(fs) == *old(fs)
                        } else {
                            r == 0 && sock_updated(
                                *old(fs),
                                *final(fs),
                                idx as int,
                                (SocketDesc {
                                    remoteaddr: Some(*remoteaddr),
                                    state: ConnState::Connected,
                                    ..s
                                }),
                            )
                        }
                    },
                },
            }),
    {
        let idx = match self.fd_get(fd) {
            Some(i) => i,
            None => {
                return -EBADF;
            },
        };
        let (refs, s): (usize, SocketDesc) = match &fs.desctable[idx] {
            Some(e) => match &e.desc {
                FileDescriptor::Socket(s0) => (e.refs, socketdesc_copy(s0)),
                _ => {
                    return -ENOTSOCK;
                },
            },
            None => {
                return -EBADF;
            },
        };
        let engaged = match s.state {
            ConnState::Connected => true,
            ConnState::Listening => true,
            _ => false,
        };
        if s.socktype != SOCK_DGRAM && engaged {
            return -EISCONN;
        }
        let newaddr = sockaddr_copy(remoteaddr);
        fs.desctable[idx] = Some(
            DescEntry {
                refs,
                desc: FileDescriptor::Socket(
                    SocketDesc {
                        remoteaddr: Some(newaddr),
                        state: ConnState::Connected,
                        domain: s.domain,
                        socktype: s.socktype,
                        protocol: s.protocol,
                        options: s.options,
                        localaddr: s.localaddr,
                        flags: s.flags,
                    },
                ),
            },
        );
        proof {
            assert forall|i2: int| 0 <= i2 < fs.desctable@.len() implies (match
            #[trigger] fs.desctable@[i2] {
                Some(e2) => crate::cage::desc_ok(fs.metadata, e2),
                None => true,
            }) by {
                if i2 != idx {
                    assert(fs.desctable@[i2] == old(fs).desctable@[i2]);
                }
            }
            crate::cage::lemma_census_same_contrib(
                fs.metadata,
                old(fs).desctable@,
                idx as int,
                fs.desctable@[idx as int],
            );
        }
        0
    }

    /// Mark a bound socket as listening; listening again is a no-op.
    pub fn listen_syscall(&self, fs: &mut FsState, fd: i32, _backlog: i32) -> (r: i32)
        requires
            old(fs).wf(),
            self.wf(*old(fs)),
        ensures
            final(fs).wf(),
            self.wf(*final(fs)),
            final(fs).desctable@.len() == old(fs).desctable@.len(),
            (match self.spec_fd_get(fd as int) {
                None => r == -EBADF && *final(fs) == *old(fs),
                Some(idx) => match sock_at(old(fs).desctable@, idx as int) {
                    None => r == (if old(fs).desctable@[idx as int] is Some {
                        -ENOTSOCK
                    } else {
                        -EBADF
                    }) && *final(fs) == *old(fs),
                    Some(s) => {
                        if s.state is Bound || s.state is Listening {
                            r == 0 && sock_updated(
                                *old(fs),
                                *final(fs),
                                idx as int,
                                (SocketDesc { state: ConnState::Listening, ..s }),
                            )
                        } else {
                            r == -EINVAL && *final(fs) == *old(fs)
                        }
                    },
                },
            }),
    {
        let idx = match self.fd_get(fd) {
            Some(i) => i,
            None => {
                return -EBADF;
            },
        };
        let (refs, s): (usize, SocketDesc) = match &fs.desctable[idx] {
            Some(e) => match &e.desc {
                FileDescriptor::Socket(s0) => (e.refs, socketdesc_copy(s0)),
                _ => {
                    return -ENOTSOCK;
                },
            },
            None => {
                return -EBADF;
            },
        };
        let can_listen = match s.state {
            ConnState::Bound => true,
            ConnState::Listening => true,
            _ => false,
        };
        if !can_listen {
            return -EINVAL;
        }
        fs.desctable[idx] = Some(
            DescEntry {
                refs,
                desc: FileDescriptor::Socket(
                    SocketDesc {
                        state: ConnState::Listening,
                        domain: s.domain,
                        socktype: s.socktype,
                        protocol: s.protocol,
                        options: s.options,
                        localaddr: s.localaddr,
                        remoteaddr: s.remoteaddr,
                        flags: s.flags,
                    },
                ),
            },
        );
        proof {
            assert forall|i2: int| 0 <= i2 < fs.desctable@.len() implies (match
            #[trigger] fs.desctable@[i2] {
                Some(e2) => crate::cage::desc_ok(fs.metadata, e2),
                None => true,
            }) by {
                if i2 != idx {
                    assert(fs.desctable@[i2] == old(fs).desctable@[i2]);
                }
            }
            crate::cage::lemma_census_same_contrib(
                fs.metadata,
                old(fs).desctable@,
                idx as int,
                fs.desctable@[idx as int],
            );
        }
        0
    }

    /// Report the local address of a socket: the bound address, or the
    /// all-zero address of its family when it was never bound.
    pub fn getsockname_syscall(&self, fs: &FsState, fd: i32, ret_addr: &mut GenSockaddr) -> (r:
        i32)
        requires
            fs.wf(),
            self.wf(*fs),
        ensures
            (match self.spec_fd_get(fd as int) {
                None => r == -EBADF && *final(ret_addr) == *old(ret_addr),
                Some(idx) => match sock_at(fs.desctable@, idx as int) {
                    None => r == (if fs.desctable@[idx as int] is Some {
                        -ENOTSOCK
                    } else {
                        -EBADF
                    }) && *final(ret_addr) == *old(ret_addr),
                    Some(s) => match s.localaddr {
                        Some(a) => r == 0 && *final(ret_addr) == a,
                        None => r == 0 && is_zero_addr(*final(ret_addr), s.domain),
                    },
                },
            }),
    {
        let idx = match self.fd_get(fd) {
            Some(i) => i,
            None => {
                return -EBADF;
            },
        };
        match &fs.desctable[idx] {
            Some(e) => match &e.desc {
                FileDescriptor::Socket(s) => {
                    match &s.localaddr {
                        Some(a) => {
                            *ret_addr = sockaddr_copy(a);
                        },
                        None => {
                            if s.domain == AF_INET6 {
                                *ret_addr = GenSockaddr::V6(
                                    SockaddrV6 {
                                        sin6_family: 0,
                                        sin6_port: 0,
                                        sin6_flowinfo: 0,
                                        sin6_addr: V6Addr { s6_addr: [0u8; 16] },
                                        sin6_scope_id: 0,
                                    },
                                );
                            } else {
                                *ret_addr = GenSockaddr::V4(
                                    SockaddrV4 {
                                        sin_family: 0,
                                        sin_port: 0,
                                        sin_addr: V4Addr { s_addr: 0 },
                                    },
                                );
                            }
                        },
                    }
                    0
                },
                _ => -ENOTSOCK,
            },
            None => -EBADF,
        }
    }

    /// Report the remote address of a connected socket; `ENOTCONN` when
    /// the socket has no peer.
    pub fn getpeername_syscall(&self, fs: &FsState, fd: i32, ret_addr: &mut GenSockaddr) -> (r:
        i32)
        requires
            fs.wf(),
            self.wf(*fs),
        ensures
            (match self.spec_fd_get(fd as int) {
                None => r == -EBADF && *final(ret_addr) == *old(ret_addr),
                Some(idx) => match sock_at(fs.desctable@, idx as int) {
                    None => r == (if fs.desctable@[idx as int] is Some {
                        -ENOTSOCK
                    } else {
                        -EBADF
                    }) && *final(ret_addr) == *old(ret_addr),
                    Some(s) => match s.remoteaddr {
                        Some(a) => r == 0 && *final(ret_addr) == a,
                        None => r == -ENOTCONN && *final(ret_addr) == *old(ret_addr),
                    },
                },
            }),
    {
        let idx = match self.fd_get(fd) {
            Some(i) => i,
            None => {
                return -EBADF;
            },
        };
        match &fs.desctable[idx] {
            Some(e) => match &e.desc {
                FileDescriptor::Socket(s) => match &s.remoteaddr {
                    Some(a) => {
                        *ret_addr = sockaddr_copy(a);
                        0
                    },
                    None => -ENOTCONN,
                },
                _ => -ENOTSOCK,
            },
            None => -EBADF,
        }
    }

    /// Record a socket-level option bit: a non-zero value sets the bit
    /// for `optname`, zero clears it; other levels are not supported.
    pub fn setsockopt_syscall(
        &self,
        fs: &mut FsState,
        fd: i32,
        level: i32,
        optname: i32,
        optval: i32,
    ) -> (r: i32)
        requires
            old(fs).wf(),
            self.wf(*old(fs)),
        ensures
            final(fs).wf(),
            self.wf(*final(fs)),
            final(fs).desctable@.len() == old(fs).desctable@.len(),
            (match self.spec_fd_get(fd as int) {
                None => r == -EBADF && *final(fs) == *old(fs),
                Some(idx) => match sock_at(old(fs).desctable@, idx as int) {
                    None => r == (if old(fs).desctable@[idx as int] is Some {
                        -ENOTSOCK
                    } else {
                        -EBADF
                    }) && *final(fs) == *old(fs),
                    Some(s) => {
                        if level == SOL_SOCKET && 0 <= optname < 31 {
                            r == 0 && sock_updated(
                                *old(fs),
                                *final(fs),
                                idx as int,
                                (SocketDesc {
                                    options: if optval != 0 {
                                        s.options | (1i32 << optname)
                                    } else {
                                        s.options & !(1i32 << optname)
                                    },
                                    ..s
                                }),
                            )
                        } else {
                            r == -EOPNOTSUPP && *final(fs) == *old(fs)
                        }
                    },
                },
            }),
    {
        let idx = match self.fd_get(fd) {
            Some(i) => i,
            None => {
                return -EBADF;
            },
        };
        let (refs, s): (usize, SocketDesc) = match &fs.desctable[idx] {
            Some(e) => match &e.desc {
                FileDescriptor::Socket(s0) => (e.refs, socketdesc_copy(s0)),
                _ => {
                    return -ENOTSOCK;
                },
            },
            None => {
                return -EBADF;
            },
        };
        if !(level == SOL_SOCKET && 0 <= optname && optname < 31) {
            return -EOPNOTSUPP;
        }
        let newopts: i32 = if optval != 0 {
            s.options | (1i32 << optname)
        } else {
            s.options & !(1i32 << optname)
        };
        fs.desctable[idx] = Some(
            DescEntry {
                refs,
                desc: FileDescriptor::Socket(
                    SocketDesc {
                        options: newopts,
                        domain: s.domain,
                        socktype: s.socktype,
                        protocol: s.protocol,
                        state: s.state,
                        localaddr: s.localaddr,
                        remoteaddr: s.remoteaddr,
                        flags: s.flags,
                    },
                ),
            },
        );
        proof {
            assert forall|i2: int| 0 <= i2 < fs.desctable@.len() implies (match
            #[trigger] fs.desctable@[i2] {
                Some(e2) => crate::cage::desc_ok(fs.metadata, e2),
                None => true,
            }) by {
                if i2 != idx {
                    assert(fs.desctable@[i2] == old(fs).desctable@[i2]);
                }
            }
            crate::cage::lemma_census_same_contrib(
                fs.metadata,
                old(fs).desctable@,
                idx as int,
                fs.desctable@[idx as int],
            );
        }
        0
    }
}

} // verus!
