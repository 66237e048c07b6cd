//! Socket address values: the IPv4/IPv6 address and sockaddr records and
//! the accessors the socket syscalls use on them.

use vstd::prelude::*;

verus! {

#[derive(Debug, Hash, PartialEq, Eq, Clone, Copy, Default)]
pub struct V4Addr {
    pub s_addr: u32,
}

#[derive(Debug, Hash, PartialEq, Eq, Clone, Default)]
pub struct SockaddrV4 {
    pub sin_family: u16,
    pub sin_port: u16,
    pub sin_addr: V4Addr,
}

#[derive(Debug, Hash, PartialEq, Eq, Clone, Copy, Default)]
pub struct V6Addr {
    pub s6_addr: [u8; 16],
}

#[derive(Debug, Hash, PartialEq, Eq, Clone, Default)]
pub struct SockaddrV6 {
    pub sin6_family: u16,
    pub sin6_port: u16,
    pub sin6_flowinfo: u32,
    pub sin6_addr: V6Addr,
    pub sin6_scope_id: u32,
}

#[derive(Debug, Hash, PartialEq, Eq, Clone)]
pub enum GenSockaddr {
    V4(SockaddrV4),
    V6(SockaddrV6),
}

#[derive(Debug, PartialEq, Eq, Clone, Copy)]
pub enum GenIpaddr {
    V4(V4Addr),
    V6(V6Addr),
}

impl GenSockaddr {
    pub open spec fn spec_port(&self) -> u16 {
        match self {
            GenSockaddr::V4(v4addr) => v4addr.sin_port,
            GenSockaddr::V6(v6addr) => v6addr.sin6_port,
        }
    }

    pub open spec fn spec_addr(&self) -> GenIpaddr {
        match self {
            GenSockaddr::V4(v4addr) => GenIpaddr::V4(v4addr.sin_addr),
            GenSockaddr::V6(v6addr) => GenIpaddr::V6(v6addr.sin6_addr),
        }
    }

    /// True when this address and `ip` are of the same family.
    pub open spec fn family_matches(&self, ip: GenIpaddr) -> bool {
        match self {
            GenSockaddr::V4(_) => ip is V4,
            GenSockaddr::V6(_) => ip is V6,
        }
    }

    pub fn port(&self) -> (r: u16)
        ensures
            r == self.spec_port(),
    {
        match self {
            GenSockaddr::V4(v4addr) => v4addr.sin_port,
            GenSockaddr::V6(v6addr) => v6addr.sin6_port,
        }
    }

    pub fn set_port(&mut self, port: u16)
        ensures
            *final(self) == (match *old(self) {
                GenSockaddr::V4(v4addr) => GenSockaddr::V4(
                    SockaddrV4 { sin_port: port, ..v4addr },
                ),
                GenSockaddr::V6(v6addr) => GenSockaddr::V6(
                    SockaddrV6 { sin6_port: port, ..v6addr },
                ),
            }),
    {
        match self {
            GenSockaddr::V4(v4addr) => v4addr.sin_port = port,
            GenSockaddr::V6(v6addr) => v6addr.sin6_port = port,
        };
    }

    pub fn addr(&self) -> (r: GenIpaddr)
        ensures
            r == self.spec_addr(),
    {
        match self {
            GenSockaddr::V4(v4addr) => GenIpaddr::V4(v4addr.sin_addr),
            GenSockaddr::V6(v6addr) => GenIpaddr::V6(v6addr.sin6_addr),
        }
    }

    /// Replace the address; the caller hands an address of this record's
    /// own family.
    pub fn set_addr(&mut self, ip: GenIpaddr)
        requires
            old(self).family_matches(ip),
        ensures
            *final(self) == (match *old(self) {
                GenSockaddr::V4(v4addr) => GenSockaddr::V4(
                    SockaddrV4 { sin_addr: ip->V4_0, ..v4addr },
                ),
                GenSockaddr::V6(v6addr) => GenSockaddr::V6(
                    SockaddrV6 { sin6_addr: ip->V6_0, ..v6addr },
                ),
            }),
    {
        match self {
            GenSockaddr::V4(v4addr) => {
                if let GenIpaddr::V4(v4ip) = ip {
                    v4addr.sin_addr = v4ip;
                }
            },
            GenSockaddr::V6(v6addr) => {
                if let GenIpaddr::V6(v6ip) = ip {
                    v6addr.sin6_addr = v6ip;
                }
            },
        };
    }
}

impl GenIpaddr {
    pub open spec fn spec_is_unspecified(&self) -> bool {
        match self {
            GenIpaddr::V4(v4ip) => v4ip.s_addr == 0,
            GenIpaddr::V6(v6ip) => forall|i: int| 0 <= i < 16 ==> v6ip.s6_addr[i] == 0u8,
        }
    }

    /// True when the address is the all-zero address of its family.
    pub fn is_unspecified(&self) -> (r: bool)
        ensures
            r == self.spec_is_unspecified(),
    {
        match self {
            GenIpaddr::V4(v4ip) => v4ip.s_addr == 0,
            GenIpaddr::V6(v6ip) => {
                let mut i: usize = 0;
                let mut all_zero = true;
                while i < 16
                    invariant
                        i <= 16,
                        all_zero == (forall|j: int| 0 <= j < i ==> v6ip.s6_addr[j] == 0u8),
                    decreases 16 - i,
                {
                    if v6ip.s6_addr[i] != 0u8 {
                        all_zero = false;
                    }
                    i = i + 1;
                }
                all_zero
            },
        }
    }
}

/// Equality of two generic addresses, family included.
pub open spec fn spec_ipaddr_eq(a: GenIpaddr, b: GenIpaddr) -> bool {
    match (a, b) {
        (GenIpaddr::V4(x), GenIpaddr::V4(y)) => x.s_addr == y.s_addr,
        (GenIpaddr::V6(x), GenIpaddr::V6(y)) => x.s6_addr == y.s6_addr,
        _ => false,
    }
}

pub fn ipaddr_eq(a: &GenIpaddr, b: &GenIpaddr) -> (r: bool)
    ensures
        r == spec_ipaddr_eq(*a, *b),
{
    match (a, b) {
        (GenIpaddr::V4(x), GenIpaddr::V4(y)) => x.s_addr == y.s_addr,
        (GenIpaddr::V6(x), GenIpaddr::V6(y)) => {
            let mut i: usize = 0;
            let mut same = true;
            while i < 16
                invariant
                    i <= 16,
                    same == (forall|j: int| 0 <= j < i ==> x.s6_addr[j] == y.s6_addr[j]),
                decreases 16 - i,
            {
                if x.s6_addr[i] != y.s6_addr[i] {
                    same = false;
                }
                i = i + 1;
            }
            proof {
                if same {
                    assert(x.s6_addr =~= y.s6_addr);
                }
            }
            same
        },
        _ => false,
    }
}

/// A host socket handle as the interface layer records it: the raw
/// descriptor number the host kernel handed back. Every call that acts on
/// such a handle is host networking and lives outside the library.
pub struct Socket {
    pub raw_sys_fd: i32,
}

} // verus!
