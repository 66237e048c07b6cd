use safeposix::cage::{lindrustinit, lindrustfinalize};
use safeposix::comm::{GenIpaddr, GenSockaddr, SockaddrV4, V4Addr};
use safeposix::fs_constants::{
    AF_INET, EINVAL, EADDRINUSE, SOCK_DGRAM, SOCK_STREAM, SOL_SOCKET, SO_REUSEPORT,
};

fn ut_lind_net_bind() {
    let (mut fs, mut cagetable) = lindrustinit();
    let mut cage = cagetable.take_cage(1).unwrap();
    let sockfd = cage.socket_syscall(&mut fs, AF_INET, SOCK_STREAM, 0);

    let socket = GenSockaddr::V4(SockaddrV4 {
        sin_family: 0,
        sin_port: 50102,
        sin_addr: V4Addr { s_addr: u32::from_be_bytes([127, 0, 0, 1]) },
    });

    assert_eq!(cage.bind_syscall(&mut fs, sockfd, &socket, 4096), 0);
    assert_eq!(cage.bind_syscall(&mut fs, sockfd, &socket, 4096), -EINVAL);

    let sockfd2 = cage.socket_syscall(&mut fs, AF_INET, SOCK_STREAM, 0);
    assert_eq!(cage.bind_syscall(&mut fs, sockfd2, &socket, 4096), -EADDRINUSE);

    let sockfd3 = cage.socket_syscall(&mut fs, AF_INET, SOCK_DGRAM, 0);
    assert_eq!(cage.bind_syscall(&mut fs, sockfd3, &socket, 4096), 0);

    assert_eq!(cage.exit_syscall(&mut fs), 0);
    lindrustfinalize(fs, cagetable);
}

fn ut_lind_net_bind_multiple() {
    let (mut fs, mut cagetable) = lindrustinit();
    let mut cage = cagetable.take_cage(1).unwrap();

    let mut sockfd = cage.socket_syscall(&mut fs, AF_INET, SOCK_STREAM, 0);
    let socket = GenSockaddr::V4(SockaddrV4 {
        sin_family: 0,
        sin_port: 50104,
        sin_addr: V4Addr { s_addr: u32::from_be_bytes([127, 0, 0, 1]) },
    });
    assert_eq!(cage.bind_syscall(&mut fs, sockfd, &socket, 4096), 0);

    let sockfd2 = cage.socket_syscall(&mut fs, AF_INET, SOCK_STREAM, 0);

    assert_eq!(cage.setsockopt_syscall(&mut fs, sockfd, SOL_SOCKET, SO_REUSEPORT, 1), 0);
    assert_eq!(cage.setsockopt_syscall(&mut fs, sockfd2, SOL_SOCKET, SO_REUSEPORT, 1), 0);

    assert_eq!(cage.bind_syscall(&mut fs, sockfd2, &socket, 4096), 0);

    assert_eq!(cage.listen_syscall(&mut fs, sockfd, 1), 0);
    assert_eq!(cage.listen_syscall(&mut fs, sockfd2, 1), 0);

    sockfd = cage.socket_syscall(&mut fs, AF_INET, SOCK_DGRAM, 0);
    assert_eq!(cage.bind_syscall(&mut fs, sockfd, &socket, 4096), 0);

    assert_eq!(cage.exit_syscall(&mut fs), 0);
    lindrustfinalize(fs, cagetable);
}

fn ut_lind_net_connect_basic_udp() {
    let (mut fs, mut cagetable) = lindrustinit();
    let mut cage = cagetable.take_cage(1).unwrap();

    let sockfd = cage.socket_syscall(&mut fs, AF_INET, SOCK_DGRAM, 0);
    let mut socket = GenSockaddr::V4(SockaddrV4 {
        sin_family: 0,
        sin_port: 50105,
        sin_addr: V4Addr { s_addr: u32::from_be_bytes([127, 0, 0, 1]) },
    });
    assert_eq!(cage.connect_syscall(&mut fs, sockfd, &socket), 0);

    socket = GenSockaddr::V4(SockaddrV4 {
        sin_family: 0,
        sin_port: 50106,
        sin_addr: V4Addr { s_addr: u32::from_be_bytes([127, 0, 0, 1]) },
    });
    assert_eq!(cage.connect_syscall(&mut fs, sockfd, &socket), 0);

    assert_eq!(cage.exit_syscall(&mut fs), 0);
    lindrustfinalize(fs, cagetable);
}

fn ut_lind_net_getpeername() {
    let (mut fs, mut cagetable) = lindrustinit();
    let mut cage = cagetable.take_cage(1).unwrap();

    let sockfd = cage.socket_syscall(&mut fs, AF_INET, SOCK_DGRAM, 0);
    let mut socket = GenSockaddr::V4(SockaddrV4 {
        sin_family: 0,
        sin_port: 50107,
        sin_addr: V4Addr { s_addr: u32::from_be_bytes([127, 0, 0, 1]) },
    });
    let mut retsocket = GenSockaddr::V4(SockaddrV4::default());

    assert_eq!(cage.connect_syscall(&mut fs, sockfd, &socket), 0);
    assert_eq!(cage.getpeername_syscall(&fs, sockfd, &mut retsocket), 0);
    assert_eq!(retsocket, socket);

    socket = GenSockaddr::V4(SockaddrV4 {
        sin_family: 0,
        sin_port: 50108,
        sin_addr: V4Addr { s_addr: u32::from_be_bytes([127, 0, 0, 1]) },
    });
    assert_eq!(cage.connect_syscall(&mut fs, sockfd, &socket), 0);
    assert_eq!(cage.getpeername_syscall(&fs, sockfd, &mut retsocket), 0);
    assert_eq!(retsocket, socket);

    assert_eq!(cage.exit_syscall(&mut fs), 0);
    lindrustfinalize(fs, cagetable);
}

fn ut_lind_net_getsockname() {
    let (mut fs, mut cagetable) = lindrustinit();
    let mut cage = cagetable.take_cage(1).unwrap();

    let sockfd = cage.socket_syscall(&mut fs, AF_INET, SOCK_STREAM, 0);
    let mut retsocket = GenSockaddr::V4(SockaddrV4::default());

    assert_eq!(cage.getsockname_syscall(&fs, sockfd, &mut retsocket), 0);
    assert_eq!(retsocket.port(), 0);
    assert_eq!(retsocket.addr(), GenIpaddr::V4(V4Addr::default()));

    let mut socket = GenSockaddr::V4(SockaddrV4 {
        sin_family: 0,
        sin_port: 50109,
        sin_addr: V4Addr { s_addr: u32::from_be_bytes([127, 0, 0, 1]) },
    });

    assert_eq!(cage.bind_syscall(&mut fs, sockfd, &socket, 4096), 0);
    assert_eq!(cage.getsockname_syscall(&fs, sockfd, &mut retsocket), 0);
    assert_eq!(retsocket, socket);

    socket = GenSockaddr::V4(SockaddrV4 {
        sin_family: 0,
        sin_port: 50110,
        sin_addr: V4Addr { s_addr: u32::from_be_bytes([127, 0, 0, 1]) },
    });
    assert_eq!(cage.bind_syscall(&mut fs, sockfd, &socket, 4096), -EINVAL);
    assert_eq!(cage.getsockname_syscall(&fs, sockfd, &mut retsocket), 0);
    assert_ne!(retsocket, socket);

    assert_eq!(cage.exit_syscall(&mut fs), 0);
    lindrustfinalize(fs, cagetable);
}

#[test]
pub fn net_tests() {
    ut_lind_net_bind();
    ut_lind_net_bind_multiple();
    ut_lind_net_connect_basic_udp();
    ut_lind_net_getpeername();
    ut_lind_net_getsockname();
}
