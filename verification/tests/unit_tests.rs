use safeposix::cage::{lindrustinit, lindrustfinalize, new_cage};
use safeposix::comm::{GenIpaddr, GenSockaddr, SockaddrV4, SockaddrV6, V4Addr, V6Addr};
use safeposix::filesystem::StatData;
use safeposix::fs_constants::{
    EACCES, EBADF, EEXIST, EINVAL, EISDIR, ENOENT, ENOTCONN, ENOTDIR, ENOTSOCK,
    EOPNOTSUPP, EPERM, AF_INET, F_OK, O_APPEND, O_CREAT, O_EXCL, O_RDONLY, O_RDWR,
    O_TRUNC, O_WRONLY, R_OK, SEEK_CUR, SEEK_END, SEEK_SET, SOCK_DGRAM, SOCK_STREAM,
    S_IFCHR, S_IRUSR, S_IRWXA, W_OK,
};
use safeposix::misc::{fillzero, bytes_eq, new_hashmap, AdvisoryLock};
use safeposix::timer::{starttimer, readtimer};

fn zeroed_stat() -> StatData {
    StatData {
        st_dev: 0,
        st_ino: 0,
        st_mode: 0,
        st_nlink: 0,
        st_uid: 0,
        st_gid: 0,
        st_rdev: 0,
        st_size: 0,
        st_blksize: 0,
        st_blocks: 0,
        st_atim: (0, 0),
        st_mtim: (0, 0),
        st_ctim: (0, 0),
    }
}

fn v4sock(port: u16) -> GenSockaddr {
    GenSockaddr::V4(SockaddrV4 {
        sin_family: 0,
        sin_port: port,
        sin_addr: V4Addr { s_addr: u32::from_be_bytes([127, 0, 0, 1]) },
    })
}

#[test]
fn open_error_cases() {
    let (mut fs, mut cagetable) = lindrustinit();
    let mut cage = cagetable.take_cage(1).unwrap();

    assert_eq!(cage.open_syscall(&mut fs, "", O_RDONLY, 0), -ENOENT);
    assert_eq!(cage.open_syscall(&mut fs, "/missing", O_RDONLY, 0), -ENOENT);
    assert_eq!(
        cage.open_syscall(&mut fs, "/nodir/file", O_CREAT | O_RDWR, S_IRWXA),
        -ENOENT
    );
    assert_eq!(
        cage.open_syscall(&mut fs, "/f1", O_CREAT | (S_IFCHR as i32), S_IRWXA),
        -EINVAL
    );
    assert_eq!(cage.open_syscall(&mut fs, "/f2", O_CREAT, 0xffff_ffff), -EPERM);

    let fd = cage.open_syscall(&mut fs, "/f3", O_CREAT | O_RDWR, S_IRWXA);
    assert!(fd >= 0);
    assert_eq!(
        cage.open_syscall(&mut fs, "/f3", O_CREAT | O_EXCL | O_RDWR, S_IRWXA),
        -EEXIST
    );
    assert_eq!(cage.open_syscall(&mut fs, "/dev", O_TRUNC | O_RDWR, S_IRWXA), -EINVAL);

    assert_eq!(cage.exit_syscall(&mut fs), 0);
    lindrustfinalize(fs, cagetable);
}

#[test]
fn access_mode_bits() {
    let (mut fs, mut cagetable) = lindrustinit();
    let mut cage = cagetable.take_cage(1).unwrap();

    let fd = cage.open_syscall(&mut fs, "/readonlyfile", O_CREAT | O_RDWR, S_IRUSR);
    assert!(fd >= 0);
    assert_eq!(cage.access_syscall(&fs, "/readonlyfile", F_OK), 0);
    assert_eq!(cage.access_syscall(&fs, "/readonlyfile", R_OK), 0);
    assert_eq!(cage.access_syscall(&fs, "/readonlyfile", W_OK), -EACCES);
    assert_eq!(cage.access_syscall(&fs, "/absent", R_OK), -ENOENT);

    assert_eq!(cage.exit_syscall(&mut fs), 0);
    lindrustfinalize(fs, cagetable);
}

#[test]
fn rdwr_permission_checks() {
    let (mut fs, mut cagetable) = lindrustinit();
    let mut cage = cagetable.take_cage(1).unwrap();

    let wfd = cage.open_syscall(&mut fs, "/wonly", O_CREAT | O_WRONLY, S_IRWXA);
    assert!(wfd >= 0);
    let mut buf = vec![0u8; 4];
    assert_eq!(cage.read_syscall(&mut fs, wfd, &mut buf, 4), -EBADF);

    let rfd = cage.open_syscall(&mut fs, "/wonly", O_RDONLY, S_IRWXA);
    assert!(rfd >= 0);
    assert_eq!(cage.write_syscall(&mut fs, rfd, &vec![1u8, 2u8], 2), -EBADF);

    assert_eq!(cage.read_syscall(&mut fs, 99, &mut buf, 4), -EBADF);
    assert_eq!(cage.write_syscall(&mut fs, 99, &buf, 4), -EBADF);
    assert_eq!(cage.close_syscall(&mut fs, 99), -EBADF);
    assert_eq!(cage.lseek_syscall(&mut fs, 99, 0, SEEK_SET), -EBADF);
    assert_eq!(cage.dup_syscall(&mut fs, 99, None), -EBADF);

    let dirfd = cage.open_syscall(&mut fs, "/dev", O_RDWR, S_IRWXA);
    assert!(dirfd >= 0);
    assert_eq!(cage.read_syscall(&mut fs, dirfd, &mut buf, 4), -EISDIR);
    assert_eq!(cage.write_syscall(&mut fs, dirfd, &buf, 4), -EISDIR);

    assert_eq!(cage.lseek_syscall(&mut fs, wfd, 0, 77), -EINVAL);
    assert_eq!(cage.lseek_syscall(&mut fs, wfd, -5, SEEK_SET), -EINVAL);

    assert_eq!(cage.exit_syscall(&mut fs), 0);
    lindrustfinalize(fs, cagetable);
}

#[test]
fn excl_create_two_cages() {
    let (mut fs, mut cagetable) = lindrustinit();
    let mut cage1 = cagetable.take_cage(1).unwrap();
    let mut cage2 = new_cage(&mut fs, 2, 1);

    let r1 = cage1.open_syscall(&mut fs, "/race", O_CREAT | O_EXCL | O_RDWR, S_IRWXA);
    let r2 = cage2.open_syscall(&mut fs, "/race", O_CREAT | O_EXCL | O_RDWR, S_IRWXA);
    assert!(r1 >= 0);
    assert_eq!(r2, -EEXIST);

    assert_eq!(cage2.exit_syscall(&mut fs), 0);
    assert_eq!(cage1.exit_syscall(&mut fs), 0);
    lindrustfinalize(fs, cagetable);
}

#[test]
fn pwrite_gap_zero_fill() {
    let (mut fs, mut cagetable) = lindrustinit();
    let mut cage = cagetable.take_cage(1).unwrap();

    let fd = cage.open_syscall(&mut fs, "/gap", O_CREAT | O_RDWR, S_IRWXA);
    assert!(fd >= 0);
    assert_eq!(cage.pwrite_syscall(&mut fs, fd, &b"xyz".to_vec(), 3, 5), 3);

    let mut statdata = zeroed_stat();
    assert_eq!(cage.stat_syscall(&fs, "/gap", &mut statdata), 0);
    assert_eq!(statdata.st_size, 8);

    let mut buf = vec![9u8; 8];
    assert_eq!(cage.pread_syscall(&mut fs, fd, &mut buf, 8, 0), 8);
    assert_eq!(buf, vec![0, 0, 0, 0, 0, 120, 121, 122]);

    assert_eq!(cage.exit_syscall(&mut fs), 0);
    lindrustfinalize(fs, cagetable);
}

#[test]
fn seek_positions_and_eof() {
    let (mut fs, mut cagetable) = lindrustinit();
    let mut cage = cagetable.take_cage(1).unwrap();

    let fd = cage.open_syscall(&mut fs, "/seek", O_CREAT | O_RDWR, S_IRWXA);
    assert_eq!(cage.write_syscall(&mut fs, fd, &b"abcdef".to_vec(), 6), 6);
    assert_eq!(cage.lseek_syscall(&mut fs, fd, -2, SEEK_END), 4);
    let mut buf = vec![0u8; 4];
    assert_eq!(cage.read_syscall(&mut fs, fd, &mut buf, 4), 2);
    assert_eq!(&buf[..2], b"ef");
    assert_eq!(cage.read_syscall(&mut fs, fd, &mut buf, 4), 0);
    assert_eq!(cage.lseek_syscall(&mut fs, fd, 0, SEEK_CUR), 6);

    let fd2 = cage.open_syscall(&mut fs, "/seek", O_RDONLY | O_APPEND, S_IRWXA);
    assert_eq!(cage.lseek_syscall(&mut fs, fd2, 0, SEEK_CUR), 6);

    assert_eq!(cage.exit_syscall(&mut fs), 0);
    lindrustfinalize(fs, cagetable);
}

#[test]
fn truncate_on_open() {
    let (mut fs, mut cagetable) = lindrustinit();
    let mut cage = cagetable.take_cage(1).unwrap();

    let fd = cage.open_syscall(&mut fs, "/shrink", O_CREAT | O_RDWR, S_IRWXA);
    assert_eq!(cage.write_syscall(&mut fs, fd, &b"longcontent".to_vec(), 11), 11);
    assert_eq!(cage.close_syscall(&mut fs, fd), 0);

    let fd2 = cage.open_syscall(&mut fs, "/shrink", O_TRUNC | O_RDWR, S_IRWXA);
    assert!(fd2 >= 0);
    let mut statdata = zeroed_stat();
    assert_eq!(cage.stat_syscall(&fs, "/shrink", &mut statdata), 0);
    assert_eq!(statdata.st_size, 0);
    let mut buf = vec![0u8; 4];
    assert_eq!(cage.read_syscall(&mut fs, fd2, &mut buf, 4), 0);

    assert_eq!(cage.exit_syscall(&mut fs), 0);
    lindrustfinalize(fs, cagetable);
}

#[test]
fn stat_chardev_and_fstat() {
    let (mut fs, mut cagetable) = lindrustinit();
    let mut cage = cagetable.take_cage(1).unwrap();

    let mut statdata = zeroed_stat();
    assert_eq!(cage.stat_syscall(&fs, "/dev/zero", &mut statdata), 0);
    assert_eq!(statdata.st_dev, 5);
    assert_eq!(statdata.st_rdev, (1u64 << 8) | 5u64);
    assert_eq!(statdata.st_mode, S_IFCHR | 0o666);

    assert_eq!(cage.stat_syscall(&fs, "/dev/../dev/null", &mut statdata), 0);
    assert_eq!(statdata.st_rdev, (1u64 << 8) | 3u64);

    assert_eq!(cage.stat_syscall(&fs, "/nothing", &mut statdata), -ENOENT);

    let fd = cage.open_syscall(&mut fs, "/statme", O_CREAT | O_RDWR, S_IRWXA);
    assert_eq!(cage.write_syscall(&mut fs, fd, &b"12345".to_vec(), 5), 5);
    let mut fstatdata = zeroed_stat();
    assert_eq!(cage.fstat_syscall(&fs, fd, &mut fstatdata), 0);
    assert_eq!(fstatdata.st_size, 5);
    assert_eq!(fstatdata.st_nlink, 1);

    let mut sdata = zeroed_stat();
    assert_eq!(cage.fstat_syscall(&fs, 1, &mut sdata), 0);
    assert_eq!(sdata.st_ino, 2);
    assert_eq!(sdata.st_mode, 49590);

    let sockfd = cage.socket_syscall(&mut fs, AF_INET, SOCK_STREAM, 0);
    assert_eq!(cage.fstat_syscall(&fs, sockfd, &mut sdata), -EOPNOTSUPP);
    assert_eq!(cage.fstat_syscall(&fs, 99, &mut sdata), -EBADF);

    assert_eq!(cage.exit_syscall(&mut fs), 0);
    lindrustfinalize(fs, cagetable);
}

#[test]
fn chdir_and_normalization() {
    let (mut fs, mut cagetable) = lindrustinit();
    let mut cage = cagetable.take_cage(1).unwrap();

    assert_eq!(cage.chdir_syscall(&fs, "/dev"), 0);
    let mut statdata = zeroed_stat();
    assert_eq!(cage.stat_syscall(&fs, "zero", &mut statdata), 0);
    assert_eq!(cage.stat_syscall(&fs, "./null", &mut statdata), 0);
    assert_eq!(cage.stat_syscall(&fs, "../dev/random", &mut statdata), 0);
    assert_eq!(cage.chdir_syscall(&fs, ".."), 0);
    assert_eq!(cage.stat_syscall(&fs, "dev/urandom", &mut statdata), 0);

    assert_eq!(cage.chdir_syscall(&fs, "/dev/null"), -ENOTDIR);
    assert_eq!(cage.chdir_syscall(&fs, "/gone"), -ENOENT);

    assert_eq!(cage.exit_syscall(&mut fs), 0);
    lindrustfinalize(fs, cagetable);
}

#[test]
fn unlink_name_removal() {
    let (mut fs, mut cagetable) = lindrustinit();
    let mut cage = cagetable.take_cage(1).unwrap();

    assert_eq!(cage.unlink_syscall(&mut fs, "/testfile"), -ENOENT);

    let fd = cage.open_syscall(&mut fs, "/testfile", O_CREAT | O_RDWR, S_IRWXA);
    assert!(fd >= 0);
    assert_eq!(cage.unlink_syscall(&mut fs, "/testfile"), -EOPNOTSUPP);
    assert_eq!(cage.close_syscall(&mut fs, fd), 0);
    assert_eq!(cage.unlink_syscall(&mut fs, "/testfile"), 0);

    let mut statdata = zeroed_stat();
    assert_eq!(cage.stat_syscall(&fs, "/testfile", &mut statdata), -ENOENT);
    assert_eq!(cage.unlink_syscall(&mut fs, "/dev"), -EISDIR);

    assert_eq!(cage.exit_syscall(&mut fs), 0);
    lindrustfinalize(fs, cagetable);
}

#[test]
fn dup2_binding() {
    let (mut fs, mut cagetable) = lindrustinit();
    let mut cage = cagetable.take_cage(1).unwrap();

    let fd = cage.open_syscall(&mut fs, "/dup2file", O_TRUNC | O_CREAT | O_RDWR, S_IRWXA);
    assert_eq!(cage.write_syscall(&mut fs, fd, &b"12".to_vec(), 2), 2);

    let fd2 = cage.dup2_syscall(&mut fs, fd, fd + 1);
    assert_eq!(fd2, fd + 1);
    assert_eq!(cage.dup2_syscall(&mut fs, fd, fd), fd);

    assert_eq!(
        cage.lseek_syscall(&mut fs, fd, 0, SEEK_CUR),
        cage.lseek_syscall(&mut fs, fd2, 0, SEEK_CUR)
    );
    assert_eq!(cage.write_syscall(&mut fs, fd2, &b"34".to_vec(), 2), 2);
    assert_eq!(cage.lseek_syscall(&mut fs, fd, 0, SEEK_CUR), 4);

    assert_eq!(cage.lseek_syscall(&mut fs, fd2, 0, SEEK_SET), 0);
    let mut buf = vec![0u8; 4];
    assert_eq!(cage.read_syscall(&mut fs, fd, &mut buf, 4), 4);
    assert_eq!(&buf, b"1234");

    assert_eq!(cage.dup2_syscall(&mut fs, 99, 5), -EBADF);
    assert_eq!(cage.dup2_syscall(&mut fs, fd, -1), -EBADF);

    assert_eq!(cage.exit_syscall(&mut fs), 0);
    lindrustfinalize(fs, cagetable);
}

#[test]
fn stdout_write_and_stream() {
    let (mut fs, mut cagetable) = lindrustinit();
    let mut cage = cagetable.take_cage(1).unwrap();

    assert_eq!(cage.write_syscall(&mut fs, 1, &b"hello log".to_vec(), 9), 9);
    assert_eq!(cage.write_syscall(&mut fs, 2, &b"oops".to_vec(), 4), 4);
    assert_eq!(fs.logsink, b"hello logoops".to_vec());
    assert_eq!(cage.write_syscall(&mut fs, 0, &b"x".to_vec(), 1), 0);
    let mut buf = vec![0u8; 4];
    assert_eq!(cage.read_syscall(&mut fs, 0, &mut buf, 4), -EOPNOTSUPP);

    assert_eq!(cage.exit_syscall(&mut fs), 0);
    lindrustfinalize(fs, cagetable);
}

#[test]
fn socket_state_machine() {
    let (mut fs, mut cagetable) = lindrustinit();
    let mut cage = cagetable.take_cage(1).unwrap();

    let tcp = cage.socket_syscall(&mut fs, AF_INET, SOCK_STREAM, 0);
    let mut ret = GenSockaddr::V4(SockaddrV4::default());

    assert_eq!(cage.getpeername_syscall(&fs, tcp, &mut ret), -ENOTCONN);
    assert_eq!(cage.listen_syscall(&mut fs, tcp, 1), -EINVAL);

    let peer = v4sock(50200);
    assert_eq!(cage.connect_syscall(&mut fs, tcp, &peer), 0);
    assert_eq!(cage.connect_syscall(&mut fs, tcp, &peer), -safeposix::fs_constants::EISCONN);

    let udp = cage.socket_syscall(&mut fs, AF_INET, SOCK_DGRAM, 0);
    assert_eq!(cage.connect_syscall(&mut fs, udp, &v4sock(50201)), 0);
    assert_eq!(cage.connect_syscall(&mut fs, udp, &v4sock(50202)), 0);

    let fd = cage.open_syscall(&mut fs, "/notasock", O_CREAT | O_RDWR, S_IRWXA);
    assert_eq!(cage.bind_syscall(&mut fs, fd, &peer, 4096), -ENOTSOCK);
    assert_eq!(cage.bind_syscall(&mut fs, 99, &peer, 4096), -EBADF);

    assert_eq!(cage.exit_syscall(&mut fs), 0);
    lindrustfinalize(fs, cagetable);
}

#[test]
fn sockaddr_accessors() {
    let mut a = v4sock(50300);
    assert_eq!(a.port(), 50300);
    a.set_port(50301);
    assert_eq!(a.port(), 50301);
    assert_eq!(a.addr(), GenIpaddr::V4(V4Addr { s_addr: u32::from_be_bytes([127, 0, 0, 1]) }));
    a.set_addr(GenIpaddr::V4(V4Addr { s_addr: 0 }));
    assert!(a.addr().is_unspecified());

    let mut b = GenSockaddr::V6(SockaddrV6 {
        sin6_family: 10,
        sin6_port: 7,
        sin6_flowinfo: 0,
        sin6_addr: V6Addr { s6_addr: [0; 16] },
        sin6_scope_id: 0,
    });
    assert_eq!(b.port(), 7);
    assert!(b.addr().is_unspecified());
    let mut sixteen = [0u8; 16];
    sixteen[15] = 1;
    b.set_addr(GenIpaddr::V6(V6Addr { s6_addr: sixteen }));
    assert!(!b.addr().is_unspecified());
    b.set_port(80);
    assert_eq!(b.port(), 80);
}

#[test]
fn advisory_lock_counter() {
    let mut l = AdvisoryLock::new();
    assert!(l.try_lock_sh());
    assert!(l.try_lock_sh());
    assert!(!l.try_lock_ex());
    assert!(l.unlock());
    assert!(l.unlock());
    assert!(!l.unlock());
    assert!(l.try_lock_ex());
    assert!(!l.try_lock_sh());
    assert!(l.unlock());
    l.lock_sh();
    l.lock_sh();
    assert!(l.unlock());
    assert!(l.unlock());
    l.lock_ex();
    assert!(l.unlock());
}

#[test]
fn misc_helpers() {
    let mut buf = vec![7u8; 6];
    assert_eq!(fillzero(&mut buf, 4), 4);
    assert_eq!(buf, vec![0, 0, 0, 0, 7, 7]);

    assert!(bytes_eq(&vec![1, 2, 3], &vec![1, 2, 3]));
    assert!(!bytes_eq(&vec![1, 2, 3], &vec![1, 2, 4]));
    assert!(!bytes_eq(&vec![1, 2], &vec![1, 2, 3]));

    let mut m = new_hashmap::<u64, u64>();
    m.insert(3, 4);
    assert_eq!(m.get(&3), Some(&4));

    let t = starttimer();
    let d = readtimer(t);
    assert!(d.as_nanos() < u128::MAX);
}

#[test]
fn filename_and_random_helpers() {
    assert!(safeposix::misc::assert_is_allowed_filename(&"linddata37".to_string()));
    assert!(!safeposix::misc::assert_is_allowed_filename(&"".to_string()));
    assert!(!safeposix::misc::assert_is_allowed_filename(&".hidden".to_string()));
    assert!(!safeposix::misc::assert_is_allowed_filename(&"has space".to_string()));
    assert!(!safeposix::misc::assert_is_allowed_filename(&"x".repeat(121)));

    let mut buf = vec![0u8; 16];
    let mut seed: u64 = 0;
    assert_eq!(safeposix::misc::fillrandom(&mut buf, 16, &mut seed), 16);
    assert_ne!(seed, 0);

    let sock = safeposix::comm::Socket { raw_sys_fd: 3 };
    assert_eq!(sock.raw_sys_fd, 3);

    let dev = safeposix::filesystem::DevNo { major: 1, minor: 9 };
    assert_eq!(safeposix::filesystem::makedev(&dev), (1u64 << 8) | 9u64);
}

#[test]
fn cage_table_bookkeeping() {
    let (mut fs, mut cagetable) = lindrustinit();
    let cage = cagetable.take_cage(1).unwrap();
    assert!(cagetable.take_cage(1).is_none());
    assert!(cagetable.take_cage(7).is_none());
    cagetable.insert_cage(cage);
    let mut cage = cagetable.take_cage(1).unwrap();
    assert_eq!(cage.cageid, 1);
    assert_eq!(cage.exit_syscall(&mut fs), 0);
    lindrustfinalize(fs, cagetable);
}
