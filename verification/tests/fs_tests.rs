use safeposix::cage::{lindrustinit, lindrustfinalize};
use safeposix::filesystem::StatData;
use safeposix::fs_constants::{
    F_OK, O_CREAT, O_RDWR, O_TRUNC, R_OK, SEEK_END, SEEK_SET, S_IRWXA, X_OK,
};

fn sizecbuf(n: usize) -> Vec<u8> {
    vec![0u8; n]
}

fn str2cbuf(s: &str) -> Vec<u8> {
    s.as_bytes().to_vec()
}

fn cbuf2str(buf: &[u8]) -> String {
    String::from_utf8(buf.to_vec()).unwrap()
}

fn rdwrtest() {
    let (mut fs, mut cagetable) = lindrustinit();
    let mut cage = cagetable.take_cage(1).unwrap();

    let fd = cage.open_syscall(&mut fs, "/foobar", O_CREAT | O_TRUNC | O_RDWR, S_IRWXA);
    assert!(fd >= 0);

    assert_eq!(cage.write_syscall(&mut fs, fd, &str2cbuf("hello there!"), 12), 12);

    assert_eq!(cage.lseek_syscall(&mut fs, fd, 0, SEEK_SET), 0);
    let mut readbuf1 = sizecbuf(5);
    assert_eq!(cage.read_syscall(&mut fs, fd, &mut readbuf1, 5), 5);
    assert_eq!(cbuf2str(&readbuf1), "hello");

    assert_eq!(cage.write_syscall(&mut fs, fd, &str2cbuf(" world"), 6), 6);

    assert_eq!(cage.lseek_syscall(&mut fs, fd, 0, SEEK_SET), 0);
    let mut readbuf2 = sizecbuf(12);
    assert_eq!(cage.read_syscall(&mut fs, fd, &mut readbuf2, 12), 12);
    assert_eq!(cbuf2str(&readbuf2), "hello world!");
    assert_eq!(cage.exit_syscall(&mut fs), 0);

    lindrustfinalize(fs, cagetable);
}

fn prdwrtest() {
    let (mut fs, mut cagetable) = lindrustinit();
    let mut cage = cagetable.take_cage(1).unwrap();

    let fd = cage.open_syscall(&mut fs, "/foobar2", O_CREAT | O_TRUNC | O_RDWR, S_IRWXA);
    assert!(fd >= 0);

    assert_eq!(cage.pwrite_syscall(&mut fs, fd, &str2cbuf("hello there!"), 12, 0), 12);

    let mut readbuf1 = sizecbuf(5);
    assert_eq!(cage.pread_syscall(&mut fs, fd, &mut readbuf1, 5, 0), 5);
    assert_eq!(cbuf2str(&readbuf1), "hello");

    assert_eq!(cage.pwrite_syscall(&mut fs, fd, &str2cbuf(" world"), 6, 5), 6);

    let mut readbuf2 = sizecbuf(12);
    assert_eq!(cage.pread_syscall(&mut fs, fd, &mut readbuf2, 12, 0), 12);
    assert_eq!(cbuf2str(&readbuf2), "hello world!");

    assert_eq!(cage.exit_syscall(&mut fs), 0);
    lindrustfinalize(fs, cagetable);
}

fn chardevtest() {
    let (mut fs, mut cagetable) = lindrustinit();
    let mut cage = cagetable.take_cage(1).unwrap();

    let fd = cage.open_syscall(&mut fs, "/dev/zero", O_RDWR, S_IRWXA);
    assert!(fd >= 0);

    assert_eq!(
        cage.pwrite_syscall(
            &mut fs,
            fd,
            &str2cbuf("Lorem ipsum dolor sit amet, consectetur adipiscing elit"),
            55,
            0
        ),
        55
    );

    let mut readbufzero = sizecbuf(1000);
    assert_eq!(cage.pread_syscall(&mut fs, fd, &mut readbufzero, 1000, 0), 1000);
    assert_eq!(
        cbuf2str(&readbufzero),
        std::iter::repeat("\0").take(1000).collect::<String>().as_str()
    );

    assert_eq!(cage.chdir_syscall(&fs, "dev"), 0);

    let fd2 = cage.open_syscall(&mut fs, "./urandom", O_RDWR, S_IRWXA);
    assert!(fd2 >= 0);
    let mut readbufrand = sizecbuf(1000);
    assert_eq!(cage.read_syscall(&mut fs, fd2, &mut readbufrand, 1000), 1000);
    assert_eq!(cage.exit_syscall(&mut fs), 0);
    lindrustfinalize(fs, cagetable);
}

fn ut_lind_fs_simple() {
    let (mut fs, mut cagetable) = lindrustinit();
    let mut cage = cagetable.take_cage(1).unwrap();

    assert_eq!(cage.access_syscall(&fs, "/", F_OK), 0);
    assert_eq!(cage.access_syscall(&fs, "/", X_OK | R_OK), 0);

    let mut statdata = StatData {
        st_dev: 0,
        st_ino: 0,
        st_mode: 0,
        st_nlink: 0,
        st_uid: 0,
        st_gid: 0,
        st_rdev: 0,
        st_size: 0,
        st_blksize: 0,
        st_blocks: 0,
        st_atim: (0, 0),
        st_mtim: (0, 0),
        st_ctim: (0, 0),
    };

    assert_eq!(cage.stat_syscall(&fs, "/", &mut statdata), 0);
    assert_eq!(statdata.st_nlink, 3);
    assert_eq!(statdata.st_size, 0);

    assert_eq!(cage.exit_syscall(&mut fs), 0);
    lindrustfinalize(fs, cagetable);
}

fn ut_lind_fs_dup() {
    let (mut fs, mut cagetable) = lindrustinit();
    let mut cage = cagetable.take_cage(1).unwrap();

    let flags: i32 = O_TRUNC | O_CREAT | O_RDWR;
    let name = String::from("/dupfile");

    let fd = cage.open_syscall(&mut fs, &name, flags, S_IRWXA);
    let mut temp_buffer = sizecbuf(2);
    assert!(fd >= 0);
    assert_eq!(cage.write_syscall(&mut fs, fd, &str2cbuf("12"), 2), 2);
    assert_eq!(cage.lseek_syscall(&mut fs, fd, 0, SEEK_SET), 0);
    assert_eq!(cage.read_syscall(&mut fs, fd, &mut temp_buffer, 2), 2);
    assert_eq!(cbuf2str(&temp_buffer), "12");

    let fd2 = cage.dup_syscall(&mut fs, fd, None);
    assert!(fd != fd2);

    let fd3 = cage.dup_syscall(&mut fs, fd, None);
    assert!(fd != fd2 && fd != fd3);

    cage.close_syscall(&mut fs, fd3);

    assert_eq!(cage.lseek_syscall(&mut fs, fd, 0, SEEK_END), 2);
    assert_eq!(cage.lseek_syscall(&mut fs, fd2, 0, SEEK_END), 2);

    assert_eq!(cage.write_syscall(&mut fs, fd, &str2cbuf("34"), 2), 2);

    let mut buffer = sizecbuf(4);
    assert_eq!(
        cage.lseek_syscall(&mut fs, fd, 0, SEEK_SET),
        cage.lseek_syscall(&mut fs, fd2, 0, SEEK_SET)
    );
    assert_eq!(cage.read_syscall(&mut fs, fd, &mut buffer, 4), 4);
    assert_eq!(cbuf2str(&buffer), "1234");

    cage.close_syscall(&mut fs, fd);

    assert_eq!(cage.write_syscall(&mut fs, fd2, &str2cbuf("5678"), 4), 4);
    cage.lseek_syscall(&mut fs, fd2, 0, 1);

    assert_eq!(cage.lseek_syscall(&mut fs, fd2, 0, SEEK_SET), 0);
    let mut buffer2 = sizecbuf(8);
    assert_eq!(cage.read_syscall(&mut fs, fd2, &mut buffer2, 8), 8);
    cage.close_syscall(&mut fs, fd2);
    assert_eq!(cbuf2str(&buffer2), "12345678");

    assert_eq!(cage.exit_syscall(&mut fs), 0);
    lindrustfinalize(fs, cagetable);
}

#[test]
pub fn test_fs() {
    ut_lind_fs_simple();
    ut_lind_fs_dup();
    rdwrtest();
    prdwrtest();
    chardevtest();
}
