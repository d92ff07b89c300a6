use roracache::attr::{can_tell, timestamp, FileKind, Metadata, Timestamp};
use roracache::errno::Errno;

fn plain() -> Metadata {
    Metadata {
        size: 1025,
        atime: 10,
        atime_nsec: 1,
        mtime: 20,
        mtime_nsec: 2,
        ctime: 30,
        ctime_nsec: 3,
        created: None,
        is_symlink: false,
        is_dir: false,
        is_file: true,
        mode: 0o100644,
    }
}

#[test]
fn attributes_are_made_up() {
    let attr = plain().to_attr(5, 1000, 100);
    assert_eq!((attr.ino, attr.size, attr.blocks), (5, 1025, 3));
    assert_eq!(attr.atime, Timestamp { secs: 10, nanos: 1 });
    assert_eq!(attr.mtime, Timestamp { secs: 20, nanos: 2 });
    assert_eq!(attr.ctime, Timestamp { secs: 30, nanos: 3 });
    assert_eq!(attr.crtime, attr.mtime);
    assert_eq!(attr.kind, FileKind::RegularFile);
    assert_eq!(attr.perm, 0o444);
    assert_eq!((attr.nlink, attr.uid, attr.gid, attr.rdev), (1, 1000, 100, 0));
    assert_eq!((attr.blksize, attr.flags), (512, 0));
}

#[test]
fn permissions_are_flattened() {
    for mode in [0o100u32, 0o010, 0o001, 0o755, 0o777, 0o4711] {
        let attr = Metadata { mode, ..plain() }.to_attr(1, 0, 0);
        assert_eq!(attr.perm, 0o555);
    }
    for mode in [0u32, 0o666, 0o600, 0o4644] {
        let attr = Metadata { mode, ..plain() }.to_attr(1, 0, 0);
        assert_eq!(attr.perm, 0o444);
    }
}

#[test]
fn blocks_are_rounded_up() {
    for (size, blocks) in [(0u64, 0u64), (1, 1), (512, 1), (513, 2), (u64::MAX - 511, 36028797018963967)] {
        assert_eq!(Metadata { size, ..plain() }.to_attr(1, 0, 0).blocks, blocks);
    }
    assert!(!Metadata { size: u64::MAX - 510, ..plain() }.can_use());
}

#[test]
fn kinds() {
    let link = Metadata { is_symlink: true, is_file: false, ..plain() };
    let dir = Metadata { is_dir: true, is_file: false, ..plain() };
    assert_eq!(link.to_attr(1, 0, 0).kind, FileKind::Symlink);
    assert_eq!(dir.to_attr(1, 0, 0).kind, FileKind::Directory);
}

#[test]
fn special_files_are_censored() {
    assert!(Metadata { is_file: false, mode: 0o010644, ..plain() }.is_censored());
    assert!(!plain().is_censored());
    assert!(!Metadata { is_dir: true, is_file: false, ..plain() }.is_censored());
    assert!(!Metadata { is_symlink: true, is_file: false, ..plain() }.is_censored());
}

#[test]
fn creation_time_is_passed_on() {
    let created = Timestamp { secs: -5, nanos: 9 };
    let attr = Metadata { created: Some(created), ..plain() }.to_attr(1, 0, 0);
    assert_eq!(attr.crtime, created);
}

#[test]
fn times() {
    assert_eq!(timestamp(1, 2_500_000_000), Timestamp { secs: 3, nanos: 500_000_000 });
    assert!(can_tell(0, 0));
    assert!(!can_tell(-1, 0));
    assert!(can_tell(i64::MAX, 999_999_999));
    assert!(!can_tell(i64::MAX, 1_000_000_000));
    assert!(!Metadata { atime: -1, ..plain() }.can_use());
    assert!(!Metadata { mtime: -1, ..plain() }.can_use());
    assert!(!Metadata { ctime: -1, ..plain() }.can_use());
    assert!(plain().can_use());
}

#[test]
fn refusals_of_the_operating_system() {
    assert_eq!(Errno::from_os(Some(13)), Errno::Os(13));
    assert_eq!(Errno::from_os(None), Errno::Io);
}
