use file_suite::case_fold_fs::attr::{attr_of, StatFields};
use file_suite::case_fold_fs::error::Error;
use file_suite::case_fold_fs::file_type::{FileKind, FileType, FuserKind};
use file_suite::case_fold_fs::fold::case_fold;
use file_suite::case_fold_fs::ops::{
    child_path, dot_name, free_inodes, lookup_name, mknod_check, node_perm, populate_entry,
    removed_name, fresh_removed_name, removes_dir, reported_kind, rmdir_check, rmdir_empty_check,
    should_populate, statfs_sizes, unlink_check,
};

#[test]
fn file_type_constructors() {
    assert_eq!(FileType::regular_file().inner, FileKind::RegularFile);
    assert_eq!(FileType::directory().inner, FileKind::Directory);
    assert_eq!(FileType::symlink().inner, FileKind::Symlink);
    assert_eq!(FileType::fifo().inner, FileKind::Fifo);
    assert_eq!(FileType::socket().inner, FileKind::Socket);
    assert_eq!(FileType::character_device().inner, FileKind::CharacterDevice);
    assert_eq!(FileType::block_device().inner, FileKind::BlockDevice);
    assert!(FileType::directory().is_dir());
    assert!(!FileType::regular_file().is_dir());
}

#[test]
fn file_type_raw_modes() {
    assert_eq!(FileType::from_raw_mode(0o100644).inner, FileKind::RegularFile);
    assert_eq!(FileType::from_raw_mode(0o040755).inner, FileKind::Directory);
    assert_eq!(FileType::from_raw_mode(0o120777).inner, FileKind::Symlink);
    assert_eq!(FileType::directory().as_raw_mode(), 0o040000);
    assert_eq!(FileType::regular_file().as_raw_mode(), 0o100000);
    for ty in [
        FileType::regular_file(),
        FileType::directory(),
        FileType::symlink(),
        FileType::fifo(),
        FileType::socket(),
        FileType::character_device(),
        FileType::block_device(),
    ] {
        assert_eq!(FileType::from_raw_mode(ty.as_raw_mode()), ty);
    }
}

#[test]
fn file_type_sql_roundtrip() {
    for ty in [
        FileType::regular_file(),
        FileType::directory(),
        FileType::symlink(),
        FileType::fifo(),
        FileType::socket(),
        FileType::character_device(),
        FileType::block_device(),
    ] {
        assert_eq!(FileType::column_result(ty.to_sql()).unwrap(), ty);
    }
    assert_eq!(FileType::directory().to_sql(), 0o040000);
    assert_eq!(FileType::column_result(-1).unwrap_err(), -1);
}

#[test]
fn file_type_fuser() {
    assert_eq!(FileType::directory().to_fuser(), Some(FuserKind::Directory));
    assert_eq!(FileType::fifo().to_fuser(), Some(FuserKind::NamedPipe));
    assert_eq!(FileType::from_fuser(FuserKind::CharDevice).inner, FileKind::CharacterDevice);
    assert_eq!(FileType::from_raw_mode(0).to_fuser(), None);
    assert_eq!(reported_kind(FileType::from_raw_mode(0)), FuserKind::RegularFile);
    assert_eq!(reported_kind(FileType::symlink()), FuserKind::Symlink);
}

#[test]
fn error_raw_numbers() {
    assert_eq!(Error::from_raw(2).into_raw(), 2);
    assert_eq!(Error::Errno(13).into_raw(), 13);
    assert_eq!(Error::Sqlite(String::from("locked")).into_raw(), 5);
    assert!(matches!(Error::eio(), Error::Raw(5)));
    assert!(Error::from_raw(1).is_raw());
    assert!(!Error::Errno(1).is_raw());
}

#[test]
fn error_inspect_not_raw() {
    let mut seen = Vec::new();
    let e = Error::Errno(4).inspect_not_raw(|e| seen.push(format!("{e:?}")));
    assert!(matches!(e, Error::Errno(4)));
    let e = Error::Raw(4).inspect_not_raw(|e| seen.push(format!("{e:?}")));
    assert!(matches!(e, Error::Raw(4)));
    assert_eq!(seen, vec![String::from("Errno(4)")]);
}

#[test]
fn case_fold_names() {
    assert_eq!(case_fold(b"Hello.txt"), b"HELLO.TXT".to_vec());
    assert_eq!(case_fold("straße".as_bytes()), "STRASSE".as_bytes().to_vec());
    assert_eq!(case_fold(b"a\xffb"), b"A\xffB".to_vec());
    assert_eq!(case_fold(b""), Vec::<u8>::new());
}

#[test]
fn names_and_paths() {
    assert!(dot_name(b"."));
    assert!(dot_name(b".."));
    assert!(!dot_name(b"..."));
    assert_eq!(lookup_name(b"a.TXT").unwrap(), b"A.TXT".to_vec());
    assert_eq!(lookup_name(b".").unwrap_err(), 2);
    assert_eq!(child_path(b"dir", b"file"), b"dir/file".to_vec());
    assert_eq!(child_path(b"", b"file"), b"file".to_vec());
    assert_eq!(populate_entry(b"d", b".."), None);
    assert_eq!(
        populate_entry(b"d", b"x"),
        Some((b"d/x".to_vec(), b"X".to_vec())),
    );
}

#[test]
fn removed_names() {
    assert_eq!(removed_name(255, 16), b".rm_FF_10".to_vec());
    assert_eq!(removed_name(0, 0), b".rm_0_0".to_vec());
    assert!(fresh_removed_name(26).starts_with(b".rm_1A_"));
}

#[test]
fn operation_checks() {
    assert_eq!(unlink_check(FileType::directory()), Err(21));
    assert_eq!(unlink_check(FileType::regular_file()), Ok(()));
    assert_eq!(rmdir_check(FileType::regular_file()), Err(20));
    assert_eq!(rmdir_check(FileType::directory()), Ok(()));
    assert_eq!(rmdir_empty_check(false), Err(39));
    assert_eq!(rmdir_empty_check(true), Ok(()));
    assert_eq!(mknod_check(true), Err(17));
    assert_eq!(mknod_check(false), Ok(()));
    assert!(should_populate(0, false));
    assert!(!should_populate(0, true));
    assert!(!should_populate(3, false));
    assert!(removes_dir(FileType::directory()));
    assert!(!removes_dir(FileType::symlink()));
}

#[test]
fn statfs_and_perm() {
    assert_eq!(free_inodes(10), u64::MAX - 10);
    assert_eq!(node_perm(0o100755, 0o022), 0o755);
    assert_eq!(node_perm(0o777, 0o027), 0o750);
    assert_eq!(node_perm(0o4755, 0), 0o4755);
}

fn stat() -> StatFields {
    StatFields {
        size: 10,
        blocks: 1,
        atime: 100,
        mtime: 200,
        ctime: 300,
        mode: 0o100644,
        nlink: 1,
        uid: 1000,
        gid: 1000,
        rdev_major: 0,
        rdev_minor: 0,
        blksize: 4096,
    }
}

#[test]
fn attributes_of_a_file() {
    let a = attr_of(7, stat()).unwrap();
    assert_eq!(a.ino, 7);
    assert_eq!(a.size, 10);
    assert_eq!(a.atime, 100);
    assert_eq!(a.ctime, 300);
    assert_eq!(a.kind, FuserKind::RegularFile);
    assert_eq!(a.perm, 0o644);
    assert_eq!(a.rdev, 0);
    let dev = attr_of(8, StatFields { rdev_major: 8, rdev_minor: 1, mode: 0o060660, ..stat() }).unwrap();
    assert_eq!(dev.rdev, rustix::fs::makedev(8, 1) as u32);
    assert_eq!(dev.kind, FuserKind::BlockDevice);
}

#[test]
fn attributes_out_of_range() {
    assert_eq!(attr_of(1, StatFields { mtime: -1, ..stat() }), Err(5));
    assert_eq!(attr_of(1, StatFields { rdev_major: 0x1000, ..stat() }), Err(5));
    assert_eq!(attr_of(1, StatFields { mode: 0x1_0000 | 0o644, ..stat() }), Err(5));
    assert_eq!(attr_of(1, StatFields { mode: 0o106755, ..stat() }).map(|a| a.perm), Ok(0o6755));
}

#[test]
fn statfs_sizes_fit() {
    let s = statfs_sizes(3, 4096, 255, 4096).unwrap();
    assert_eq!(s.ffree, u64::MAX - 3);
    assert_eq!((s.bsize, s.namelen, s.frsize), (4096, 255, 4096));
    assert_eq!(statfs_sizes(3, -1, 255, 4096), Err(5));
    assert_eq!(statfs_sizes(3, 4096, 1 << 40, 4096), Err(5));
}
