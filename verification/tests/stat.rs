use touchhle::libc::errno::{EACCES, EEXIST, ENOENT};
use touchhle::libc::posix_io::stat::{
    looks_in_bundle, mkdir_errno, stat, stat_bundle_candidates, MkdirError, OpenFileKind, S_IFCHR,
    S_IFDIR, S_IFREG,
};

#[test]
fn standard_streams_are_character_devices() {
    let s = stat::standard_stream();
    assert_eq!(s.st_mode, S_IFCHR | 0o600);
    assert_eq!(s.st_nlink, 1);
    assert_eq!(s.st_size, 0);
}

#[test]
fn open_files_report_their_kind_and_size() {
    let f = stat::open_file(OpenFileKind::File, Some(1234));
    assert_eq!((f.st_mode, f.st_size), (S_IFREG, 1234));
    let big = stat::open_file(OpenFileKind::File, Some(u64::MAX));
    assert_eq!(big.st_size, i64::MAX);
    let unknown = stat::open_file(OpenFileKind::File, None);
    assert_eq!(unknown.st_size, 0);
    assert_eq!(stat::open_file(OpenFileKind::Directory, Some(5)).st_mode, S_IFDIR);
    assert_eq!(stat::open_file(OpenFileKind::Other, Some(5)).st_mode, 0);
}

#[test]
fn paths_report_mode_size_blocks_and_times() {
    let f = stat::path(false, Some(1025), Some(1_000_000));
    assert_eq!((f.st_mode, f.st_nlink), (S_IFREG | 0o644, 1));
    assert_eq!((f.st_size, f.st_blocks, f.st_blksize), (1025, 3, 4096));
    assert_eq!(f.st_mtimespec.tv_sec, 1_000_000);
    assert_eq!(f.st_atimespec.tv_sec, 1_000_000);
    assert_eq!(f.st_birthtimespec.tv_sec, 0);
    let d = stat::path(true, None, None);
    assert_eq!((d.st_mode, d.st_nlink, d.st_size, d.st_blksize), (S_IFDIR | 0o755, 2, 0, 0));
    assert_eq!(stat::path(false, Some(1024), None).st_blocks, 2);
}

#[test]
fn mkdir_errors() {
    assert_eq!(mkdir_errno(MkdirError::AlreadyExist), EEXIST);
    assert_eq!(mkdir_errno(MkdirError::NonexistentParentDir), ENOENT);
    assert_eq!(mkdir_errno(MkdirError::ReadonlyParentDir), EACCES);
    assert_eq!(mkdir_errno(MkdirError::Other), ENOENT);
}

#[test]
fn relative_paths_are_looked_for_in_the_bundle() {
    assert!(looks_in_bundle(b"Data/x", false));
    assert!(!looks_in_bundle(b"/var/x", false));
    assert!(!looks_in_bundle(b"x", true));
    assert_eq!(
        stat_bundle_candidates(b"Data/Data/level1", b"/app/Game.app//"),
        vec![b"/app/Game.app/Data/level1".to_vec()]
    );
    assert_eq!(
        stat_bundle_candidates(b"data.unity3d", b"/b"),
        vec![
            b"/b/Data/data.unity3d".to_vec(),
            b"/b/Data/globalgamemanagers".to_vec(),
            b"/b/Data/level0".to_vec()
        ]
    );
}
