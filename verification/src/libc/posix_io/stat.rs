//! POSIX `sys/stat.h`: the `stat` record that `stat`, `lstat` and `fstat`
//! fill, the errors of `mkdir`, and where a relative path that does not
//! exist is looked for in the app bundle.
use crate::libc::errno::{EACCES, EEXIST, ENOENT};
use crate::text::begins_with;
use vstd::prelude::*;
use vstd::string::StringSliceAdditionalSpecFns;

verus! {

#[allow(non_camel_case_types)]
pub type dev_t = u32;

#[allow(non_camel_case_types)]
pub type mode_t = u16;

#[allow(non_camel_case_types)]
pub type nlink_t = u16;

#[allow(non_camel_case_types)]
pub type ino_t = u64;

#[allow(non_camel_case_types)]
pub type uid_t = u32;

#[allow(non_camel_case_types)]
pub type gid_t = u32;

#[allow(non_camel_case_types)]
pub type blkcnt_t = u64;

#[allow(non_camel_case_types)]
pub type blksize_t = u32;

#[allow(non_camel_case_types)]
pub type off_t = i64;

pub const S_IFIFO: mode_t = 0o0010000;

pub const S_IFCHR: mode_t = 0o0020000;

pub const S_IFDIR: mode_t = 0o0040000;

pub const S_IFREG: mode_t = 0o0100000;

/// `struct timespec` of the 32-bit ABI.
#[allow(non_camel_case_types)]
#[derive(Clone, Copy, Debug, PartialEq, Eq)]
pub struct timespec {
    pub tv_sec: i32,
    pub tv_nsec: i32,
}

/// `struct stat` of the 32-bit ABI.
#[allow(non_camel_case_types)]
#[derive(Clone, Copy, Debug)]
pub struct stat {
    pub st_dev: dev_t,
    pub st_mode: mode_t,
    pub st_nlink: nlink_t,
    pub st_ino: ino_t,
    pub st_uid: uid_t,
    pub st_gid: gid_t,
    pub st_rdev: dev_t,
    pub st_atimespec: timespec,
    pub st_mtimespec: timespec,
    pub st_ctimespec: timespec,
    pub st_birthtimespec: timespec,
    pub st_size: off_t,
    pub st_blocks: blkcnt_t,
    pub st_blksize: blksize_t,
    pub st_flags: u32,
    pub st_gen: u32,
    pub st_lspare: i32,
    pub st_qspare: [i64; 2],
}

/// The zero time.
pub open spec fn no_time() -> timespec {
    timespec { tv_sec: 0, tv_nsec: 0 }
}

/// Whether every field of `s` is zero but the mode, link count, size,
/// block count, block size and the access, modification and change times,
/// which are as given.
pub open spec fn stat_is(
    s: stat,
    mode: mode_t,
    nlink: nlink_t,
    size: off_t,
    blocks: blkcnt_t,
    blksize: blksize_t,
    time: timespec,
) -> bool {
    &&& s.st_dev == 0 && s.st_ino == 0 && s.st_uid == 0 && s.st_gid == 0 && s.st_rdev == 0
    &&& s.st_flags == 0 && s.st_gen == 0 && s.st_lspare == 0
    &&& s.st_qspare@ == seq![0i64, 0i64]
    &&& s.st_birthtimespec == no_time()
    &&& s.st_mode == mode && s.st_nlink == nlink
    &&& s.st_size == size && s.st_blocks == blocks && s.st_blksize == blksize
    &&& s.st_atimespec == time && s.st_mtimespec == time && s.st_ctimespec == time
}

/// What an open file descriptor refers to.
#[derive(Clone, Copy, Debug, PartialEq, Eq)]
pub enum OpenFileKind {
    /// A regular file, in the file system, the app bundle or the resources.
    File,
    Directory,
    /// A socket, a pipe or anything else.
    Other,
}

/// The size a file of `length` bytes reports: its length, as far as
/// `off_t` goes; zero where the length is not known.
pub open spec fn reported_size(length: Option<u64>) -> off_t {
    match length {
        Some(len) => if len > i64::MAX as u64 {
            i64::MAX
        } else {
            len as i64
        },
        None => 0,
    }
}

impl stat {
    /// A record of zeros.
    pub fn zeroed() -> (r: Self)
        ensures
            stat_is(r, 0, 0, 0, 0, 0, no_time()),
    {
        let r = stat {
            st_dev: 0,
            st_mode: 0,
            st_nlink: 0,
            st_ino: 0,
            st_uid: 0,
            st_gid: 0,
            st_rdev: 0,
            st_atimespec: timespec { tv_sec: 0, tv_nsec: 0 },
            st_mtimespec: timespec { tv_sec: 0, tv_nsec: 0 },
            st_ctimespec: timespec { tv_sec: 0, tv_nsec: 0 },
            st_birthtimespec: timespec { tv_sec: 0, tv_nsec: 0 },
            st_size: 0,
            st_blocks: 0,
            st_blksize: 0,
            st_flags: 0,
            st_gen: 0,
            st_lspare: 0,
            st_qspare: [0, 0],
        };
        assert(r.st_qspare@ =~= seq![0i64, 0i64]);
        r
    }

    /// `fstat` of standard input, output or error: a character device
    /// readable and writable by its owner, as iOS reports them.
    pub fn standard_stream() -> (r: Self)
        ensures
            stat_is(r, S_IFCHR | 0o600, 1, 0, 0, 0, no_time()),
    {
        let mut s = Self::zeroed();
        s.st_mode = S_IFCHR | 0o600;
        s.st_nlink = 1;
        s
    }

    /// `fstat` of another open descriptor: a regular file with its length,
    /// a directory, or, for anything else, zeros.
    pub fn open_file(kind: OpenFileKind, length: Option<u64>) -> (r: Self)
        ensures
            match kind {
                OpenFileKind::File => stat_is(r, S_IFREG, 0, reported_size(length), 0, 0, no_time()),
                OpenFileKind::Directory => stat_is(r, S_IFDIR, 0, 0, 0, 0, no_time()),
                OpenFileKind::Other => stat_is(r, 0, 0, 0, 0, 0, no_time()),
            },
    {
        let mut s = Self::zeroed();
        match kind {
            OpenFileKind::File => {
                s.st_mode = S_IFREG;
                s.st_size = match length {
                    Some(len) => if len > i64::MAX as u64 {
                        i64::MAX
                    } else {
                        len as i64
                    },
                    None => 0,
                };
            },
            OpenFileKind::Directory => {
                s.st_mode = S_IFDIR;
            },
            OpenFileKind::Other => {},
        }
        s
    }

    /// `stat` of an existing path: a directory (mode 0755, two links) or a
    /// regular file (mode 0644, one link); where its size is known, the
    /// size, 4096-byte blocks and the count of 512-byte blocks; where its
    /// modification time is known, that time (cut to 32 bits) as the
    /// access, modification and change times.
    pub fn path(is_dir: bool, size: Option<u64>, mtime: Option<u64>) -> (r: Self)
        ensures
            stat_is(
                r,
                if is_dir {
                    (S_IFDIR | 0o755) as mode_t
                } else {
                    (S_IFREG | 0o644) as mode_t
                },
                if is_dir {
                    2
                } else {
                    1
                },
                match size {
                    Some(n) => n as i64,
                    None => 0,
                },
                match size {
                    Some(n) => (n / 512 + if n % 512 == 0 {
                        0int
                    } else {
                        1int
                    }) as u64,
                    None => 0,
                },
                match size {
                    Some(_) => 4096,
                    None => 0,
                },
                match mtime {
                    Some(t) => timespec { tv_sec: t as i32, tv_nsec: 0 },
                    None => no_time(),
                },
            ),
    {
        let mut st = Self::zeroed();
        if is_dir {
            st.st_mode = S_IFDIR | 0o755;
            st.st_nlink = 2;
        } else {
            st.st_mode = S_IFREG | 0o644;
            st.st_nlink = 1;
        }
        if let Some(n) = size {
            st.st_size = n as i64;
            st.st_blksize = 4096;
            st.st_blocks = n / 512 + if n % 512 == 0 {
                0
            } else {
                1
            };
        }
        if let Some(t) = mtime {
            let sec = t as i32;
            st.st_mtimespec = timespec { tv_sec: sec, tv_nsec: 0 };
            st.st_atimespec = timespec { tv_sec: sec, tv_nsec: 0 };
            st.st_ctimespec = timespec { tv_sec: sec, tv_nsec: 0 };
        }
        st
    }
}

/// Why the file system refused to make a directory.
#[derive(Clone, Copy, Debug, PartialEq, Eq)]
pub enum MkdirError {
    AlreadyExist,
    NonexistentParentDir,
    ReadonlyParentDir,
    Other,
}

/// The `errno` of a failed `mkdir`: `EEXIST` for an existing path,
/// `EACCES` under a read-only directory, `ENOENT` otherwise.
pub fn mkdir_errno(error: MkdirError) -> (r: i32)
    ensures
        r == match error {
            MkdirError::AlreadyExist => EEXIST,
            MkdirError::ReadonlyParentDir => EACCES,
            _ => ENOENT,
        },
{
    match error {
        MkdirError::AlreadyExist => EEXIST,
        MkdirError::NonexistentParentDir => ENOENT,
        MkdirError::ReadonlyParentDir => EACCES,
        MkdirError::Other => ENOENT,
    }
}

/// `s` without its trailing slashes.
pub open spec fn trim_slashes(s: Seq<u8>) -> Seq<u8>
    decreases s.len(),
{
    if s.len() > 0 && s.last() == 47 {
        trim_slashes(s.drop_last())
    } else {
        s
    }
}

/// `s` without a leading `Data/`.
pub open spec fn strip_data(s: Seq<u8>) -> Seq<u8> {
    if begins_with(s, "Data/".spec_bytes()) {
        s.subrange("Data/".spec_bytes().len() as int, s.len() as int)
    } else {
        s
    }
}

/// Where a relative path that does not exist is looked for: under the
/// bundle's `Data` directory (with up to two leading `Data/` taken off the
/// path), and, for Unity's `data.unity3d`, also its `globalgamemanagers`
/// and `level0`, in that order.
pub open spec fn bundle_candidates(path: Seq<u8>, bundle_root: Seq<u8>) -> Seq<Seq<u8>> {
    let root = trim_slashes(bundle_root);
    let relative = strip_data(strip_data(path));
    let data_dir = root + "/Data/".spec_bytes();
    if relative == "data.unity3d".spec_bytes() {
        seq![
            data_dir + relative,
            data_dir + "globalgamemanagers".spec_bytes(),
            data_dir + "level0".spec_bytes(),
        ]
    } else {
        seq![data_dir + relative]
    }
}

/// `s` without its trailing slashes.
fn trimmed(s: &[u8]) -> (r: &[u8])
    ensures
        r@ == trim_slashes(s@),
{
    let mut n = s.len();
    assert(s@.subrange(0, n as int) =~= s@);
    while n > 0 && s[n - 1] == 47
        invariant
            0 <= n <= s@.len(),
            trim_slashes(s@.subrange(0, n as int)) == trim_slashes(s@),
        decreases n,
    {
        assert(s@.subrange(0, n as int).drop_last() =~= s@.subrange(0, n as int - 1));
        n = n - 1;
    }
    assert(trim_slashes(s@.subrange(0, n as int)) == s@.subrange(0, n as int));
    vstd::slice::slice_subrange(s, 0, n)
}

/// `s` without a leading `Data/`.
fn without_data(s: &[u8]) -> (r: &[u8])
    ensures
        r@ == strip_data(s@),
{
    let prefix = "Data/".as_bytes();
    if prefix.len() <= s.len() && crate::text::bytes_equal(
        vstd::slice::slice_subrange(s, 0, prefix.len()),
        prefix,
    ) {
        vstd::slice::slice_subrange(s, prefix.len(), s.len())
    } else {
        s
    }
}

/// `a` followed by `b`.
fn joined(a: &[u8], b: &[u8]) -> (r: Vec<u8>)
    ensures
        r@ == a@ + b@,
{
    let mut v = vstd::slice::slice_to_vec(a);
    let mut i: usize = 0;
    while i < b.len()
        invariant
            0 <= i <= b.len(),
            v@ == a@ + b@.subrange(0, i as int),
        decreases b.len() - i,
    {
        v.push(b[i]);
        assert(v@ =~= a@ + b@.subrange(0, i as int + 1));
        i = i + 1;
    }
    assert(b@.subrange(0, i as int) =~= b@);
    v
}

/// The places in the bundle where `stat` looks for a relative path that
/// does not exist, in order; the first that exists is used, and the path
/// itself where none does.
pub fn stat_bundle_candidates(path: &[u8], bundle_root: &[u8]) -> (r: Vec<Vec<u8>>)
    ensures
        r@.map_values(|v: Vec<u8>| v@) == bundle_candidates(path@, bundle_root@),
{
    let root = trimmed(bundle_root);
    let relative = without_data(without_data(path));
    let data_dir = joined(root, "/Data/".as_bytes());
    let first = joined(data_dir.as_slice(), relative);
    let mut out: Vec<Vec<u8>> = Vec::new();
    out.push(first);
    if crate::text::bytes_equal(relative, "data.unity3d".as_bytes()) {
        out.push(joined(data_dir.as_slice(), "globalgamemanagers".as_bytes()));
        out.push(joined(data_dir.as_slice(), "level0".as_bytes()));
    }
    assert(out@.map_values(|v: Vec<u8>| v@) =~= bundle_candidates(path@, bundle_root@));
    out
}

/// Whether `stat` looks in the bundle for `path`: a relative path that
/// does not exist.
pub fn looks_in_bundle(path: &[u8], exists: bool) -> (r: bool)
    ensures
        r == (!(path@.len() > 0 && path@[0] == 47) && !exists),
{
    !(path.len() > 0 && path[0] == 47) && !exists
}

} // verus!
