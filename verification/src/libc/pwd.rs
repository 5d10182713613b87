//! `<pwd.h>`: the password database, as `getpwuid_r(3)` reads it.
//!
//! There is one user, "mobile" (uid 501), the unprivileged iOS user, whose
//! home directory is `/var/mobile` as in the guest file system; the other
//! fields hold the values of a stock install. The strings are laid out in
//! the caller's buffer, each at a four-byte boundary and NUL-terminated.
use crate::libc::errno::{EFAULT, EINVAL, ERANGE};
use vstd::prelude::*;
use vstd::string::StringSliceAdditionalSpecFns;

verus! {

/// The uid of the one user.
pub const MOBILE_UID: u32 = 501;

/// The gid of the one user.
pub const MOBILE_GID: u32 = 501;

/// `struct passwd` on 32-bit iOS: seven four-byte fields.
pub const PASSWD_STRUCT_SIZE: u32 = 28;

/// The fields of `struct passwd`, the strings as guest addresses.
#[derive(Clone, Copy, Debug, PartialEq, Eq)]
pub struct PasswdRecord {
    pub pw_name: u32,
    pub pw_passwd: u32,
    pub pw_uid: u32,
    pub pw_gid: u32,
    pub pw_gecos: u32,
    pub pw_dir: u32,
    pub pw_shell: u32,
}

/// What `getpwuid_r` does.
#[derive(Clone, Debug, PartialEq, Eq)]
pub enum PasswdOutcome {
    /// Return this error number and write nothing.
    Error(i32),
    /// No such user: store a null `*result` and return 0.
    NotFound,
    /// The buffer is too small: store a null `*result` and return `ERANGE`.
    TooSmall,
    /// Write each string at its address, the record at `pwd`, store `pwd`
    /// in `*result` and return 0.
    Found { strings: Vec<(u32, Vec<u8>)>, record: PasswdRecord },
}

/// The user's strings in the order of the buffer: name, password, real
/// name, home directory and shell.
pub open spec fn user_strings() -> Seq<Seq<u8>> {
    seq![
        "mobile".spec_bytes(),
        "*".spec_bytes(),
        "Mobile User".spec_bytes(),
        "/var/mobile".spec_bytes(),
        "/bin/sh".spec_bytes(),
    ]
}

/// `a` rounded up to a multiple of four.
pub open spec fn align4(a: int) -> int {
    a + (4 - a % 4) % 4
}

/// The bytes of the buffer that the first `k` strings take from `buf` on,
/// each starting at a four-byte boundary and followed by a NUL.
pub open spec fn needed(buf: int, pieces: Seq<Seq<u8>>, k: int) -> int
    decreases k,
{
    if k <= 0 {
        0
    } else {
        let before = needed(buf, pieces, k - 1);
        align4(buf + before) - buf + pieces[k - 1].len() + 1
    }
}

/// Whether the layout of the first `k` strings stays within 32-bit
/// addresses and sizes.
pub open spec fn layout_fits(buf: int, pieces: Seq<Seq<u8>>, k: int) -> bool
    decreases k,
{
    if k <= 0 {
        true
    } else {
        layout_fits(buf, pieces, k - 1) && buf + needed(buf, pieces, k - 1) <= u32::MAX && needed(
            buf,
            pieces,
            k,
        ) <= u32::MAX
    }
}

/// The address of string `k`.
pub open spec fn string_address(buf: int, pieces: Seq<Seq<u8>>, k: int) -> int {
    align4(buf + needed(buf, pieces, k))
}

/// `getpwuid_r(uid, pwd, buf, buflen, result)`: null pointers are invalid,
/// inaccessible ones a fault; any uid but 501 is not found; the strings
/// must fit the buffer.
pub open spec fn getpwuid_r_outcome(
    uid: u32,
    pwd_is_null: bool,
    buf: u32,
    buflen: u32,
    result_is_null: bool,
    accessible: bool,
) -> PasswdOutcomeView {
    let pieces = user_strings();
    if pwd_is_null || buf == 0 || result_is_null {
        PasswdOutcomeView::Error(EINVAL)
    } else if !accessible {
        PasswdOutcomeView::Error(EFAULT)
    } else if uid != MOBILE_UID {
        PasswdOutcomeView::NotFound
    } else if !layout_fits(buf as int, pieces, 5) {
        PasswdOutcomeView::Error(ERANGE)
    } else if buflen < needed(buf as int, pieces, 5) {
        PasswdOutcomeView::TooSmall
    } else {
        PasswdOutcomeView::Found(
            Seq::new(
                5,
                |k: int| (string_address(buf as int, pieces, k) as u32, pieces[k].push(0u8)),
            ),
            PasswdRecord {
                pw_name: string_address(buf as int, pieces, 0) as u32,
                pw_passwd: string_address(buf as int, pieces, 1) as u32,
                pw_uid: uid,
                pw_gid: MOBILE_GID,
                pw_gecos: string_address(buf as int, pieces, 2) as u32,
                pw_dir: string_address(buf as int, pieces, 3) as u32,
                pw_shell: string_address(buf as int, pieces, 4) as u32,
            },
        )
    }
}

/// [PasswdOutcome] as the contracts speak of it.
pub ghost enum PasswdOutcomeView {
    Error(i32),
    NotFound,
    TooSmall,
    Found(Seq<(u32, Seq<u8>)>, PasswdRecord),
}

impl View for PasswdOutcome {
    type V = PasswdOutcomeView;

    open spec fn view(&self) -> PasswdOutcomeView {
        match self {
            PasswdOutcome::Error(e) => PasswdOutcomeView::Error(*e),
            PasswdOutcome::NotFound => PasswdOutcomeView::NotFound,
            PasswdOutcome::TooSmall => PasswdOutcomeView::TooSmall,
            PasswdOutcome::Found { strings, record } => PasswdOutcomeView::Found(
                strings@.map_values(|p: (u32, Vec<u8>)| (p.0, p.1@)),
                *record,
            ),
        }
    }
}

/// `s` and a NUL.
fn c_string(s: &str) -> (r: Vec<u8>)
    ensures
        r@ == s.spec_bytes().push(0u8),
{
    let mut v = vstd::slice::slice_to_vec(s.as_bytes());
    v.push(0);
    v
}

/// String `k` of the user, NUL-terminated.
fn user_string(k: usize) -> (r: Vec<u8>)
    requires
        k < 5,
    ensures
        r@ == user_strings()[k as int].push(0u8),
{
    if k == 0 {
        c_string("mobile")
    } else if k == 1 {
        c_string("*")
    } else if k == 2 {
        c_string("Mobile User")
    } else if k == 3 {
        c_string("/var/mobile")
    } else {
        c_string("/bin/sh")
    }
}

/// `getpwuid_r`, where `accessible` says whether the record, the result
/// pointer and the whole buffer lie in writable guest memory (which ends
/// at 4 GiB).
pub fn getpwuid_r(
    uid: u32,
    pwd_is_null: bool,
    buf: u32,
    buflen: u32,
    result_is_null: bool,
    accessible: bool,
) -> (r: PasswdOutcome)
    requires
        accessible ==> buf + buflen <= 0x1_0000_0000,
    ensures
        r@ == getpwuid_r_outcome(uid, pwd_is_null, buf, buflen, result_is_null, accessible),
{
    if pwd_is_null || buf == 0 || result_is_null {
        return PasswdOutcome::Error(EINVAL);
    }
    if !accessible {
        return PasswdOutcome::Error(EFAULT);
    }
    if uid != MOBILE_UID {
        return PasswdOutcome::NotFound;
    }
    let ghost ps = user_strings();
    let mut starts: Vec<u32> = Vec::new();
    let mut used: u32 = 0;
    let mut k: usize = 0;
    while k < 5
        invariant
            0 <= k <= 5,
            !pwd_is_null && buf != 0 && !result_is_null && accessible && uid == MOBILE_UID,
            ps == user_strings(),
            layout_fits(buf as int, ps, k as int),
            used == needed(buf as int, ps, k as int),
            starts@.len() == k,
            forall|j: int| 0 <= j < k ==> #[trigger] starts@[j] + buf == string_address(buf as int, ps, j),
            forall|j: int| 0 <= j < k ==> #[trigger] starts@[j] < needed(buf as int, ps, k as int),
            forall|j: int| 0 <= j <= k ==> needed(buf as int, ps, j) <= needed(buf as int, ps, k as int),
        decreases 5 - k,
    {
        let address = match buf.checked_add(used) {
            Some(a) => a,
            None => {
                proof {
                    lemma_layout_fits_prefix(buf as int, ps, k as int + 1, 5);
                }
                return PasswdOutcome::Error(ERANGE);
            },
        };
        let padding = (4 - address % 4) % 4;
        let start = match used.checked_add(padding) {
            Some(o) => o,
            None => {
                proof {
                    lemma_layout_fits_prefix(buf as int, ps, k as int + 1, 5);
                }
                return PasswdOutcome::Error(ERANGE);
            },
        };
        let length = user_string(k).len();
        assert(length == ps[k as int].len() + 1);
        if length as u64 > (u32::MAX - start) as u64 {
            proof {
                lemma_layout_fits_prefix(buf as int, ps, k as int + 1, 5);
            }
            return PasswdOutcome::Error(ERANGE);
        }
        starts.push(start);
        used = start + length as u32;
        k = k + 1;
    }
    if buflen < used {
        return PasswdOutcome::TooSmall;
    }
    let mut strings: Vec<(u32, Vec<u8>)> = Vec::new();
    let mut j: usize = 0;
    while j < 5
        invariant
            0 <= j <= 5,
            ps == user_strings(),
            buf + buflen <= 0x1_0000_0000,
            used <= buflen,
            used == needed(buf as int, ps, 5),
            starts@.len() == 5,
            forall|i: int| 0 <= i < 5 ==> #[trigger] starts@[i] + buf == string_address(buf as int, ps, i),
            forall|i: int| 0 <= i < 5 ==> #[trigger] starts@[i] < used,
            strings@.map_values(|p: (u32, Vec<u8>)| (p.0, p.1@)) == Seq::new(
                j as nat,
                |i: int| (string_address(buf as int, ps, i) as u32, ps[i].push(0u8)),
            ),
        decreases 5 - j,
    {
        let address = buf + starts[j];
        let text = user_string(j);
        let ghost before = strings@.map_values(|p: (u32, Vec<u8>)| (p.0, p.1@));
        assert(address as int == string_address(buf as int, ps, j as int));
        assert(address == string_address(buf as int, ps, j as int) as u32);
        strings.push((address, text));
        assert(strings@.map_values(|p: (u32, Vec<u8>)| (p.0, p.1@)) == before.push(
            (address, text@),
        ));
        assert(strings@.map_values(|p: (u32, Vec<u8>)| (p.0, p.1@)) =~= Seq::new(
            (j + 1) as nat,
            |i: int| (string_address(buf as int, ps, i) as u32, ps[i].push(0u8)),
        ));
        j = j + 1;
    }
    proof {
        let v = strings@.map_values(|p: (u32, Vec<u8>)| (p.0, p.1@));
        assert forall|i: int| 0 <= i < 5 implies #[trigger] strings@[i].0 == string_address(
            buf as int,
            ps,
            i,
        ) as u32 by {
            assert(v[i].0 == strings@[i].0);
        }
    }
    let record = PasswdRecord {
        pw_name: strings[0].0,
        pw_passwd: strings[1].0,
        pw_uid: uid,
        pw_gid: MOBILE_GID,
        pw_gecos: strings[2].0,
        pw_dir: strings[3].0,
        pw_shell: strings[4].0,
    };
    PasswdOutcome::Found { strings, record }
}

/// A layout that overflows part way overflows in full.
pub proof fn lemma_layout_fits_prefix(buf: int, pieces: Seq<Seq<u8>>, k: int, n: int)
    requires
        0 <= k <= n,
        !layout_fits(buf, pieces, k),
    ensures
        !layout_fits(buf, pieces, n),
    decreases n - k,
{
    if k < n {
        lemma_layout_fits_prefix(buf, pieces, k + 1, n);
    }
}

} // verus!
