//! The check that the loader makes of a file before `mach_object` parses
//! it. `LoadCommand::parse` subtracts a command's string offset from a
//! fixed header size (or the command size from the offset) without a
//! check, and reads as many linker options as a command claims; the walk
//! below follows the load commands as the parser does (each starts where
//! the previous one's size says) and refuses a file with an offset that
//! would make such a subtraction wrap, or a count larger than the file.
//! Archives (`!<arch>`) are refused outright: the loader has no use for
//! them. The file magic is read as the parser reads it on a
//! little-endian host.
use vstd::prelude::*;

verus! {

/// The 32-bit number at `p`, big-endian or little-endian.
pub open spec fn u32_at(s: Seq<u8>, p: int, big: bool) -> int {
    if big {
        s[p] * 0x100_0000 + s[p + 1] * 0x1_0000 + s[p + 2] * 0x100 + s[p + 3]
    } else {
        s[p] + s[p + 1] * 0x100 + s[p + 2] * 0x1_0000 + s[p + 3] * 0x100_0000
    }
}

/// The big-endian 64-bit number at `p`.
pub open spec fn u64_be(s: Seq<u8>, p: int) -> int {
    u32_at(s, p, true) * 0x1_0000_0000 + u32_at(s, p + 4, true)
}

/// Whether the string offset `off` of command `cmd` (of `size` bytes, in
/// a file of `len` bytes) is one the parser reads without wrapping: a
/// plain string command's offset is at least 12, a fixed VM library's at
/// least 20, a dynamic library's at least 24, an rpath's at most the
/// command size, and a linker option count at most the file size.
pub open spec fn offset_ok(cmd: int, size: int, off: int, len: int) -> bool {
    if cmd == 0xe || cmd == 0xf || cmd == 0x27 || (0x12 <= cmd && cmd <= 0x15) {
        off >= 12
    } else if cmd == 0x6 || cmd == 0x7 {
        off >= 20
    } else if cmd == 0xc || cmd == 0xd || cmd == 0x20 || cmd == 0x8000_0018 || cmd == 0x8000_001f
        || cmd == 0x8000_0023 {
        off >= 24
    } else if cmd == 0x8000_001c {
        off <= size
    } else if cmd == 0x2d {
        off <= len
    } else {
        true
    }
}

/// Whether the `left` load commands from `pos` on pass [offset_ok]: the
/// walk ends where the parser would fail (a command that is too short or
/// runs past the file).
pub open spec fn commands_ok(s: Seq<u8>, big: bool, pos: int, left: int) -> bool
    decreases left,
{
    if left <= 0 || pos < 0 || pos + 8 > s.len() {
        true
    } else {
        let cmd = u32_at(s, pos, big);
        let size = u32_at(s, pos + 4, big);
        if size < 8 || pos + size > s.len() {
            true
        } else if pos + 12 <= s.len() && !offset_ok(cmd, size, u32_at(s, pos + 8, big), s.len() as int) {
            false
        } else {
            commands_ok(s, big, pos + size, left - 1)
        }
    }
}

/// Whether `m` is the magic of a Mach-O file.
pub open spec fn is_mach_magic(m: int) -> bool {
    m == 0xfeed_face || m == 0xcefa_edfe || m == 0xfeed_facf || m == 0xcffa_edfe
}

/// Whether `m` is the magic of a fat file.
pub open spec fn is_fat_magic(m: int) -> bool {
    m == 0xcafe_babe || m == 0xbeba_feca || m == 0xcafe_babf || m == 0xbfba_feca
}

/// Whether `s` starts as an archive does.
pub open spec fn is_archive(s: Seq<u8>) -> bool {
    s.len() >= 8 && s[0] == 0x21 && s[1] == 0x3c && s[2] == 0x61 && s[3] == 0x72 && s[4] == 0x63
        && s[5] == 0x68 && s[6] == 0x3e && s[7] == 0x0a
}

/// Whether a Mach-O file's load commands pass [commands_ok].
pub open spec fn mach_ok(s: Seq<u8>) -> bool {
    let m = u32_at(s, 0, false);
    let big = m == 0xcefa_edfe || m == 0xcffa_edfe;
    let header = if m == 0xfeed_face || m == 0xcefa_edfe { 28int } else { 32int };
    s.len() < 28 || commands_ok(s, big, header, u32_at(s, 16, big))
}

/// Whether a slice of a fat file may be parsed: a Mach-O file that passes
/// [mach_ok], or a file of no known kind (which the parser refuses); not a
/// fat file or an archive.
pub open spec fn slice_ok(c: Seq<u8>) -> bool {
    if c.len() < 4 {
        true
    } else {
        let m = u32_at(c, 0, false);
        if is_mach_magic(m) {
            mach_ok(c)
        } else {
            !is_fat_magic(m) && !is_archive(c)
        }
    }
}

/// The size of a fat file's architecture entry.
pub open spec fn fat_entry_size(wide: bool) -> int {
    if wide { 32 } else { 20 }
}

/// The offset field of the architecture entry at `e`.
pub open spec fn fat_entry_offset(s: Seq<u8>, wide: bool, e: int) -> int {
    if wide { u64_be(s, e + 8) } else { u32_at(s, e + 8, true) }
}

/// The size field of the architecture entry at `e`.
pub open spec fn fat_entry_size_field(s: Seq<u8>, wide: bool, e: int) -> int {
    if wide { u64_be(s, e + 16) } else { u32_at(s, e + 12, true) }
}

/// Whether the architectures from `i` on of a fat file with `n` of them
/// are slices that pass [slice_ok], up to the first one the parser would
/// refuse.
pub open spec fn fat_slices_ok(s: Seq<u8>, wide: bool, n: int, i: int) -> bool
    decreases n - i,
{
    if i >= n || i < 0 {
        true
    } else {
        let e = 8 + i * fat_entry_size(wide);
        let start = 8 + n * fat_entry_size(wide);
        let offset = fat_entry_offset(s, wide, e);
        let size = fat_entry_size_field(s, wide, e);
        if offset < start || offset >= s.len() || size == 0 || offset + size > s.len() {
            true
        } else {
            slice_ok(s.subrange(offset, offset + size)) && fat_slices_ok(s, wide, n, i + 1)
        }
    }
}

/// Whether a fat file's slices may be parsed.
pub open spec fn fat_ok(s: Seq<u8>) -> bool {
    let m = u32_at(s, 0, false);
    let wide = m == 0xcafe_babf || m == 0xbfba_feca;
    let n = u32_at(s, 4, true);
    s.len() < 8 || 8 + n * fat_entry_size(wide) > s.len() || fat_slices_ok(s, wide, n, 0)
}

/// Whether `OFile::parse` may be given `s`.
pub open spec fn parse_ok(s: Seq<u8>) -> bool {
    if s.len() < 4 {
        true
    } else {
        let m = u32_at(s, 0, false);
        if is_mach_magic(m) {
            mach_ok(s)
        } else if is_fat_magic(m) {
            fat_ok(s)
        } else {
            !is_archive(s)
        }
    }
}

/// Reads the 32-bit number at `p`.
fn read_u32(s: &[u8], p: usize, big: bool) -> (r: u32)
    requires
        p + 4 <= s@.len(),
    ensures
        r == u32_at(s@, p as int, big),
{
    let b0 = s[p] as u32;
    let b1 = s[p + 1] as u32;
    let b2 = s[p + 2] as u32;
    let b3 = s[p + 3] as u32;
    if big {
        b0 * 0x100_0000 + b1 * 0x1_0000 + b2 * 0x100 + b3
    } else {
        b0 + b1 * 0x100 + b2 * 0x1_0000 + b3 * 0x100_0000
    }
}

/// Reads the big-endian 64-bit number at `p`.
fn read_u64_be(s: &[u8], p: usize) -> (r: u64)
    requires
        p + 8 <= s@.len(),
    ensures
        r == u64_be(s@, p as int),
{
    let _len = s.len();
    let hi = read_u32(s, p, true) as u64;
    let lo = read_u32(s, p + 4, true) as u64;
    assert(hi <= 0xffff_ffff && lo <= 0xffff_ffff);
    assert(hi * 0x1_0000_0000 <= 0xffff_ffff_0000_0000);
    hi * 0x1_0000_0000 + lo
}

/// Whether a command's string offset passes [offset_ok].
fn check_offset(cmd: u32, size: u32, off: u32, len: usize) -> (r: bool)
    ensures
        r == offset_ok(cmd as int, size as int, off as int, len as int),
{
    if cmd == 0xe || cmd == 0xf || cmd == 0x27 || (0x12 <= cmd && cmd <= 0x15) {
        off >= 12
    } else if cmd == 0x6 || cmd == 0x7 {
        off >= 20
    } else if cmd == 0xc || cmd == 0xd || cmd == 0x20 || cmd == 0x8000_0018 || cmd == 0x8000_001f
        || cmd == 0x8000_0023 {
        off >= 24
    } else if cmd == 0x8000_001c {
        off <= size
    } else if cmd == 0x2d {
        off as usize <= len
    } else {
        true
    }
}

/// Whether a Mach-O file passes [mach_ok].
fn check_mach(s: &[u8]) -> (r: bool)
    requires
        s@.len() >= 4,
    ensures
        r == mach_ok(s@),
{
    if s.len() < 28 {
        return true;
    }
    let m = read_u32(s, 0, false);
    let big = m == 0xcefa_edfe || m == 0xcffa_edfe;
    let mut pos: usize = if m == 0xfeed_face || m == 0xcefa_edfe { 28 } else { 32 };
    let n = read_u32(s, 16, big);
    let mut k: u32 = 0;
    while k < n
        invariant
            k <= n,
            m == u32_at(s@, 0, false),
            big == (m == 0xcefa_edfe || m == 0xcffa_edfe),
            n == u32_at(s@, 16, big),
            s@.len() >= 28,
            pos <= s@.len() + 32,
            mach_ok(s@) == commands_ok(s@, big, pos as int, n - k),
        decreases n - k,
    {
        if pos > s.len() || s.len() - pos < 8 {
            return true;
        }
        let cmd = read_u32(s, pos, big);
        let size = read_u32(s, pos + 4, big);
        if size < 8 || size as usize > s.len() - pos {
            return true;
        }
        if s.len() - pos >= 12 {
            let off = read_u32(s, pos + 8, big);
            if !check_offset(cmd, size, off, s.len()) {
                return false;
            }
        }
        pos = pos + size as usize;
        k = k + 1;
    }
    true
}

/// Whether a slice of a fat file passes [slice_ok].
fn check_slice(c: &[u8]) -> (r: bool)
    ensures
        r == slice_ok(c@),
{
    if c.len() < 4 {
        return true;
    }
    let m = read_u32(c, 0, false);
    if m == 0xfeed_face || m == 0xcefa_edfe || m == 0xfeed_facf || m == 0xcffa_edfe {
        check_mach(c)
    } else {
        !(m == 0xcafe_babe || m == 0xbeba_feca || m == 0xcafe_babf || m == 0xbfba_feca) && !starts_as_archive(c)
    }
}

/// Whether `s` passes [is_archive].
pub fn starts_as_archive(s: &[u8]) -> (r: bool)
    ensures
        r == is_archive(s@),
{
    s.len() >= 8 && s[0] == 0x21 && s[1] == 0x3c && s[2] == 0x61 && s[3] == 0x72 && s[4] == 0x63
        && s[5] == 0x68 && s[6] == 0x3e && s[7] == 0x0a
}

/// Where the entry of architecture `i` of `n` starts.
fn fat_entry_at(i: u32, n: u32, esize: u64, table_end: u64) -> (e: usize)
    requires
        i < n,
        esize == 20 || esize == 32,
        table_end == 8 + n * esize,
        table_end <= usize::MAX,
    ensures
        e == 8 + i * esize,
        e + esize <= table_end,
{
    assert(8 + (i + 1) * esize <= table_end) by (nonlinear_arith)
        requires
            i + 1 <= n,
            table_end == 8 + n * esize,
            esize >= 0,
    ;
    assert(8 + i * esize + esize == 8 + (i + 1) * esize) by (nonlinear_arith);
    (8 + (i as u64) * esize) as usize
}

/// The offset and size fields of the architecture entry at `e`.
fn read_fat_entry(s: &[u8], e: usize, wide: bool) -> (r: (u64, u64))
    requires
        e + fat_entry_size(wide) <= s@.len(),
    ensures
        r.0 == fat_entry_offset(s@, wide, e as int),
        r.1 == fat_entry_size_field(s@, wide, e as int),
{
    let _len = s.len();
    if wide {
        (read_u64_be(s, e + 8), read_u64_be(s, e + 16))
    } else {
        (read_u32(s, e + 8, true) as u64, read_u32(s, e + 12, true) as u64)
    }
}

/// Whether a fat file passes [fat_ok].
fn check_fat(s: &[u8]) -> (r: bool)
    requires
        s@.len() >= 4,
    ensures
        r == fat_ok(s@),
{
    if s.len() < 8 {
        return true;
    }
    let m = read_u32(s, 0, false);
    let wide = m == 0xcafe_babf || m == 0xbfba_feca;
    let esize: u64 = if wide { 32 } else { 20 };
    let n = read_u32(s, 4, true);
    let table_end: u64 = 8 + (n as u64) * esize;
    if table_end > s.len() as u64 {
        return true;
    }
    let mut i: u32 = 0;
    while i < n
        invariant
            i <= n,
            wide == (m == 0xcafe_babf || m == 0xbfba_feca),
            m == u32_at(s@, 0, false),
            n == u32_at(s@, 4, true),
            esize == fat_entry_size(wide),
            table_end == 8 + n * fat_entry_size(wide),
            table_end <= s@.len(),
            fat_ok(s@) == fat_slices_ok(s@, wide, n as int, i as int),
        decreases n - i,
    {
        let _len = s.len();
        let e = fat_entry_at(i, n, esize, table_end);
        assert(e + fat_entry_size(wide) <= s@.len());
        let (offset, size) = read_fat_entry(s, e, wide);
        if offset < table_end || offset >= s.len() as u64 || size == 0 || size > s.len() as u64 - offset {
            return true;
        }
        let slice = vstd::slice::slice_subrange(s, offset as usize, (offset + size) as usize);
        if !check_slice(slice) {
            return false;
        }
        i = i + 1;
    }
    true
}

/// Whether `OFile::parse` may be given `s`: see [parse_ok].
pub fn check_parse(s: &[u8]) -> (r: bool)
    ensures
        r == parse_ok(s@),
{
    if s.len() < 4 {
        return true;
    }
    let m = read_u32(s, 0, false);
    if m == 0xfeed_face || m == 0xcefa_edfe || m == 0xfeed_facf || m == 0xcffa_edfe {
        check_mach(s)
    } else if m == 0xcafe_babe || m == 0xbeba_feca || m == 0xcafe_babf || m == 0xbfba_feca {
        check_fat(s)
    } else {
        !starts_as_archive(s)
    }
}

} // verus!
