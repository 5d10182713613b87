//! Loading 64-bit ARM Mach-O executables into a 64-bit guest address
//! space: segments are mapped with their protections, the dyld rebase and
//! bind tables and the chained fixups are applied, and the imports, the
//! exported symbols and the entry point are collected.
//!
//! The container format (fat files, load commands, the opcode streams of
//! the dyld tables and the symbol table) is read with `mach_object`; what
//! the loader does with what it reads stands here.
use crate::mem64::{bytes_at, range_ok, write_spec, Guest64Addr, Mem64, RegionView};
use vstd::bytes::{spec_u64_from_le_bytes, spec_u64_to_le_bytes};
use mach_object::{
    Bind, BindSymbolType, LazyBind, LoadCommand, OFile, Rebase, Symbol, SymbolIter, ThreadState,
    WeakBind,
};
use vstd::prelude::*;
use vstd::string::StringExecFns;
use opcodes::{bind_stream_ok, rebase_stream_ok};

pub mod laws;
pub mod loader;
pub mod header_check;
pub mod opcodes;


verus! {

/// The instruction sets a 64-bit image may be for.
#[derive(Debug, Clone, Copy, PartialEq, Eq)]
pub enum Architecture {
    Arm64,
}

/// A pointer in the image to be bound to an imported symbol.
#[derive(Debug, Clone)]
pub struct Binding64 {
    pub address: Guest64Addr,
    pub symbol: String,
    pub addend: i64,
}

/// A section of the image, as placed in memory.
#[derive(Debug, Clone)]
pub struct Section64 {
    pub name: String,
    pub address: Guest64Addr,
    pub size: u64,
}

/// A loaded image.
pub struct MachO64 {
    pub architecture: Architecture,
    pub name: String,
    pub dynamic_libraries: Vec<String>,
    /// The defined symbols of the symbol table with their addresses, each
    /// name once (the last definition wins).
    pub exported_symbols: Vec<(String, Guest64Addr)>,
    pub bindings: Vec<Binding64>,
    pub entry_point_pc: Option<Guest64Addr>,
    pub text_base: Guest64Addr,
    pub last_segment_end: Guest64Addr,
    pub memory: Mem64,
    pub sections: Vec<Section64>,
}

/// A binding as the contracts speak of it.
pub open spec fn binding_view(b: Binding64) -> (u64, Seq<char>, i64) {
    (b.address, b.symbol@, b.addend)
}

/// The bytes `bytes[offset..offset + size]` of a table a load command
/// points at.
pub open spec fn command_range_error(len: int, offset: int, size: int) -> Option<Seq<char>> {
    if offset + size > usize::MAX {
        Some("ARM64 dyld info range overflows"@)
    } else if offset + size > len {
        Some("ARM64 dyld info extends past the Mach-O file"@)
    } else {
        None
    }
}

/// The table of `size` bytes at `offset` in the file.
pub fn command_bytes(bytes: &[u8], offset: u32, size: u32) -> (r: Result<&[u8], String>)
    ensures
        match command_range_error(bytes@.len() as int, offset as int, size as int) {
            Some(m) => r matches Err(e) && e@ == m,
            None => r matches Ok(s) && s@ == bytes@.subrange(offset as int, offset + size),
        },
{
    let start = offset as usize;
    let length = size as usize;
    let end = match start.checked_add(length) {
        Some(e) => e,
        None => {
            return Err("ARM64 dyld info range overflows".to_owned());
        },
    };
    if end > bytes.len() {
        return Err("ARM64 dyld info extends past the Mach-O file".to_owned());
    }
    Ok(vstd::slice::slice_subrange(bytes, start, end))
}

/// Why reading `n` bytes at `offset` of a fixup table of `len` bytes
/// fails, if it does.
pub open spec fn fixup_read_error(len: int, offset: int, n: int) -> Option<Seq<char>> {
    if offset + n > usize::MAX {
        Some("ARM64 fixup offset overflows"@)
    } else if offset + n > len {
        Some("ARM64 fixups are truncated"@)
    } else {
        None
    }
}

/// The little-endian number of the bytes `s`.
pub open spec fn le_value(s: Seq<u8>) -> nat
    decreases s.len(),
{
    if s.len() == 0 {
        0
    } else {
        s[0] as nat + 256 * le_value(s.drop_first())
    }
}

/// Reads `n` (at most 8) little-endian bytes at `offset`.
fn read_le(bytes: &[u8], offset: usize, n: usize) -> (r: Result<u64, String>)
    requires
        1 <= n <= 8,
    ensures
        match fixup_read_error(bytes@.len() as int, offset as int, n as int) {
            Some(m) => r matches Err(e) && e@ == m,
            None => r matches Ok(v) && v as nat == le_value(bytes@.subrange(offset as int, offset + n))
                && v < pow256(n as int),
        },
{
    let end = match offset.checked_add(n) {
        Some(e) => e,
        None => {
            return Err("ARM64 fixup offset overflows".to_owned());
        },
    };
    if end > bytes.len() {
        return Err("ARM64 fixups are truncated".to_owned());
    }
    let mut value: u64 = 0;
    let mut k: usize = n;
    while k > 0
        invariant
            0 <= k <= n <= 8,
            end == offset + n,
            end <= bytes@.len(),
            value as nat == le_value(bytes@.subrange(offset + k, end as int)),
            value < pow256(n - k),
        decreases k,
    {
        let ghost s = bytes@.subrange(offset + k - 1, end as int);
        assert(s.drop_first() =~= bytes@.subrange(offset + k, end as int));
        proof {
            lemma_pow256_bound((n - k) as nat);
        }
        let b = bytes[offset + k - 1] as u64;
        assert(value * 256 + b < pow256(n - k + 1)) by (nonlinear_arith)
            requires
                value < pow256(n - k),
                b < 256,
                pow256(n - k + 1) == 256 * pow256(n - k),
        ;
        value = value * 256 + b;
        k = k - 1;
    }
    Ok(value)
}

/// 256 to the power `k`.
pub open spec fn pow256(k: int) -> int
    decreases k,
{
    if k <= 0 {
        1
    } else {
        256 * pow256(k - 1)
    }
}

proof fn lemma_pow256_bound(k: nat)
    requires
        k <= 7,
    ensures
        pow256(k as int) <= 0x100_0000_0000_0000,
        pow256(k as int + 1) == 256 * pow256(k as int),
        pow256(k as int + 1) <= 0x1_0000_0000_0000_0000,
{
    lemma_pow256_increasing(k as int, 7);
    lemma_pow256_increasing(k as int + 1, 8);
    reveal_with_fuel(pow256, 9);
    assert(pow256(8) == 0x1_0000_0000_0000_0000);
}

proof fn lemma_pow256_increasing(a: int, b: int)
    requires
        0 <= a <= b,
    ensures
        1 <= pow256(a) <= pow256(b),
    decreases b - a,
{
    if a < b {
        lemma_pow256_increasing(a, b - 1);
        assert(pow256(b) == 256 * pow256(b - 1));
    } else {
        lemma_pow256_positive(a);
    }
}

proof fn lemma_pow256_positive(a: int)
    requires
        0 <= a,
    ensures
        1 <= pow256(a),
    decreases a,
{
    if a > 0 {
        lemma_pow256_positive(a - 1);
    }
}

/// Reads a little-endian `u16` of a fixup table.
pub fn read_u16(bytes: &[u8], offset: usize) -> (r: Result<u16, String>)
    ensures
        match fixup_read_error(bytes@.len() as int, offset as int, 2) {
            Some(m) => r matches Err(e) && e@ == m,
            None => r matches Ok(v) && v as nat == le_value(bytes@.subrange(offset as int, offset + 2)),
        },
{
    let v = read_le(bytes, offset, 2)?;
    assert(v < 65536) by {
        reveal_with_fuel(pow256, 3);
    }
    Ok(v as u16)
}

/// Reads a little-endian `u32` of a fixup table.
pub fn read_u32(bytes: &[u8], offset: usize) -> (r: Result<u32, String>)
    ensures
        match fixup_read_error(bytes@.len() as int, offset as int, 4) {
            Some(m) => r matches Err(e) && e@ == m,
            None => r matches Ok(v) && v as nat == le_value(bytes@.subrange(offset as int, offset + 4)),
        },
{
    let v = read_le(bytes, offset, 4)?;
    assert(v < 0x1_0000_0000) by {
        reveal_with_fuel(pow256, 5);
    }
    Ok(v as u32)
}

/// Reads a little-endian `u64` of a fixup table.
pub fn read_u64(bytes: &[u8], offset: usize) -> (r: Result<u64, String>)
    ensures
        match fixup_read_error(bytes@.len() as int, offset as int, 8) {
            Some(m) => r matches Err(e) && e@ == m,
            None => r matches Ok(v) && v as nat == le_value(bytes@.subrange(offset as int, offset + 8)),
        },
{
    read_le(bytes, offset, 8)
}

/// The string the UTF-8 bytes `bytes` encode, by `String::from_utf8`,
/// which is claimed to accept exactly the byte strings that vstd's
/// `valid_utf8` describes and to decode them as its `decode_utf8` does.
#[verifier::external_body]
fn utf8_string(bytes: &[u8]) -> (r: Option<String>)
    ensures
        r is Some <==> vstd::utf8::valid_utf8(bytes@),
        r matches Some(s) ==> s@ == vstd::utf8::decode_utf8(bytes@),
{
    String::from_utf8(bytes.to_vec()).ok()
}

/// The NUL-terminated string at `offset` of a fixup table: the bytes up to
/// the first zero, which must be UTF-8.
#[verifier::opaque]
pub open spec fn cstr_at(bytes: Seq<u8>, offset: int) -> Result<Seq<char>, Seq<char>> {
    if offset > bytes.len() {
        Err("ARM64 fixup string offset is invalid"@)
    } else if !exists|e: int| offset <= e < bytes.len() && bytes[e] == 0 {
        Err("ARM64 fixup string is unterminated"@)
    } else {
        let e = choose|e: int|
            offset <= e < bytes.len() && bytes[e] == 0 && forall|j: int| offset <= j < e ==> bytes[j] != 0;
        let s = bytes.subrange(offset, e);
        if vstd::utf8::valid_utf8(s) {
            Ok(vstd::utf8::decode_utf8(s))
        } else {
            Err("ARM64 fixup symbol is not UTF-8"@)
        }
    }
}

/// Reads the NUL-terminated string at `offset` of a fixup table.
pub fn read_cstr(bytes: &[u8], offset: usize) -> (r: Result<String, String>)
    ensures
        match cstr_at(bytes@, offset as int) {
            Ok(s) => r matches Ok(v) && v@ == s,
            Err(m) => r matches Err(e) && e@ == m,
        },
{
    reveal(cstr_at);
    if offset > bytes.len() {
        return Err("ARM64 fixup string offset is invalid".to_owned());
    }
    let mut e = offset;
    while e < bytes.len() && bytes[e] != 0
        invariant
            offset <= e <= bytes@.len(),
            forall|j: int| offset <= j < e ==> bytes@[j] != 0,
        decreases bytes.len() - e,
    {
        e = e + 1;
    }
    if e == bytes.len() {
        assert(!exists|k: int| offset <= k < bytes@.len() && bytes@[k] == 0);
        return Err("ARM64 fixup string is unterminated".to_owned());
    }
    proof {
        let k = choose|k: int|
            offset <= k < bytes@.len() && bytes@[k] == 0 && forall|j: int| offset <= j < k ==> bytes@[j] != 0;
        if k < e {
            assert(bytes@[k] != 0);
        } else if k > e {
            assert(bytes@[e as int] != 0);
        }
    }
    match utf8_string(vstd::slice::slice_subrange(bytes, offset, e)) {
        Some(s) => Ok(s),
        None => Err("ARM64 fixup symbol is not UTF-8".to_owned()),
    }
}

/// `base` moved by the signed `offset`, within 64 bits.
pub open spec fn add_signed_spec(base: u64, offset: i64) -> Result<u64, Seq<char>> {
    if offset >= 0 {
        if base + offset > u64::MAX {
            Err("ARM64 address overflows"@)
        } else {
            Ok((base + offset) as u64)
        }
    } else if base + offset < 0 {
        Err("ARM64 address underflows"@)
    } else {
        Ok((base + offset) as u64)
    }
}

/// Moves `base` by the signed `offset`.
pub fn add_signed(base: u64, offset: i64) -> (r: Result<u64, String>)
    ensures
        match add_signed_spec(base, offset) {
            Ok(v) => r matches Ok(x) && x == v,
            Err(m) => r matches Err(e) && e@ == m,
        },
{
    if offset >= 0 {
        match base.checked_add(offset as u64) {
            Some(v) => Ok(v),
            None => Err("ARM64 address overflows".to_owned()),
        }
    } else {
        let magnitude: u64 = if offset == i64::MIN {
            0x8000_0000_0000_0000
        } else {
            (-offset) as u64
        };
        match base.checked_sub(magnitude) {
            Some(v) => Ok(v),
            None => Err("ARM64 address underflows".to_owned()),
        }
    }
}

/// An entry of the chained-fixup import table: library ordinal, symbol
/// name and addend.
#[derive(Debug, Clone)]
pub struct ChainedImport {
    pub ordinal: i32,
    pub name: String,
    pub addend: i64,
}

/// The value of the four little-endian bytes at `at`, read as `read_u32`
/// does.
pub open spec fn u32_at(blob: Seq<u8>, at: int) -> Result<u32, Seq<char>> {
    match fixup_read_error(blob.len() as int, at, 4) {
        Some(m) => Err(m),
        None => Ok(le_value(blob.subrange(at, at + 4)) as u32),
    }
}

/// The value of the eight little-endian bytes at `at`.
pub open spec fn u64_at(blob: Seq<u8>, at: int) -> Result<u64, Seq<char>> {
    match fixup_read_error(blob.len() as int, at, 8) {
        Some(m) => Err(m),
        None => Ok(le_value(blob.subrange(at, at + 8)) as u64),
    }
}

/// The message for an import table of an unknown format.
pub open spec fn unsupported_format(format: u32) -> Seq<char> {
    "unsupported ARM64 chained import format "@ + crate::text::decimal_chars(format as nat)
}

/// An import entry at `cursor` in format `format`: its ordinal, the offset
/// of its name in the symbol strings, its addend and its size. Format 1
/// packs the ordinal in the low 8 bits and the name offset from bit 9 of a
/// 32-bit word; format 2 adds a signed 32-bit addend; format 3 is a 64-bit
/// word with a 16-bit ordinal and the name offset from bit 17, and a
/// 64-bit addend.
#[verifier::opaque]
pub open spec fn import_entry(blob: Seq<u8>, format: u32, cursor: int) -> Result<
    (i32, int, i64, int),
    Seq<char>,
> {
    if format == 1 {
        match u32_at(blob, cursor) {
            Err(m) => Err(m),
            Ok(raw) => Ok(((raw & 0xff) as i32, (raw >> 9u32) as int, 0i64, 4)),
        }
    } else if format == 2 {
        match u32_at(blob, cursor) {
            Err(m) => Err(m),
            Ok(raw) => match u32_at(blob, cursor + 4) {
                Err(m) => Err(m),
                Ok(a) => Ok(((raw & 0xff) as i32, (raw >> 9u32) as int, a as i32 as i64, 8)),
            },
        }
    } else if format == 3 {
        match u64_at(blob, cursor) {
            Err(m) => Err(m),
            Ok(raw) => match u64_at(blob, cursor + 8) {
                Err(m) => Err(m),
                Ok(a) => Ok(
                    ((raw & 0xffff) as i32, ((raw >> 17u64) & 0x7fff_ffff) as int, a as i64, 16),
                ),
            },
        }
    } else {
        Err(unsupported_format(format))
    }
}

/// The `count` import entries from `cursor` on, with their names read from
/// the symbol strings at `symbols`, or the first error.
#[verifier::opaque]
pub open spec fn imports_from(
    blob: Seq<u8>,
    format: u32,
    symbols: int,
    cursor: int,
    count: nat,
) -> Result<Seq<(i32, Seq<char>, i64)>, Seq<char>>
    decreases count,
{
    if count == 0 {
        Ok(Seq::empty())
    } else {
        match import_entry(blob, format, cursor) {
            Err(m) => Err(m),
            Ok((ordinal, name_offset, addend, size)) => if symbols + name_offset > usize::MAX {
                Err("ARM64 fixup symbol offset overflows"@)
            } else {
                match cstr_at(blob, symbols + name_offset) {
                    Err(m) => Err(m),
                    Ok(name) => if cursor + size > usize::MAX {
                        Err("ARM64 fixup import table overflows"@)
                    } else {
                        match imports_from(blob, format, symbols, cursor + size, (count - 1) as nat) {
                            Err(m) => Err(m),
                            Ok(rest) => Ok(seq![(ordinal, name, addend)] + rest),
                        }
                    },
                }
            },
        }
    }
}

/// `prefix` before the entries of `r`, or the error of `r`.
pub open spec fn after_prefix(
    prefix: Seq<(i32, Seq<char>, i64)>,
    r: Result<Seq<(i32, Seq<char>, i64)>, Seq<char>>,
) -> Result<Seq<(i32, Seq<char>, i64)>, Seq<char>> {
    match r {
        Ok(rest) => Ok(prefix + rest),
        Err(m) => Err(m),
    }
}

/// One step of the import table.
pub proof fn lemma_imports_step(blob: Seq<u8>, format: u32, symbols: int, cursor: int, n: nat)
    requires
        n > 0,
    ensures
        imports_from(blob, format, symbols, cursor, n) == match import_entry(blob, format, cursor) {
            Err(m) => Err(m),
            Ok((ordinal, name_offset, addend, size)) => if symbols + name_offset > usize::MAX {
                Err("ARM64 fixup symbol offset overflows"@)
            } else {
                match cstr_at(blob, symbols + name_offset) {
                    Err(m) => Err(m),
                    Ok(name) => if cursor + size > usize::MAX {
                        Err("ARM64 fixup import table overflows"@)
                    } else {
                        after_prefix(
                            seq![(ordinal, name, addend)],
                            imports_from(blob, format, symbols, cursor + size, (n - 1) as nat),
                        )
                    },
                }
            },
        },
{
    reveal(imports_from);
}

/// The imports as the contracts speak of them.
pub open spec fn imports_view(v: Seq<ChainedImport>) -> Seq<(i32, Seq<char>, i64)> {
    v.map_values(|i: ChainedImport| (i.ordinal, i.name@, i.addend))
}

/// Reads the import entry at `cursor`.
fn read_import_entry(blob: &[u8], format: u32, cursor: usize) -> (r: Result<
    (i32, usize, i64, usize),
    String,
>)
    ensures
        match import_entry(blob@, format, cursor as int) {
            Ok((o, n, a, z)) => r matches Ok((o2, n2, a2, z2)) && o2 == o && n2 == n && a2 == a && z2 == z,
            Err(m) => r matches Err(e) && e@ == m,
        },
{
    reveal(import_entry);
    if format == 1 {
        let raw = match read_u32(blob, cursor) {
            Ok(v) => v,
            Err(e) => {
                return Err(e);
            },
        };
        assert(raw >> 9u32 <= 0x7f_ffff) by (bit_vector);
        Ok(((raw & 0xff) as i32, (raw >> 9u32) as usize, 0i64, 4usize))
    } else if format == 2 {
        let raw = match read_u32(blob, cursor) {
            Ok(v) => v,
            Err(e) => {
                return Err(e);
            },
        };
        let a = match read_u32(blob, cursor + 4) {
            Ok(v) => v,
            Err(e) => {
                return Err(e);
            },
        };
        assert(raw >> 9u32 <= 0x7f_ffff) by (bit_vector);
        Ok(((raw & 0xff) as i32, (raw >> 9u32) as usize, a as i32 as i64, 8usize))
    } else if format == 3 {
        let raw = match read_u64(blob, cursor) {
            Ok(v) => v,
            Err(e) => {
                return Err(e);
            },
        };
        let a = match read_u64(blob, cursor + 8) {
            Ok(v) => v,
            Err(e) => {
                return Err(e);
            },
        };
        assert((raw >> 17u64) & 0x7fff_ffff <= 0x7fff_ffff) by (bit_vector);
        Ok(((raw & 0xffff) as i32, ((raw >> 17u64) & 0x7fff_ffff) as usize, a as i64, 16usize))
    } else {
        let mut message = "unsupported ARM64 chained import format ".to_owned();
        crate::text::push_decimal(&mut message, format as u64);
        Err(message)
    }
}

/// Reads the import table of the chained fixups.
pub fn parse_chained_imports(
    blob: &[u8],
    imports_offset: usize,
    symbols_offset: usize,
    count: usize,
    format: u32,
) -> (r: Result<Vec<ChainedImport>, String>)
    ensures
        match imports_from(blob@, format, symbols_offset as int, imports_offset as int, count as nat) {
            Ok(l) => r matches Ok(v) && imports_view(v@) == l,
            Err(m) => r matches Err(e) && e@ == m,
        },
{
    let mut imports: Vec<ChainedImport> = Vec::new();
    let mut cursor = imports_offset;
    let mut k: usize = 0;
    let ghost whole = imports_from(blob@, format, symbols_offset as int, imports_offset as int, count as nat);
    assert(imports_view(imports@) =~= Seq::<(i32, Seq<char>, i64)>::empty());
    assert(whole == after_prefix(imports_view(imports@), whole)) by {
        match whole {
            Ok(rest) => {
                assert(Seq::<(i32, Seq<char>, i64)>::empty() + rest =~= rest);
            },
            Err(_) => {},
        }
    }
    while k < count
        invariant
            0 <= k <= count,
            whole == imports_from(blob@, format, symbols_offset as int, imports_offset as int, count as nat),
            whole == after_prefix(
                imports_view(imports@),
                imports_from(blob@, format, symbols_offset as int, cursor as int, (count - k) as nat),
            ),
        decreases count - k,
    {
        proof {
            lemma_imports_step(blob@, format, symbols_offset as int, cursor as int, (count - k) as nat);
        }
        let (ordinal, name_offset, addend, size) = match read_import_entry(blob, format, cursor) {
            Ok(entry) => entry,
            Err(e) => {
                return Err(e);
            },
        };
        let at = match symbols_offset.checked_add(name_offset) {
            Some(a) => a,
            None => {
                return Err("ARM64 fixup symbol offset overflows".to_owned());
            },
        };
        let name = match read_cstr(blob, at) {
            Ok(n) => n,
            Err(e) => {
                return Err(e);
            },
        };
        let next = match cursor.checked_add(size) {
            Some(c) => c,
            None => {
                return Err("ARM64 fixup import table overflows".to_owned());
            },
        };
        let ghost before = imports_view(imports@);
        let ghost later = imports_from(blob@, format, symbols_offset as int, next as int, (count - k - 1) as nat);
        imports.push(ChainedImport { ordinal, name, addend });
        proof {
            assert(imports_view(imports@) =~= before.push((ordinal, name@, addend)));
            match later {
                Ok(rest) => {
                    assert(before + (seq![(ordinal, name@, addend)] + rest) =~= before.push(
                        (ordinal, name@, addend),
                    ) + rest);
                },
                Err(_) => {},
            }
        }
        cursor = next;
        k = k + 1;
    }
    proof {
        reveal(imports_from);
        assert(imports_view(imports@) + Seq::<(i32, Seq<char>, i64)>::empty() =~= imports_view(imports@));
    }
    Ok(imports)
}

/// A copy of `s`.
fn copy_string(s: &String) -> (r: String)
    ensures
        r@ == s@,
{
    s.as_str().to_owned()
}

/// What the starts records of segments `index` to `count` do, their
/// offsets read from the table at the start of `starts` (0 for a segment
/// without fixups).
pub open spec fn segments_walk(
    st: FixupState,
    starts: Seq<u8>,
    index: int,
    count: int,
    bases: Seq<u64>,
    imports: Seq<(i32, Seq<char>, i64)>,
    slide: u64,
) -> Option<FixupState>
    decreases count - index,
{
    if index >= count {
        Some(st)
    } else {
        match u32_at(starts, 4 + index * 4) {
            Err(_) => None,
            Ok(offset) => if offset == 0 {
                segments_walk(st, starts, index + 1, count, bases, imports, slide)
            } else if offset > starts.len() {
                None
            } else {
                match segment_walk(st, starts.subrange(offset as int, starts.len() as int), index, bases, imports, slide) {
                    None => None,
                    Some(st2) => segments_walk(st2, starts, index + 1, count, bases, imports, slide),
                }
            },
        }
    }
}

/// What the chained fixups at `off` (`size` bytes) of the file do: the
/// table must lie in the file and hold its 28-byte header; the header
/// gives where the segment starts, the imports and their names lie, how
/// many imports there are and their format; the segment table must fit,
/// and the imports be readable; then each segment's chains are walked.
pub open spec fn chained_fixups_spec(
    st: FixupState,
    bytes: Seq<u8>,
    off: u32,
    size: u32,
    bases: Seq<u64>,
    slide: u64,
) -> Option<FixupState> {
    if command_range_error(bytes.len() as int, off as int, size as int) is Some {
        None
    } else {
        let blob = bytes.subrange(off as int, off + size);
        if blob.len() < 28 {
            None
        } else {
            let starts_offset = u32_at(blob, 4)->Ok_0;
            let imports_offset = u32_at(blob, 8)->Ok_0;
            let symbols_offset = u32_at(blob, 12)->Ok_0;
            let imports_count = u32_at(blob, 16)->Ok_0;
            let imports_format = u32_at(blob, 20)->Ok_0;
            if starts_offset > blob.len() {
                None
            } else {
                let starts = blob.subrange(starts_offset as int, blob.len() as int);
                match u32_at(starts, 0) {
                    Err(_) => None,
                    Ok(count) => if 4 + count * 4 > usize::MAX || starts.len() < 4 + count * 4 {
                        None
                    } else {
                        match imports_from(
                            blob,
                            imports_format,
                            symbols_offset as int,
                            imports_offset as int,
                            imports_count as nat,
                        ) {
                            Err(_) => None,
                            Ok(imports) => segments_walk(st, starts, 0, count as int, bases, imports, slide),
                        }
                    },
                }
            }
        }
    }
}

/// Why the header of the chained fixups at `off` (`size` bytes) of the file
/// is refused, if it is: the table must lie in the file and hold the
/// 28-byte header; the segment table's offset must lie within it; the
/// segment table, of 4 bytes and one 4-byte offset per segment, must fit;
/// and the imports must be readable.
pub open spec fn chained_header_error(bytes: Seq<u8>, off: u32, size: u32) -> Option<Seq<char>> {
    match command_range_error(bytes.len() as int, off as int, size as int) {
        Some(m) => Some(m),
        None => {
            let blob = bytes.subrange(off as int, off + size);
            if blob.len() < 28 {
                Some("ARM64 chained fixups header is truncated"@)
            } else {
                let starts_offset = u32_at(blob, 4)->Ok_0;
                let imports_offset = u32_at(blob, 8)->Ok_0;
                let symbols_offset = u32_at(blob, 12)->Ok_0;
                let imports_count = u32_at(blob, 16)->Ok_0;
                let imports_format = u32_at(blob, 20)->Ok_0;
                if starts_offset > blob.len() {
                    Some("ARM64 chained fixup starts offset is invalid"@)
                } else {
                    let starts = blob.subrange(starts_offset as int, blob.len() as int);
                    match u32_at(starts, 0) {
                        Err(m) => Some(m),
                        Ok(count) => if 4 + count * 4 > usize::MAX {
                            Some("ARM64 chained fixup segment table overflows"@)
                        } else if starts.len() < 4 + count * 4 {
                            Some("ARM64 chained fixup segment table is truncated"@)
                        } else {
                            match imports_from(
                                blob,
                                imports_format,
                                symbols_offset as int,
                                imports_offset as int,
                                imports_count as nat,
                            ) {
                                Err(m) => Some(m),
                                Ok(_) => None,
                            }
                        },
                    }
                }
            }
        },
    }
}

/// Applies the chained fixups at `off` (`size` bytes) of the file (see
/// `chained_fixups_spec`): each chain of pointers in each page of each
/// segment is walked; a bind becomes a binding to its import, with the
/// import's addend and the pointer's inline addend; a rebase is written
/// back with the slide added (for pointer format 2, with the top byte moved
/// into place).
pub fn parse_chained_fixups(
    bytes: &[u8],
    off: u32,
    size: u32,
    segment_bases: &[u64],
    memory: &mut Mem64,
    bindings: &mut Vec<Binding64>,
    slide: u64,
) -> (r: Result<(), String>)
    requires
        old(memory).wf(),
    ensures
        final(memory).wf(),
        final(memory)@.allocations == old(memory)@.allocations,
        final(memory)@.next_allocation == old(memory)@.next_allocation,
        match chained_fixups_spec(
            (old(memory)@.regions, fixup_bindings(old(bindings)@)),
            bytes@,
            off,
            size,
            segment_bases@,
            slide,
        ) {
            Some(st) => r is Ok && final(memory)@.regions == st.0 && fixup_bindings(final(bindings)@) == st.1,
            None => r is Err,
        },
        chained_header_error(bytes@, off, size) matches Some(m) ==> (r matches Err(e) && e@ == m),
{
    let ghost mem0 = memory@;
    let ghost st0 = (memory@.regions, fixup_bindings(bindings@));
    let blob = match command_bytes(bytes, off, size) {
        Ok(b) => b,
        Err(e) => {
            return Err(e);
        },
    };
    if blob.len() < 28 {
        return Err("ARM64 chained fixups header is truncated".to_owned());
    }
    let starts_offset = match read_u32(blob, 4) {
        Ok(v) => v as usize,
        Err(e) => {
            return Err(e);
        },
    };
    let imports_offset = match read_u32(blob, 8) {
        Ok(v) => v as usize,
        Err(e) => {
            return Err(e);
        },
    };
    let symbols_offset = match read_u32(blob, 12) {
        Ok(v) => v as usize,
        Err(e) => {
            return Err(e);
        },
    };
    let imports_count = match read_u32(blob, 16) {
        Ok(v) => v as usize,
        Err(e) => {
            return Err(e);
        },
    };
    let imports_format = match read_u32(blob, 20) {
        Ok(v) => v,
        Err(e) => {
            return Err(e);
        },
    };
    if starts_offset > blob.len() {
        return Err("ARM64 chained fixup starts offset is invalid".to_owned());
    }
    let starts = vstd::slice::slice_subrange(blob, starts_offset, blob.len());
    let segment_count = match read_u32(starts, 0) {
        Ok(v) => v as usize,
        Err(e) => {
            return Err(e);
        },
    };
    let table_end = match segment_count.checked_mul(4) {
        Some(n) => match n.checked_add(4) {
            Some(e) => e,
            None => {
                return Err("ARM64 chained fixup segment table overflows".to_owned());
            },
        },
        None => {
            return Err("ARM64 chained fixup segment table overflows".to_owned());
        },
    };
    if starts.len() < table_end {
        return Err("ARM64 chained fixup segment table is truncated".to_owned());
    }
    let imports = match parse_chained_imports(
        blob,
        imports_offset,
        symbols_offset,
        imports_count,
        imports_format,
    ) {
        Ok(i) => i,
        Err(e) => {
            return Err(e);
        },
    };
    let ghost imps = imports_view(imports@);
    let ghost total = segments_walk(st0, starts@, 0, segment_count as int, segment_bases@, imps, slide);
    assert(total == chained_fixups_spec(st0, bytes@, off, size, segment_bases@, slide));
    assert(chained_header_error(bytes@, off, size) is None);
    let mut segment_index: usize = 0;
    while segment_index < segment_count
        invariant
            chained_header_error(bytes@, off, size) is None,
            memory.wf(),
            memory@.allocations == mem0.allocations,
            memory@.next_allocation == mem0.next_allocation,
            mem0 == old(memory)@,
            4 + segment_count * 4 <= starts@.len(),
            starts@.len() == starts.len(),
            segment_index <= segment_count,
            imps == imports_view(imports@),
            total == chained_fixups_spec(
                (old(memory)@.regions, fixup_bindings(old(bindings)@)),
                bytes@,
                off,
                size,
                segment_bases@,
                slide,
            ),
            total == segments_walk(
                (memory@.regions, fixup_bindings(bindings@)),
                starts@,
                segment_index as int,
                segment_count as int,
                segment_bases@,
                imps,
                slide,
            ),
        decreases segment_count - segment_index,
    {
        let offset = match read_u32(starts, 4 + segment_index * 4) {
            Ok(v) => v as usize,
            Err(e) => {
                return Err(e);
            },
        };
        if offset == 0 {
            segment_index = segment_index + 1;
            continue;
        }
        if offset > starts.len() {
            return Err("ARM64 chained segment starts offset is invalid".to_owned());
        }
        let segment = vstd::slice::slice_subrange(starts, offset, starts.len());
        match walk_segment(segment, segment_index, segment_bases, &imports, memory, bindings, slide) {
            Ok(()) => {},
            Err(e) => {
                return Err(e);
            },
        }
        segment_index = segment_index + 1;
    }
    Ok(())
}

/// The value of the two little-endian bytes at `at`, read as `read_u16`
/// does.
pub open spec fn u16_at(blob: Seq<u8>, at: int) -> Result<u16, Seq<char>> {
    match fixup_read_error(blob.len() as int, at, 2) {
        Some(m) => Err(m),
        None => Ok(le_value(blob.subrange(at, at + 2)) as u16),
    }
}

/// What the chains of pages `page` to `page_count` of a segment do: the
/// start of each page's chain is read from the page table (`0xffff` for a
/// page without one); a chain starts at the segment's offset, plus the
/// page's, plus that start, and stays within its page.
pub open spec fn pages_walk(
    st: FixupState,
    segment: Seq<u8>,
    page: int,
    page_count: int,
    page_size: u64,
    segment_offset: u64,
    base: u64,
    format: u16,
    imports: Seq<(i32, Seq<char>, i64)>,
    slide: u64,
) -> Option<FixupState>
    decreases page_count - page,
{
    if page >= page_count {
        Some(st)
    } else {
        match u16_at(segment, 22 + page * 2) {
            Err(_) => None,
            Ok(page_start) => if page_start == 0xffff {
                pages_walk(st, segment, page + 1, page_count, page_size, segment_offset, base, format, imports, slide)
            } else if segment_offset + page * page_size > u64::MAX || segment_offset + page * page_size
                + page_start > u64::MAX || segment_offset + (page + 1) * page_size > u64::MAX {
                None
            } else {
                match chain_walk(
                    st,
                    (segment_offset + page * page_size + page_start) as u64,
                    (segment_offset + (page + 1) * page_size) as u64,
                    base,
                    format,
                    imports,
                    slide,
                ) {
                    None => None,
                    Some(st2) => pages_walk(
                        st2,
                        segment,
                        page + 1,
                        page_count,
                        page_size,
                        segment_offset,
                        base,
                        format,
                        imports,
                        slide,
                    ),
                }
            },
        }
    }
}

/// What the starts record `segment` of segment `index` does: its header
/// (size, page size, pointer format, segment offset and page count) must
/// be readable and hold the page table, the segment must exist and the
/// pointer format be 2 or 6; then its pages' chains are walked.
pub open spec fn segment_walk(
    st: FixupState,
    segment: Seq<u8>,
    index: int,
    bases: Seq<u64>,
    imports: Seq<(i32, Seq<char>, i64)>,
    slide: u64,
) -> Option<FixupState> {
    match (u32_at(segment, 0), u16_at(segment, 4), u16_at(segment, 6), u64_at(segment, 8), u16_at(segment, 20)) {
        (Ok(size), Ok(page_size), Ok(format), Ok(segment_offset), Ok(page_count)) => {
            let end = 22 + page_count * 2;
            if size < end || segment.len() < end || index >= bases.len() || (format != 2 && format != 6) {
                None
            } else {
                pages_walk(st, segment, 0, page_count as int, page_size as u64, segment_offset, bases[index], format, imports, slide)
            }
        },
        _ => None,
    }
}

/// Walks the pointer chains of one segment's starts record (see
/// `segment_walk`).
fn walk_segment(
    segment: &[u8],
    segment_index: usize,
    segment_bases: &[u64],
    imports: &Vec<ChainedImport>,
    memory: &mut Mem64,
    bindings: &mut Vec<Binding64>,
    slide: u64,
) -> (r: Result<(), String>)
    requires
        old(memory).wf(),
    ensures
        final(memory).wf(),
        final(memory)@.allocations == old(memory)@.allocations,
        final(memory)@.next_allocation == old(memory)@.next_allocation,
        match segment_walk(
            (old(memory)@.regions, fixup_bindings(old(bindings)@)),
            segment@,
            segment_index as int,
            segment_bases@,
            imports_view(imports@),
            slide,
        ) {
            Some(st) => r is Ok && final(memory)@.regions == st.0 && fixup_bindings(final(bindings)@) == st.1,
            None => r is Err,
        },
{
    let ghost mem0 = memory@;
    let ghost st0 = (memory@.regions, fixup_bindings(bindings@));
    let size = match read_u32(segment, 0) {
        Ok(v) => v as usize,
        Err(e) => {
            return Err(e);
        },
    };
    let page_size = match read_u16(segment, 4) {
        Ok(v) => v as u64,
        Err(e) => {
            return Err(e);
        },
    };
    let pointer_format = match read_u16(segment, 6) {
        Ok(v) => v,
        Err(e) => {
            return Err(e);
        },
    };
    let segment_offset = match read_u64(segment, 8) {
        Ok(v) => v,
        Err(e) => {
            return Err(e);
        },
    };
    let page_count = match read_u16(segment, 20) {
        Ok(v) => v as usize,
        Err(e) => {
            return Err(e);
        },
    };
    let page_starts_end = 22 + page_count * 2;
    if size < page_starts_end || segment.len() < page_starts_end {
        return Err("ARM64 chained segment starts is truncated".to_owned());
    }
    if segment_index >= segment_bases.len() {
        return Err("ARM64 chained fixup references an invalid segment".to_owned());
    }
    if pointer_format != 2 && pointer_format != 6 {
        let mut message = "unsupported ARM64 chained pointer format ".to_owned();
        crate::text::push_decimal(&mut message, pointer_format as u64);
        return Err(message);
    }
    let base = segment_bases[segment_index];
    let ghost imps = imports_view(imports@);
    let ghost total = pages_walk(
        st0,
        segment@,
        0,
        page_count as int,
        page_size,
        segment_offset,
        base,
        pointer_format,
        imps,
        slide,
    );
    assert(total == segment_walk(st0, segment@, segment_index as int, segment_bases@, imps, slide));
    let mut page: usize = 0;
    while page < page_count
        invariant
            memory.wf(),
            memory@.allocations == mem0.allocations,
            memory@.next_allocation == mem0.next_allocation,
            mem0 == old(memory)@,
            page_count < 65536,
            page_size < 65536,
            page <= page_count,
            22 + page_count * 2 <= segment@.len(),
            imps == imports_view(imports@),
            total == segment_walk(
                (old(memory)@.regions, fixup_bindings(old(bindings)@)),
                segment@,
                segment_index as int,
                segment_bases@,
                imps,
                slide,
            ),
            total == pages_walk(
                (memory@.regions, fixup_bindings(bindings@)),
                segment@,
                page as int,
                page_count as int,
                page_size,
                segment_offset,
                base,
                pointer_format,
                imps,
                slide,
            ),
        decreases page_count - page,
    {
        let page_start = match read_u16(segment, 22 + page * 2) {
            Ok(v) => v,
            Err(e) => {
                return Err(e);
            },
        };
        if page_start == 0xffff {
            page = page + 1;
            continue;
        }
        assert(page as u64 * page_size < 0x1_0000_0000) by (nonlinear_arith)
            requires
                page < 65536,
                page_size < 65536,
        ;
        assert((page as u64 + 1) * page_size <= 0x1_0000_0000) by (nonlinear_arith)
            requires
                page < 65536,
                page_size < 65536,
        ;
        let chain_start = match segment_offset.checked_add(page as u64 * page_size) {
            Some(v) => match v.checked_add(page_start as u64) {
                Some(w) => w,
                None => {
                    return Err("ARM64 chained pointer address overflows".to_owned());
                },
            },
            None => {
                return Err("ARM64 chained pointer address overflows".to_owned());
            },
        };
        let page_end = match segment_offset.checked_add((page as u64 + 1) * page_size) {
            Some(v) => v,
            None => {
                return Err("ARM64 chained page end overflows".to_owned());
            },
        };
        match walk_chain(chain_start, page_end, base, pointer_format, imports, memory, bindings, slide) {
            Ok(()) => {},
            Err(e) => {
                return Err(e);
            },
        }
        page = page + 1;
    }
    Ok(())
}

/// The memory and the bindings, as the chained fixups change them.
pub type FixupState = (Seq<RegionView>, Seq<(u64, Seq<char>, i64)>);

/// The bindings as the chained fixup contracts speak of them.
pub open spec fn fixup_bindings(v: Seq<Binding64>) -> Seq<(u64, Seq<char>, i64)> {
    v.map_values(|b: Binding64| binding_view(b))
}

/// What the chained pointer `raw` at `address` does: a bind (top bit set)
/// adds a binding to the import its low 24 bits number, with the import's
/// addend plus the signed byte at bits 24 to 31; a rebase writes back its
/// target (the low 36 bits, for pointer format 2 with the byte at bits 36
/// to 43 moved to the top) moved by `slide`.
pub open spec fn chain_step(
    st: FixupState,
    address: u64,
    raw: u64,
    format: u16,
    imports: Seq<(i32, Seq<char>, i64)>,
    slide: u64,
) -> Option<FixupState> {
    if (raw >> 63u64) != 0 {
        let ordinal = (raw & 0x00ff_ffffu64) as int;
        if ordinal >= imports.len() {
            None
        } else {
            let inline_addend = ((raw >> 24u64) & 0xffu64) as u8 as i8 as i64;
            Some((st.0, st.1.push((address, imports[ordinal].1, imports[ordinal].2.wrapping_add(inline_addend)))))
        }
    } else {
        let low = raw & 0x0000_000f_ffff_ffffu64;
        let target = if format == 2 {
            low | (((raw >> 36u64) & 0xffu64) << 56u64)
        } else {
            low
        };
        if target + slide > u64::MAX || !range_ok(st.0, address as int, 8, 0) {
            None
        } else {
            Some((write_spec(st.0, address as int, spec_u64_to_le_bytes((target + slide) as u64), 8), st.1))
        }
    }
}

/// The addend a 64-bit signed addition wraps to.
pub open spec fn wrap_i64(x: int) -> int {
    if x > i64::MAX {
        x - 0x1_0000_0000_0000_0000
    } else if x < i64::MIN {
        x + 0x1_0000_0000_0000_0000
    } else {
        x
    }
}

/// A chained bind pointer (top bit set) whose ordinal, its low 24 bits,
/// numbers an import records a binding at the pointer's own address to
/// that import's name, with the import's addend plus the inline addend,
/// the byte at bits 24 to 31 taken as signed (the sum wrapping in 64
/// bits); the mappings are left as they are.
pub proof fn law_chained_bind_records_import_and_addend(
    st: FixupState,
    address: u64,
    raw: u64,
    format: u16,
    imports: Seq<(i32, Seq<char>, i64)>,
    slide: u64,
)
    requires
        raw >= 0x8000_0000_0000_0000,
        raw % 0x100_0000 < imports.len(),
    ensures
        ({
            let o = (raw % 0x100_0000) as int;
            let b = (raw / 0x100_0000) % 0x100;
            let inline = if b < 128 { b as int } else { b - 256 };
            chain_step(st, address, raw, format, imports, slide) == Some(
                (st.0, st.1.push((address, imports[o].1, wrap_i64(imports[o].2 + inline) as i64))),
            )
        }),
{
    assert((raw >> 63u64) != 0 && raw & 0x00ff_ffffu64 == raw % 0x100_0000 && (raw >> 24u64) & 0xffu64 == (raw
        / 0x100_0000) % 0x100) by (bit_vector)
        requires
            raw >= 0x8000_0000_0000_0000,
    ;
    let x = (raw >> 24u64) & 0xffu64;
    assert((x as u8 as i8 as i64) as int == if x < 128 { x as int } else { x as int - 256 }) by (bit_vector)
        requires
            x == (raw >> 24u64) & 0xffu64,
    ;
}

/// A chained rebase pointer (top bit clear) writes back its target, the
/// low 36 bits (for pointer format 2 with the byte at bits 36 to 43 moved
/// to bits 56 to 63), moved by `slide`: the pointer then reads as that
/// value and no binding is added. A target that the slide moves past 64
/// bits is refused.
pub proof fn law_chained_rebase_writes_slid_target(
    st: FixupState,
    address: u64,
    raw: u64,
    format: u16,
    imports: Seq<(i32, Seq<char>, i64)>,
    slide: u64,
)
    requires
        raw < 0x8000_0000_0000_0000,
        crate::mem64::regions_wf(st.0),
        range_ok(st.0, address as int, 8, 0),
    ensures
        ({
            let low = raw % 0x10_0000_0000;
            let target = if format == 2 {
                low + ((raw / 0x10_0000_0000) % 0x100) * 0x100_0000_0000_0000
            } else {
                low as int
            };
            &&& target + slide > u64::MAX ==> chain_step(st, address, raw, format, imports, slide) is None
            &&& target + slide <= u64::MAX ==> (chain_step(st, address, raw, format, imports, slide) matches Some(r)
                && r.1 == st.1 && spec_u64_from_le_bytes(bytes_at(r.0, address as int, 8)) == target + slide)
        }),
{
    assert((raw >> 63u64) == 0 && raw & 0x0000_000f_ffff_ffffu64 == raw % 0x10_0000_0000 && (raw
        & 0x0000_000f_ffff_ffffu64) | (((raw >> 36u64) & 0xffu64) << 56u64) == raw % 0x10_0000_0000 + ((raw
        / 0x10_0000_0000) % 0x100) * 0x100_0000_0000_0000) by (bit_vector)
        requires
            raw < 0x8000_0000_0000_0000,
    ;
    let low = raw & 0x0000_000f_ffff_ffffu64;
    let target = if format == 2 {
        low | (((raw >> 36u64) & 0xffu64) << 56u64)
    } else {
        low
    };
    if target + slide <= u64::MAX {
        let v = (target + slide) as u64;
        let data = spec_u64_to_le_bytes(v);
        crate::mem64_laws::law_u64_round_trip(v);
        let m = crate::mem64::Mem64View { regions: st.0, allocations: Map::empty(), next_allocation: 0 };
        let m2 = crate::mem64::Mem64View { regions: write_spec(st.0, address as int, data, 8), ..m };
        crate::mem64_laws::law_read_after_write(m, m2, address as int, data, 0);
    }
}

/// What the chain of pointers from `offset` (from `base`) on does, within a
/// page ending at `page_end`: each pointer is read and applied, and the
/// walk goes on `next` 4-byte strides (bits 51 to 62) on until `next` is 0;
/// `None` where a pointer cannot be read or applied or the chain leaves
/// the page.
pub open spec fn chain_walk(
    st: FixupState,
    offset: u64,
    page_end: u64,
    base: u64,
    format: u16,
    imports: Seq<(i32, Seq<char>, i64)>,
    slide: u64,
) -> Option<FixupState>
    decreases (if offset < page_end {
        page_end - offset
    } else {
        0
    }),
{
    if base + offset > u64::MAX {
        None
    } else {
        let address = (base + offset) as u64;
        if !range_ok(st.0, address as int, 8, 1) {
            None
        } else {
            let raw = spec_u64_from_le_bytes(bytes_at(st.0, address as int, 8));
            match chain_step(st, address, raw, format, imports, slide) {
                None => None,
                Some(next_st) => {
                    let next = (raw >> 51u64) & 0xfffu64;
                    if next == 0 {
                        Some(next_st)
                    } else if offset + next * 4 > u64::MAX || offset + next * 4 >= page_end {
                        None
                    } else {
                        chain_walk(next_st, (offset + next * 4) as u64, page_end, base, format, imports, slide)
                    }
                },
            }
        }
    }
}

/// Walks one chain of pointers from `chain_start` within a page ending at
/// `page_end` (see `chain_walk`).
fn walk_chain(
    chain_start: u64,
    page_end: u64,
    base: u64,
    pointer_format: u16,
    imports: &Vec<ChainedImport>,
    memory: &mut Mem64,
    bindings: &mut Vec<Binding64>,
    slide: u64,
) -> (r: Result<(), String>)
    requires
        old(memory).wf(),
    ensures
        final(memory).wf(),
        final(memory)@.allocations == old(memory)@.allocations,
        final(memory)@.next_allocation == old(memory)@.next_allocation,
        match chain_walk(
            (old(memory)@.regions, fixup_bindings(old(bindings)@)),
            chain_start,
            page_end,
            base,
            pointer_format,
            imports_view(imports@),
            slide,
        ) {
            Some(st) => r is Ok && final(memory)@.regions == st.0 && fixup_bindings(final(bindings)@) == st.1,
            None => r is Err,
        },
{
    let ghost mem0 = memory@;
    let ghost total = chain_walk(
        (memory@.regions, fixup_bindings(bindings@)),
        chain_start,
        page_end,
        base,
        pointer_format,
        imports_view(imports@),
        slide,
    );
    let mut chain_offset = chain_start;
    loop
        invariant_except_break
            total == chain_walk(
                (memory@.regions, fixup_bindings(bindings@)),
                chain_offset,
                page_end,
                base,
                pointer_format,
                imports_view(imports@),
                slide,
            ),
        invariant
            memory.wf(),
            memory@.allocations == mem0.allocations,
            memory@.next_allocation == mem0.next_allocation,
            mem0 == old(memory)@,
            total == chain_walk(
                (old(memory)@.regions, fixup_bindings(old(bindings)@)),
                chain_start,
                page_end,
                base,
                pointer_format,
                imports_view(imports@),
                slide,
            ),
        ensures
            total == Some((memory@.regions, fixup_bindings(bindings@))),
        decreases (if chain_offset < page_end {
            page_end - chain_offset
        } else {
            0
        }),
    {
        let ghost st = (memory@.regions, fixup_bindings(bindings@));
        let address = match base.checked_add(chain_offset) {
            Some(a) => a,
            None => {
                return Err("ARM64 chained pointer address overflows".to_owned());
            },
        };
        let raw = match memory.read_u64(address) {
            Ok(v) => v,
            Err(e) => {
                return Err(e.to_owned());
            },
        };
        let bind = (raw >> 63u64) != 0;
        let next = (raw >> 51u64) & 0xfff;
        if bind {
            assert(raw & 0x00ff_ffff <= 0x00ff_ffff) by (bit_vector);
            let ordinal = (raw & 0x00ff_ffff) as usize;
            if ordinal >= imports.len() {
                return Err("ARM64 chained bind ordinal is invalid".to_owned());
            }
            let inline_addend = ((raw >> 24u64) & 0xff) as u8 as i8 as i64;
            let symbol = copy_string(&imports[ordinal].name);
            let ghost before = bindings@;
            let addend = imports[ordinal].addend.wrapping_add(inline_addend);
            bindings.push(Binding64 { address, symbol, addend });
            assert(fixup_bindings(bindings@) =~= fixup_bindings(before).push(
                (address, imports@[ordinal as int].name@, addend),
            ));
        } else {
            let low = raw & 0x0000_000f_ffff_ffff;
            let target = if pointer_format == 2 {
                low | (((raw >> 36u64) & 0xff) << 56u64)
            } else {
                low
            };
            let value = match target.checked_add(slide) {
                Some(v) => v,
                None => {
                    return Err("ARM64 chained rebase overflows".to_owned());
                },
            };
            proof {
                vstd::bytes::lemma_auto_spec_u64_to_from_le_bytes();
            }
            assert(spec_u64_to_le_bytes(value).len() == 8);
            match memory.load_u64(address, value) {
                Ok(()) => {},
                Err(e) => {
                    return Err(e.to_owned());
                },
            }
        }
        if next == 0 {
            break;
        }
        assert(next <= 0xfff) by (bit_vector)
            requires
                next == (raw >> 51u64) & 0xfff,
        ;
        let following = match chain_offset.checked_add(next * 4) {
            Some(v) => v,
            None => {
                return Err("ARM64 chained pointer chain overflows".to_owned());
            },
        };
        if following >= page_end {
            return Err("ARM64 chained pointer escapes its page".to_owned());
        }
        chain_offset = following;
    }
    Ok(())
}

/// `s`, sorted by address, with `x` placed after every binding whose
/// address is not above its own.
pub open spec fn insert_by_address(s: Seq<Binding64>, x: Binding64) -> Seq<Binding64>
    decreases s.len(),
{
    if s.len() == 0 || s.last().address <= x.address {
        s.push(x)
    } else {
        insert_by_address(s.drop_last(), x).push(s.last())
    }
}

/// `s` sorted by address, bindings at the same address keeping their
/// order (a stable sort).
pub open spec fn sort_by_address(s: Seq<Binding64>) -> Seq<Binding64>
    decreases s.len(),
{
    if s.len() == 0 {
        s
    } else {
        insert_by_address(sort_by_address(s.drop_last()), s.last())
    }
}

/// Whether two bindings are the same: address, symbol and addend.
pub open spec fn same_binding(a: Binding64, b: Binding64) -> bool {
    a.address == b.address && a.symbol@ == b.symbol@ && a.addend == b.addend
}

/// `s` with each binding that is the same as the one kept before it
/// dropped.
pub open spec fn dedup_bindings(s: Seq<Binding64>) -> Seq<Binding64>
    decreases s.len(),
{
    if s.len() == 0 {
        s
    } else {
        let kept = dedup_bindings(s.drop_last());
        if kept.len() > 0 && same_binding(kept.last(), s.last()) {
            kept
        } else {
            kept.push(s.last())
        }
    }
}

/// Inserting after the last binding at or below `x`'s address.
proof fn lemma_insert_at(s: Seq<Binding64>, x: Binding64, pos: int)
    requires
        0 <= pos <= s.len(),
        forall|k: int| pos <= k < s.len() ==> s[k].address > x.address,
        pos > 0 ==> s[pos - 1].address <= x.address,
    ensures
        insert_by_address(s, x) == s.subrange(0, pos).push(x) + s.subrange(pos, s.len() as int),
    decreases s.len(),
{
    if pos == s.len() {
        assert(s.subrange(0, pos) =~= s);
        assert(s.subrange(pos, s.len() as int) =~= Seq::<Binding64>::empty());
        assert(s.subrange(0, pos).push(x) + Seq::<Binding64>::empty() =~= s.push(x));
    } else {
        let t = s.drop_last();
        lemma_insert_at(t, x, pos);
        assert(t.subrange(0, pos) =~= s.subrange(0, pos));
        assert((t.subrange(0, pos).push(x) + t.subrange(pos, t.len() as int)).push(s.last())
            =~= s.subrange(0, pos).push(x) + s.subrange(pos, s.len() as int));
    }
}

/// Inserts `x` after the bindings at or below its address.
fn insert_binding(out: &mut Vec<Binding64>, x: Binding64)
    ensures
        final(out)@ == insert_by_address(old(out)@, x),
{
    let mut pos = out.len();
    while pos > 0 && out[pos - 1].address > x.address
        invariant
            0 <= pos <= out@.len(),
            out@ == old(out)@,
            forall|k: int| pos <= k < out@.len() ==> out@[k].address > x.address,
        decreases pos,
    {
        pos = pos - 1;
    }
    proof {
        lemma_insert_at(out@, x, pos as int);
    }
    let ghost before = out@;
    out.insert(pos, x);
    assert(out@ =~= before.subrange(0, pos as int).push(x) + before.subrange(pos as int, before.len() as int));
}

/// Sorts the bindings by address, keeping the order of those at the same
/// address.
pub fn sort_bindings(v: Vec<Binding64>) -> (r: Vec<Binding64>)
    ensures
        r@ == sort_by_address(v@),
{
    let ghost all = v@;
    let mut rest = v;
    let mut out: Vec<Binding64> = Vec::new();
    let mut taken: usize = 0;
    assert(all.subrange(0, 0) =~= Seq::<Binding64>::empty());
    assert(all.len() == rest.len());
    while rest.len() > 0
        invariant
            all.len() <= usize::MAX,
            taken + rest@.len() == all.len(),
            rest@ == all.subrange(taken as int, all.len() as int),
            out@ == sort_by_address(all.subrange(0, taken as int)),
        decreases rest.len(),
    {
        let x = rest.remove(0);
        proof {
            assert(all.subrange(0, taken as int + 1).drop_last() =~= all.subrange(0, taken as int));
            assert(x == all[taken as int]);
        }
        insert_binding(&mut out, x);
        taken = taken + 1;
        assert(rest@ =~= all.subrange(taken as int, all.len() as int));
    }
    assert(all.subrange(0, taken as int) =~= all);
    out
}

/// Drops each binding that is the same as the one kept before it.
pub fn dedup_sorted_bindings(v: Vec<Binding64>) -> (r: Vec<Binding64>)
    ensures
        r@ == dedup_bindings(v@),
{
    let ghost all = v@;
    let mut rest = v;
    let mut out: Vec<Binding64> = Vec::new();
    let mut taken: usize = 0;
    assert(all.subrange(0, 0) =~= Seq::<Binding64>::empty());
    assert(all.len() == rest.len());
    while rest.len() > 0
        invariant
            all.len() <= usize::MAX,
            taken + rest@.len() == all.len(),
            rest@ == all.subrange(taken as int, all.len() as int),
            out@ == dedup_bindings(all.subrange(0, taken as int)),
        decreases rest.len(),
    {
        let x = rest.remove(0);
        proof {
            assert(all.subrange(0, taken as int + 1).drop_last() =~= all.subrange(0, taken as int));
            assert(x == all[taken as int]);
        }
        let n = out.len();
        let same = n > 0 && out[n - 1].address == x.address && crate::text::str_eq(
            out[n - 1].symbol.as_str(),
            x.symbol.as_str(),
        ) && out[n - 1].addend == x.addend;
        if !same {
            out.push(x);
        }
        taken = taken + 1;
        assert(rest@ =~= all.subrange(taken as int, all.len() as int));
    }
    assert(all.subrange(0, taken as int) =~= all);
    out
}

/// `CPU_TYPE_ARM64`.
pub const CPU_TYPE_ARM64: i32 = 0x0100_000c;

/// What a parsed file is: a Mach-O image (its CPU type, whether it is
/// 64-bit and big-endian, and how many load commands it has), a fat file
/// (for each slice its CPU type, offset and size), or something else.
pub enum FileParts {
    Mach { cputype: i32, is_64bit: bool, is_bigend: bool, ncmds: usize },
    Fat(Vec<(i32, u64, u64)>),
    Other,
}

/// A parsed file as the contracts speak of it.
pub enum FilePartsView {
    Mach { cputype: i32, is_64bit: bool, is_bigend: bool, ncmds: usize },
    Fat(Seq<(i32, u64, u64)>),
    Other,
}

impl View for FileParts {
    type V = FilePartsView;

    open spec fn view(&self) -> FilePartsView {
        match self {
            FileParts::Mach { cputype, is_64bit, is_bigend, ncmds } => FilePartsView::Mach {
                cputype: *cputype,
                is_64bit: *is_64bit,
                is_bigend: *is_bigend,
                ncmds: *ncmds,
            },
            FileParts::Fat(v) => FilePartsView::Fat(v@),
            FileParts::Other => FilePartsView::Other,
        }
    }
}

/// A section as its load command describes it.
pub struct SectionInfo {
    pub sectname: String,
    pub addr: u64,
    pub size: u64,
}

/// An `LC_SEGMENT_64` load command.
pub struct SegmentCommand {
    pub segname: String,
    pub vmaddr: u64,
    pub vmsize: u64,
    pub fileoff: u64,
    pub filesize: u64,
    pub maxprot: i32,
    pub initprot: i32,
    pub sections: Vec<SectionInfo>,
}

/// An `LC_SEGMENT_64` as the contracts speak of it; each section is its
/// name, address and size.
pub struct SegmentView {
    pub segname: Seq<char>,
    pub vmaddr: u64,
    pub vmsize: u64,
    pub fileoff: u64,
    pub filesize: u64,
    pub maxprot: i32,
    pub initprot: i32,
    pub sections: Seq<(Seq<char>, u64, u64)>,
}

impl View for SegmentCommand {
    type V = SegmentView;

    open spec fn view(&self) -> SegmentView {
        SegmentView {
            segname: self.segname@,
            vmaddr: self.vmaddr,
            vmsize: self.vmsize,
            fileoff: self.fileoff,
            filesize: self.filesize,
            maxprot: self.maxprot,
            initprot: self.initprot,
            sections: self.sections@.map_values(|x: SectionInfo| (x.sectname@, x.addr, x.size)),
        }
    }
}

/// The load commands that point at tables in the file.
#[derive(Clone, Copy)]
pub enum TableCommand {
    SymTab { symoff: u32, nsyms: u32, stroff: u32, strsize: u32 },
    ChainedFixups { off: u32, size: u32 },
}

/// An `LC_DYLD_INFO` load command: where the four opcode tables lie.
#[derive(Clone, Copy)]
pub struct DyldInfo {
    pub rebase_off: u32,
    pub rebase_size: u32,
    pub bind_off: u32,
    pub bind_size: u32,
    pub weak_bind_off: u32,
    pub weak_bind_size: u32,
    pub lazy_bind_off: u32,
    pub lazy_bind_size: u32,
}

/// The load commands that name libraries, encryption and the entry point.
pub enum StartCommand {
    LoadDylib(String),
    Encryption { id: u32 },
    EntryPoint { entryoff: u64 },
    Arm64Thread { pc: u64 },
}

/// A library, encryption or entry point command as the contracts speak of
/// it.
pub enum StartView {
    LoadDylib(Seq<char>),
    Encryption { id: u32 },
    EntryPoint { entryoff: u64 },
    Arm64Thread { pc: u64 },
}

impl View for StartCommand {
    type V = StartView;

    open spec fn view(&self) -> StartView {
        match self {
            StartCommand::LoadDylib(name) => StartView::LoadDylib(name@),
            StartCommand::Encryption { id } => StartView::Encryption { id: *id },
            StartCommand::EntryPoint { entryoff } => StartView::EntryPoint { entryoff: *entryoff },
            StartCommand::Arm64Thread { pc } => StartView::Arm64Thread { pc: *pc },
        }
    }
}

/// A rebase of the dyld rebase table.
#[derive(Clone, Copy)]
pub struct RebaseEntry {
    pub pointer: bool,
    pub segment_index: usize,
    pub symbol_offset: i64,
}

/// A lazy bind of the dyld lazy bind table.
pub struct LazyBindEntry {
    pub segment_index: usize,
    pub symbol_offset: i64,
    pub name: String,
}

/// A bind of the dyld bind tables.
pub struct BindEntry {
    pub pointer: bool,
    pub segment_index: usize,
    pub symbol_offset: i64,
    pub name: String,
    pub addend: u64,
}

/// A bind as the contracts speak of it.
pub open spec fn bind_view(b: BindEntry) -> (bool, usize, i64, Seq<char>, u64) {
    (b.pointer, b.segment_index, b.symbol_offset, b.name@, b.addend)
}

/// What `OFile::parse` of `mach_object` reads from `bytes`: the shape of
/// the file, or the parser's error message.
pub uninterp spec fn parsed_file(bytes: Seq<u8>) -> Result<FilePartsView, Seq<char>>;

/// The `LC_SEGMENT_64` that the `i`th load command read from `bytes` is,
/// if it is one.
pub uninterp spec fn segment_read(bytes: Seq<u8>, i: int) -> Option<SegmentView>;

/// The symbol table or chained fixups command that the `i`th load command
/// read from `bytes` is, if it is one.
pub uninterp spec fn table_read(bytes: Seq<u8>, i: int) -> Option<TableCommand>;

/// The `LC_DYLD_INFO` that the `i`th load command read from `bytes` is, if
/// it is one.
pub uninterp spec fn dyld_info_read(bytes: Seq<u8>, i: int) -> Option<DyldInfo>;

/// The library, encryption or entry point command that the `i`th load
/// command read from `bytes` is, if it is one.
pub uninterp spec fn start_read(bytes: Seq<u8>, i: int) -> Option<StartView>;

/// `OFile::parse` on `bytes`: a Mach-O file gives its header's CPU type,
/// `MachHeader::is_64bit`, `MachHeader::is_bigend` and its number of load
/// commands; a fat file each architecture's CPU type, offset and size.
/// Claimed: the result is a function of the bytes alone. The parser
/// subtracts load command offsets without a check and reads archives with
/// their own arithmetic, so only a file that passes
/// [header_check::parse_ok] is admitted.
#[verifier::external_body]
pub(crate) fn read_file(bytes: &[u8]) -> (r: Result<FileParts, String>)
    requires
        header_check::parse_ok(bytes@),
    ensures
        match r {
            Ok(p) => parsed_file(bytes@) == Ok::<FilePartsView, Seq<char>>(p@),
            Err(e) => parsed_file(bytes@) == Err::<FilePartsView, Seq<char>>(e@),
        },
{
    match OFile::parse(&mut std::io::Cursor::new(bytes)) {
        Ok(OFile::MachFile { header, commands }) => Ok(FileParts::Mach {
            cputype: header.cputype, is_64bit: header.is_64bit(), is_bigend: header.is_bigend(), ncmds: commands.len(),
        }),
        Ok(OFile::FatFile { files, .. }) => Ok(FileParts::Fat(files.iter().map(|(a, _)| (a.cputype, a.offset, a.size)).collect())),
        Ok(_) => Ok(FileParts::Other),
        Err(e) => Err(e.to_string()),
    }
}

/// The fields of the `i`th load command that `OFile::parse` reads from
/// `bytes`, where it is a `LoadCommand::Segment64`, with its sections.
/// Claimed: the result is a function of the bytes and `i` alone.
#[verifier::external_body]
pub(crate) fn segment_command(bytes: &[u8], i: usize) -> (r: Option<SegmentCommand>)
    requires
        header_check::parse_ok(bytes@),
    ensures
        segment_read(bytes@, i as int) == match r { Some(c) => Some(c@), None => None },
{
    match OFile::parse(&mut std::io::Cursor::new(bytes)) {
        Ok(OFile::MachFile { commands, .. }) => match commands.get(i).map(|c| &c.0) {
            Some(LoadCommand::Segment64 { segname, vmaddr, vmsize, fileoff, filesize, maxprot, initprot, sections, .. }) => Some(SegmentCommand {
                segname: segname.clone(), vmaddr: *vmaddr as u64, vmsize: *vmsize as u64, fileoff: *fileoff as u64, filesize: *filesize as u64, maxprot: *maxprot, initprot: *initprot,
                sections: sections.iter().map(|s| SectionInfo { sectname: s.sectname.clone(), addr: s.addr as u64, size: s.size as u64 }).collect(),
            }),
            _ => None,
        },
        _ => None,
    }
}

/// The fields of the `i`th load command that `OFile::parse` reads from
/// `bytes`, where it is a `LoadCommand::SymTab` or
/// `LoadCommand::DyldChainedFixups`. Claimed: the result is a function of
/// the bytes and `i` alone.
#[verifier::external_body]
pub(crate) fn table_command(bytes: &[u8], i: usize) -> (r: Option<TableCommand>)
    requires
        header_check::parse_ok(bytes@),
    ensures
        r == table_read(bytes@, i as int),
{
    match OFile::parse(&mut std::io::Cursor::new(bytes)) {
        Ok(OFile::MachFile { commands, .. }) => match commands.get(i).map(|c| &c.0) {
            Some(LoadCommand::SymTab { symoff, nsyms, stroff, strsize }) => Some(TableCommand::SymTab {
                symoff: *symoff, nsyms: *nsyms, stroff: *stroff, strsize: *strsize,
            }),
            Some(LoadCommand::DyldChainedFixups(data)) => Some(TableCommand::ChainedFixups { off: data.off, size: data.size }),
            _ => None,
        },
        _ => None,
    }
}

/// The fields of the `i`th load command that `OFile::parse` reads from
/// `bytes`, where it is a `LoadCommand::DyldInfo`. Claimed: the result is a
/// function of the bytes and `i` alone.
#[verifier::external_body]
pub(crate) fn dyld_info_command(bytes: &[u8], i: usize) -> (r: Option<DyldInfo>)
    requires
        header_check::parse_ok(bytes@),
    ensures
        r == dyld_info_read(bytes@, i as int),
{
    match OFile::parse(&mut std::io::Cursor::new(bytes)) {
        Ok(OFile::MachFile { commands, .. }) => match commands.get(i).map(|c| &c.0) {
            Some(LoadCommand::DyldInfo { rebase_off, rebase_size, bind_off, bind_size, weak_bind_off, weak_bind_size, lazy_bind_off, lazy_bind_size, .. }) => Some(DyldInfo {
                rebase_off: *rebase_off, rebase_size: *rebase_size, bind_off: *bind_off, bind_size: *bind_size,
                weak_bind_off: *weak_bind_off, weak_bind_size: *weak_bind_size, lazy_bind_off: *lazy_bind_off, lazy_bind_size: *lazy_bind_size,
            }),
            _ => None,
        },
        _ => None,
    }
}

/// The fields of the `i`th load command that `OFile::parse` reads from
/// `bytes`, where it is a `LoadCommand::LoadDyLib`, `EncryptionInfo64`,
/// `EntryPoint` or ARM64 `UnixThread`. Claimed: the result is a function
/// of the bytes and `i` alone.
#[verifier::external_body]
pub(crate) fn start_command(bytes: &[u8], i: usize) -> (r: Option<StartCommand>)
    requires
        header_check::parse_ok(bytes@),
    ensures
        start_read(bytes@, i as int) == match r { Some(c) => Some(c@), None => None },
{
    match OFile::parse(&mut std::io::Cursor::new(bytes)) {
        Ok(OFile::MachFile { commands, .. }) => match commands.get(i).map(|c| &c.0) {
            Some(LoadCommand::LoadDyLib(lib)) => Some(StartCommand::LoadDylib(lib.name.to_string())),
            Some(LoadCommand::EncryptionInfo64 { id, .. }) => Some(StartCommand::Encryption { id: *id }),
            Some(LoadCommand::EntryPoint { entryoff, .. }) => Some(StartCommand::EntryPoint { entryoff: *entryoff }),
            Some(LoadCommand::UnixThread { state: ThreadState::Arm64 { __pc, .. }, .. }) => Some(StartCommand::Arm64Thread { pc: *__pc }),
            _ => None,
        },
        _ => None,
    }
}

/// The rebases that `mach_object::Rebase::parse` reads from a rebase
/// opcode stream, for 8-byte pointers.
pub uninterp spec fn rebase_table(payload: Seq<u8>) -> Seq<(bool, usize, i64)>;

/// The binds that `mach_object::Bind::parse` reads from a bind opcode
/// stream, for 8-byte pointers.
pub uninterp spec fn bind_table(payload: Seq<u8>) -> Seq<(bool, usize, i64, Seq<char>, u64)>;

/// The binds that `mach_object::WeakBind::parse` reads.
pub uninterp spec fn weak_bind_table(payload: Seq<u8>) -> Seq<(bool, usize, i64, Seq<char>, u64)>;

/// The binds that `mach_object::LazyBind::parse` reads: for each, its
/// segment, its offset and its symbol's name.
pub uninterp spec fn lazy_bind_table(payload: Seq<u8>) -> Seq<(usize, i64, Seq<char>)>;

/// Lazy binds as binds: each of pointer type, with no addend.
pub open spec fn lazy_as_binds(s: Seq<(usize, i64, Seq<char>)>) -> Seq<(bool, usize, i64, Seq<char>, u64)> {
    s.map_values(|e: (usize, i64, Seq<char>)| (true, e.0, e.1, e.2, 0u64))
}

/// The entries that `SymbolIter` reads from a symbol table of `nsyms`
/// 64-bit little-endian entries at `symoff`, with the strings of `strsize`
/// bytes at `stroff`, stopping at the first entry it cannot read: for
/// each, whether it is a defined symbol, and then its name and value.
pub uninterp spec fn symbol_table(image: Seq<u8>, symoff: u32, nsyms: u32, stroff: u32, strsize: u32) -> Seq<(bool, Option<Seq<char>>, u64)>;

/// A symbol table entry as the contracts speak of it.
pub open spec fn symbol_view(e: (bool, Option<String>, u64)) -> (bool, Option<Seq<char>>, u64) {
    (e.0, match e.1 { Some(s) => Some(s@), None => None }, e.2)
}

/// `Rebase::parse(payload, 8)`: each rebase, whether its type is a pointer,
/// its segment and its offset. Claimed: the list is a function of the
/// payload alone. The iterator adds to its `isize` offset without a check,
/// so only a stream whose offsets all fit is admitted.
#[verifier::external_body]
fn rebase_entries(payload: &[u8]) -> (r: Vec<RebaseEntry>)
    requires
        rebase_stream_ok(payload@),
    ensures
        r@.map_values(|e: RebaseEntry| (e.pointer, e.segment_index, e.symbol_offset)) == rebase_table(payload@),
{
    Rebase::parse(payload, 8).map(|e| RebaseEntry {
        pointer: e.symbol_type == BindSymbolType::Pointer, segment_index: e.segment_index, symbol_offset: e.symbol_offset as i64,
    }).collect()
}

/// `Bind::parse(payload, 8)`. Claimed: the list is a function of the
/// payload alone. The iterator adds to its `isize` offset without a check,
/// so only a stream whose offsets all fit is admitted.
#[verifier::external_body]
fn bind_entries(payload: &[u8]) -> (r: Vec<BindEntry>)
    requires
        bind_stream_ok(payload@, 0),
    ensures
        r@.map_values(|b: BindEntry| bind_view(b)) == bind_table(payload@),
{
    Bind::parse(payload, 8).map(|e| BindEntry {
        pointer: e.symbol_type == BindSymbolType::Pointer, segment_index: e.segment_index,
        symbol_offset: e.symbol_offset as i64, name: e.name, addend: e.addend as u64,
    }).collect()
}

/// `WeakBind::parse(payload, 8)`. Claimed: the list is a function of the
/// payload alone. The iterator adds to its `isize` offset without a check,
/// so only a stream whose offsets all fit is admitted.
#[verifier::external_body]
fn weak_bind_entries(payload: &[u8]) -> (r: Vec<BindEntry>)
    requires
        bind_stream_ok(payload@, 1),
    ensures
        r@.map_values(|b: BindEntry| bind_view(b)) == weak_bind_table(payload@),
{
    WeakBind::parse(payload, 8).map(|e| BindEntry {
        pointer: e.symbol_type == BindSymbolType::Pointer, segment_index: e.segment_index,
        symbol_offset: e.symbol_offset as i64, name: e.name, addend: e.addend as u64,
    }).collect()
}

/// `LazyBind::parse(payload, 8)`: each lazy bind's segment, offset and
/// name. Claimed: the list is a function of the payload alone. The
/// iterator adds to its `isize` offset without a check, so only a stream
/// whose offsets all fit is admitted.
#[verifier::external_body]
fn lazy_bind_entries(payload: &[u8]) -> (r: Vec<LazyBindEntry>)
    requires
        bind_stream_ok(payload@, 2),
    ensures
        r@.map_values(|e: LazyBindEntry| (e.segment_index, e.symbol_offset, e.name@)) == lazy_bind_table(payload@),
{
    LazyBind::parse(payload, 8).map(|e| LazyBindEntry {
        segment_index: e.segment_index, symbol_offset: e.symbol_offset as i64, name: e.name,
    }).collect()
}

/// The lazy binds `v` as binds: a lazy bind is always of pointer type and
/// has no addend.
pub fn lazy_binds(v: Vec<LazyBindEntry>) -> (r: Vec<BindEntry>)
    ensures
        r@.map_values(|b: BindEntry| bind_view(b)) == lazy_as_binds(
            v@.map_values(|e: LazyBindEntry| (e.segment_index, e.symbol_offset, e.name@)),
        ),
{
    let ghost src = v@.map_values(|e: LazyBindEntry| (e.segment_index, e.symbol_offset, e.name@));
    assert forall|j: int| 0 <= j < v@.len() implies {
        let e = #[trigger] v@[j];
        (e.segment_index, e.symbol_offset, e.name@) == src[0 + j]
    } by {}
    let mut out: Vec<BindEntry> = Vec::new();
    let mut rest = v;
    let mut k: usize = 0;
    let n = rest.len();
    while rest.len() > 0
        invariant
            k + rest@.len() == n,
            n == src.len(),
            forall|j: int| 0 <= j < rest@.len() ==> {
                let e = #[trigger] rest@[j];
                (e.segment_index, e.symbol_offset, e.name@) == src[k + j]
            },
            out@.map_values(|b: BindEntry| bind_view(b)) == lazy_as_binds(src.subrange(0, k as int)),
        decreases rest.len(),
    {
        let ghost before = rest@;
        let e = rest.remove(0);
        assert(before[0] == e);
        assert forall|j: int| 0 <= j < rest@.len() implies {
            let x = #[trigger] rest@[j];
            (x.segment_index, x.symbol_offset, x.name@) == src[k + 1 + j]
        } by {
            assert(rest@[j] == before[j + 1]);
        }
        let ghost prev = out@.map_values(|b: BindEntry| bind_view(b));
        out.push(BindEntry {
            pointer: true,
            segment_index: e.segment_index,
            symbol_offset: e.symbol_offset,
            name: e.name,
            addend: 0,
        });
        assert(out@.map_values(|b: BindEntry| bind_view(b)) =~= prev.push(
            (true, src[k as int].0, src[k as int].1, src[k as int].2, 0u64),
        ));
        assert(lazy_as_binds(src.subrange(0, k + 1)) =~= lazy_as_binds(src.subrange(0, k as int)).push(
            (true, src[k as int].0, src[k as int].1, src[k as int].2, 0u64),
        ));
        k = k + 1;
    }
    assert(src.subrange(0, k as int) =~= src);
    out
}

/// The entries that `SymbolIter` reads from the symbol table, 64-bit and
/// little-endian, starting at `symoff`: a `Symbol::Defined` gives its name
/// and value, any other variant `(false, None, 0)`. The sections that the
/// iterator is given only decide which section a symbol is reported in,
/// which is not kept, so it is given none. Claimed: the list is a function
/// of the arguments alone. A name's offset is below `strsize`, and the
/// iterator slices the file from `stroff` plus that offset on, so the
/// table must end at most one byte past the file, else it can index past
/// it.
#[verifier::external_body]
fn symbol_entries(image: &[u8], symoff: u32, nsyms: u32, stroff: u32, strsize: u32) -> (r: Vec<(bool, Option<String>, u64)>)
    requires
        stroff + strsize <= image@.len() + 1,
    ensures
        r@.map_values(|e: (bool, Option<String>, u64)| symbol_view(e)) == symbol_table(image@, symoff, nsyms, stroff, strsize),
{
    let mut cursor = std::io::Cursor::new(image);
    cursor.set_position(symoff as u64);
    SymbolIter::new(&mut cursor, Vec::new(), nsyms, stroff, strsize, false, true).map(|symbol| match symbol {
        Symbol::Defined { name, entry, .. } => (true, name.map(|n| n.to_string()), entry as u64),
        _ => (false, None, 0),
    }).collect()
}

} // verus!
