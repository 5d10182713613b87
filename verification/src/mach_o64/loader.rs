//! Putting a 64-bit image together: choosing the ARM64 slice of a fat
//! file, checking the header, and gathering what the load commands say.
use super::{
    add_signed, add_signed_spec, bind_entries, bind_table, rebase_table, binding_view, command_bytes,
    command_range_error, copy_string, dyld_info_command, lazy_as_binds, lazy_bind_entries, lazy_bind_table, lazy_binds,
    rebase_entries, segment_command, start_command, table_command, weak_bind_entries,
    weak_bind_table, parse_chained_fixups, read_file, symbol_entries, symbol_table,
    symbol_view, sort_bindings, dedup_sorted_bindings, sort_by_address, dedup_bindings,
    parsed_file, segment_read, table_read, dyld_info_read, start_read,
    Architecture, MachO64, FileParts, FilePartsView, BindEntry, Binding64, chained_fixups_spec, chained_header_error, fixup_bindings, DyldInfo, FixupState,
    RebaseEntry, Section64, SegmentCommand, SegmentView, StartCommand, StartView, TableCommand, CPU_TYPE_ARM64,
};
use crate::mem64::{
    bytes_at, floor_index, overlaps, range_ok, write_spec, zeros, Mem64, Permissions, RegionView,
};
use vstd::bytes::{spec_u64_from_le_bytes, spec_u64_to_le_bytes};
use vstd::string::{StrSliceExecFns, StringExecFns};
use crate::mach_o64::opcodes::{bind_stream_ok, check_bind_stream, check_rebase_stream, rebase_stream_ok};
use crate::mach_o64::header_check::{check_parse, is_archive, parse_ok, starts_as_archive};
use vstd::prelude::*;

verus! {

/// The first slice of a fat file whose CPU type is ARM64, if any.
pub open spec fn first_arm64(cputypes: Seq<i32>) -> Option<int>
    decreases cputypes.len(),
{
    if cputypes.len() == 0 {
        None
    } else {
        match first_arm64(cputypes.drop_last()) {
            Some(i) => Some(i),
            None => if cputypes.last() == CPU_TYPE_ARM64 {
                Some(cputypes.len() - 1)
            } else {
                None
            },
        }
    }
}

/// The byte range of a fat slice at `offset` of `size` bytes in a file of
/// `len` bytes, or why it does not fit.
pub open spec fn slice_range(len: int, offset: u64, size: u64) -> Result<(int, int), Seq<char>> {
    if offset > usize::MAX {
        Err("ARM64 fat slice offset is too large"@)
    } else if size > usize::MAX {
        Err("ARM64 fat slice size is too large"@)
    } else if offset + size > usize::MAX {
        Err("ARM64 fat slice range overflows"@)
    } else if offset + size > len {
        Err("ARM64 fat slice extends past the file"@)
    } else {
        Ok((offset as int, offset + size))
    }
}

/// The slice of a fat file to load: the index of the first ARM64 slice and
/// its byte range, given each slice's CPU type, offset and size.
pub open spec fn fat_choice(len: int, slices: Seq<(i32, u64, u64)>) -> Result<(int, int, int), Seq<char>> {
    match first_arm64(slices.map_values(|s: (i32, u64, u64)| s.0)) {
        None => Err("fat binary has no ARM64 slice"@),
        Some(i) => match slice_range(len, slices[i].1, slices[i].2) {
            Err(m) => Err(m),
            Ok((start, end)) => Ok((i, start, end)),
        },
    }
}

proof fn lemma_first_arm64_step(c: Seq<i32>, i: int)
    requires
        0 <= i < c.len(),
        forall|k: int| 0 <= k < i ==> c[k] != CPU_TYPE_ARM64,
    ensures
        c[i] == CPU_TYPE_ARM64 ==> first_arm64(c) == Some(i),
        c[i] != CPU_TYPE_ARM64 ==> first_arm64(c.subrange(0, i + 1)) is None,
    decreases c.len(),
{
    if c.len() - 1 > i {
        lemma_first_arm64_step(c.drop_last(), i);
        assert(c.drop_last().subrange(0, i + 1) =~= c.subrange(0, i + 1));
    } else {
        lemma_first_arm64_none(c.drop_last());
        assert(c.subrange(0, i + 1) =~= c);
    }
}

proof fn lemma_first_arm64_none(c: Seq<i32>)
    requires
        forall|k: int| 0 <= k < c.len() ==> c[k] != CPU_TYPE_ARM64,
    ensures
        first_arm64(c) is None,
    decreases c.len(),
{
    if c.len() > 0 {
        lemma_first_arm64_none(c.drop_last());
    }
}

/// Chooses the slice of a fat file to load, given the file's length and
/// each slice's CPU type, offset and size: the first ARM64 one, which
/// must lie within the file. The result is its index and byte range.
pub fn choose_fat_slice(len: usize, slices: &Vec<(i32, u64, u64)>) -> (r: Result<(usize, usize, usize), String>)
    ensures
        match fat_choice(len as int, slices@) {
            Ok((i, start, end)) => r matches Ok((ri, rs, re)) && ri == i && rs == start && re == end,
            Err(m) => r matches Err(e) && e@ == m,
        },
{
    let ghost cputypes = slices@.map_values(|s: (i32, u64, u64)| s.0);
    let mut i: usize = 0;
    while i < slices.len()
        invariant
            i <= slices@.len(),
            cputypes == slices@.map_values(|s: (i32, u64, u64)| s.0),
            forall|k: int| 0 <= k < i ==> cputypes[k] != CPU_TYPE_ARM64,
        decreases slices.len() - i,
    {
        if slices[i].0 == CPU_TYPE_ARM64 {
            proof {
                lemma_first_arm64_step(cputypes, i as int);
            }
            let offset = slices[i].1;
            let size = slices[i].2;
            if offset > usize::MAX as u64 {
                return Err("ARM64 fat slice offset is too large".to_owned());
            }
            if size > usize::MAX as u64 {
                return Err("ARM64 fat slice size is too large".to_owned());
            }
            let start = offset as usize;
            let end = match start.checked_add(size as usize) {
                Some(e) => e,
                None => {
                    return Err("ARM64 fat slice range overflows".to_owned());
                },
            };
            if end > len {
                return Err("ARM64 fat slice extends past the file".to_owned());
            }
            return Ok((i, start, end));
        }
        i = i + 1;
    }
    proof {
        lemma_first_arm64_none(cputypes);
    }
    Err("fat binary has no ARM64 slice".to_owned())
}

/// Why a Mach-O header cannot be loaded here, if it cannot.
pub open spec fn header_error(cputype: i32, is_64bit: bool, is_bigend: bool) -> Option<Seq<char>> {
    if cputype != CPU_TYPE_ARM64 || !is_64bit {
        Some("Mach-O is not an ARM64 64-bit image"@)
    } else if is_bigend {
        Some("ARM64 Mach-O is big-endian"@)
    } else {
        None
    }
}

/// Accepts only little-endian 64-bit ARM64 images.
pub fn check_header(cputype: i32, is_64bit: bool, is_bigend: bool) -> (r: Result<(), String>)
    ensures
        match header_error(cputype, is_64bit, is_bigend) {
            Some(m) => r matches Err(e) && e@ == m,
            None => r is Ok,
        },
{
    if cputype != CPU_TYPE_ARM64 || !is_64bit {
        return Err("Mach-O is not an ARM64 64-bit image".to_owned());
    }
    if is_bigend {
        return Err("ARM64 Mach-O is big-endian".to_owned());
    }
    Ok(())
}

/// The binding a bind of the dyld tables makes, if it makes one: binds of
/// other than pointer type make none; the segment must exist, and the
/// address is the segment's base moved by the bind's offset.
pub open spec fn bind_target(
    e: (bool, usize, i64, Seq<char>, u64),
    bases: Seq<u64>,
    invalid: Seq<char>,
) -> Result<Option<(u64, Seq<char>, i64)>, Seq<char>> {
    if !e.0 {
        Ok(None)
    } else if e.1 >= bases.len() {
        Err(invalid)
    } else {
        match add_signed_spec(bases[e.1 as int], e.2) {
            Ok(a) => Ok(Some((a, e.3, e.4 as i64))),
            Err(m) => Err(m),
        }
    }
}

/// The bindings a list of binds makes, in order, or the first error.
pub open spec fn binds_from(
    es: Seq<(bool, usize, i64, Seq<char>, u64)>,
    bases: Seq<u64>,
    invalid: Seq<char>,
) -> Result<Seq<(u64, Seq<char>, i64)>, Seq<char>>
    decreases es.len(),
{
    if es.len() == 0 {
        Ok(seq![])
    } else {
        match binds_from(es.drop_last(), bases, invalid) {
            Err(m) => Err(m),
            Ok(acc) => match bind_target(es.last(), bases, invalid) {
                Err(m) => Err(m),
                Ok(None) => Ok(acc),
                Ok(Some(b)) => Ok(acc.push(b)),
            },
        }
    }
}

/// Once a prefix of the binds fails, the whole list fails the same way.
proof fn lemma_binds_error_extends(
    es: Seq<(bool, usize, i64, Seq<char>, u64)>,
    bases: Seq<u64>,
    invalid: Seq<char>,
    k: int,
)
    requires
        0 <= k <= es.len(),
        binds_from(es.subrange(0, k), bases, invalid) is Err,
    ensures
        binds_from(es, bases, invalid) == binds_from(es.subrange(0, k), bases, invalid),
    decreases es.len(),
{
    if k == es.len() {
        assert(es.subrange(0, k) =~= es);
    } else {
        assert(es.drop_last().subrange(0, k) =~= es.subrange(0, k));
        lemma_binds_error_extends(es.drop_last(), bases, invalid, k);
    }
}

/// Appends the bindings that `entries` make to `bindings`; `invalid` is
/// the message for a bind whose segment does not exist.
pub fn collect_binds(
    entries: &Vec<BindEntry>,
    bases: &[u64],
    invalid: &str,
    bindings: &mut Vec<Binding64>,
) -> (r: Result<(), String>)
    ensures
        match binds_from(entries@.map_values(|b: BindEntry| super::bind_view(b)), bases@, invalid@) {
            Ok(bs) => r is Ok && final(bindings)@.map_values(|b: Binding64| binding_view(b))
                == old(bindings)@.map_values(|b: Binding64| binding_view(b)) + bs,
            Err(m) => r matches Err(e) && e@ == m,
        },
{
    let ghost es = entries@.map_values(|b: BindEntry| super::bind_view(b));
    let ghost start = bindings@.map_values(|b: Binding64| binding_view(b));
    let mut i: usize = 0;
    assert(es.subrange(0, 0) =~= Seq::<(bool, usize, i64, Seq<char>, u64)>::empty());
    assert(start + seq![] =~= start);
    while i < entries.len()
        invariant
            i <= entries@.len(),
            es == entries@.map_values(|b: BindEntry| super::bind_view(b)),
            start == old(bindings)@.map_values(|b: Binding64| binding_view(b)),
            binds_from(es.subrange(0, i as int), bases@, invalid@) matches Ok(acc)
                && bindings@.map_values(|b: Binding64| binding_view(b)) == start + acc,
        decreases entries.len() - i,
    {
        let ghost prefix = es.subrange(0, i as int);
        assert(es.subrange(0, i + 1).drop_last() =~= prefix);
        assert(es.subrange(0, i + 1).last() == es[i as int]);
        let entry = &entries[i];
        if entry.pointer {
            if entry.segment_index >= bases.len() {
                proof {
                    lemma_binds_error_extends(es, bases@, invalid@, i + 1);
                }
                return Err(invalid.to_owned());
            }
            let address = match add_signed(bases[entry.segment_index], entry.symbol_offset) {
                Ok(a) => a,
                Err(e) => {
                    proof {
                        lemma_binds_error_extends(es, bases@, invalid@, i + 1);
                    }
                    return Err(e);
                },
            };
            let ghost before = bindings@;
            bindings.push(Binding64 { address, symbol: copy_string(&entry.name), addend: entry.addend as i64 });
            proof {
                let acc = binds_from(prefix, bases@, invalid@)->Ok_0;
                assert(bindings@.map_values(|b: Binding64| binding_view(b)) =~= before.map_values(
                    |b: Binding64| binding_view(b),
                ).push(binding_view(bindings@.last())));
                assert(start + acc.push((address, entry.name@, entry.addend as i64)) =~= (start + acc).push(
                    (address, entry.name@, entry.addend as i64),
                ));
            }
        }
        i = i + 1;
    }
    assert(es.subrange(0, i as int) =~= es);
    Ok(())
}

/// The defined symbols of a symbol table, as `(name, value)` pairs in
/// table order: entries that are not defined, or have no name, give none.
pub open spec fn defined_names(
    table: Seq<(bool, Option<Seq<char>>, u64)>,
) -> Seq<(Seq<char>, u64)>
    decreases table.len(),
{
    if table.len() == 0 {
        seq![]
    } else {
        let rest = defined_names(table.drop_last());
        let e = table.last();
        if e.0 && e.1 is Some {
            rest.push((e.1->Some_0, e.2))
        } else {
            rest
        }
    }
}

/// Whether no name occurs twice among `exports`.
pub open spec fn names_unique(exports: Seq<(Seq<char>, u64)>) -> bool {
    forall|i: int, j: int|
        0 <= i < exports.len() && 0 <= j < exports.len() && i != j ==> #[trigger] exports[i].0
            != #[trigger] exports[j].0
}

/// `exports` with `name` set to `value`: the entry of that name replaced
/// in place, or a new entry at the end.
pub open spec fn set_export(exports: Seq<(Seq<char>, u64)>, name: Seq<char>, value: u64) -> Seq<
    (Seq<char>, u64),
> {
    if exists|i: int| 0 <= i < exports.len() && #[trigger] exports[i].0 == name {
        let i = choose|i: int| 0 <= i < exports.len() && #[trigger] exports[i].0 == name;
        exports.update(i, (name, value))
    } else {
        exports.push((name, value))
    }
}

/// The exported symbols of `defined`, each set in turn to its value moved
/// by `slide` (wrapping), so that the last definition of a name wins.
pub open spec fn exports_of(defined: Seq<(Seq<char>, u64)>, slide: u64) -> Seq<(Seq<char>, u64)>
    decreases defined.len(),
{
    if defined.len() == 0 {
        seq![]
    } else {
        set_export(
            exports_of(defined.drop_last(), slide),
            defined.last().0,
            defined.last().1.wrapping_add(slide),
        )
    }
}

/// The view of a list of named values.
pub open spec fn named_view(v: Seq<(String, u64)>) -> Seq<(Seq<char>, u64)> {
    v.map_values(|p: (String, u64)| (p.0@, p.1))
}

proof fn lemma_exports_unique(defined: Seq<(Seq<char>, u64)>, slide: u64)
    ensures
        names_unique(exports_of(defined, slide)),
    decreases defined.len(),
{
    if defined.len() > 0 {
        let acc = exports_of(defined.drop_last(), slide);
        lemma_exports_unique(defined.drop_last(), slide);
        let name = defined.last().0;
        if exists|i: int| 0 <= i < acc.len() && #[trigger] acc[i].0 == name {
        } else {
            let n = acc.push((name, defined.last().1.wrapping_add(slide)));
            assert forall|i: int, j: int|
                0 <= i < n.len() && 0 <= j < n.len() && i != j implies #[trigger] n[i].0
                != #[trigger] n[j].0 by {
                if i < acc.len() && j < acc.len() {
                    assert(acc[i].0 != acc[j].0);
                }
            }
        }
    }
}

/// Gathers the exported symbols from the symbol table entries `table`
/// (whether each is a defined symbol, its name and its value): each
/// defined, named symbol's value moved by `slide`, each name once, the
/// last definition winning.
pub fn collect_exports(table: Vec<(bool, Option<String>, u64)>, slide: u64) -> (r: Vec<(String, u64)>)
    ensures
        named_view(r@) == exports_of(
            defined_names(table@.map_values(|e: (bool, Option<String>, u64)| super::symbol_view(e))),
            slide,
        ),
{
    let ghost view = table@.map_values(|e: (bool, Option<String>, u64)| super::symbol_view(e));
    let mut rest = table;
    let mut out: Vec<(String, u64)> = Vec::new();
    let mut taken: usize = 0;
    let ghost all = rest@;
    assert(all.len() == rest.len());
    assert(view.subrange(0, 0) =~= Seq::<(bool, Option<Seq<char>>, u64)>::empty());
    assert(named_view(out@) =~= Seq::<(Seq<char>, u64)>::empty());
    while rest.len() > 0
        invariant
            all.len() <= usize::MAX,
            view == all.map_values(|e: (bool, Option<String>, u64)| super::symbol_view(e)),
            taken + rest@.len() == all.len(),
            rest@ == all.subrange(taken as int, all.len() as int),
            named_view(out@) == exports_of(defined_names(view.subrange(0, taken as int)), slide),
        decreases rest.len(),
    {
        let ghost prefix = view.subrange(0, taken as int);
        let entry = rest.remove(0);
        proof {
            assert(view.subrange(0, taken + 1).drop_last() =~= prefix);
            assert(entry == all[taken as int]);
            assert(view.subrange(0, taken + 1).last() == super::symbol_view(entry));
        }
        let ghost e = super::symbol_view(entry);
        let ghost before = defined_names(prefix);
        assert(defined_names(view.subrange(0, taken + 1)) == (if e.0 && e.1 is Some {
            before.push((e.1->Some_0, e.2))
        } else {
            before
        }));
        let (defined, name, value) = entry;
        if defined {
            match name {
                Some(name) => {
                    proof {
                        lemma_exports_unique(defined_names(prefix), slide);
                    }
                    let ghost acc = named_view(out@);
                    assert(before.push((name@, value)).drop_last() =~= before);
                    let moved = value.wrapping_add(slide);
                    let mut k: usize = 0;
                    while k < out.len() && !crate::text::str_eq(out[k].0.as_str(), name.as_str())
                        invariant
                            k <= out@.len(),
                            acc == named_view(out@),
                            forall|j: int| 0 <= j < k ==> #[trigger] acc[j].0 != name@,
                        decreases out.len() - k,
                    {
                        k = k + 1;
                    }
                    let found = k < out.len();
                    if found {
                        proof {
                            assert(acc[k as int].0 == name@);
                            let c = choose|i: int| 0 <= i < acc.len() && #[trigger] acc[i].0 == name@;
                            assert(c == k);
                        }
                        out.set(k, (name, moved));
                        assert(named_view(out@) =~= acc.update(k as int, (name@, moved)));
                    } else {
                        assert(!exists|i: int| 0 <= i < acc.len() && #[trigger] acc[i].0 == name@);
                        out.push((name, moved));
                        assert(named_view(out@) =~= acc.push((name@, moved)));
                    }
                },
                None => {},
            }
        }
        taken = taken + 1;
        assert(rest@ =~= all.subrange(taken as int, all.len() as int));
    }
    assert(view.subrange(0, taken as int) =~= view);
    out
}

/// A load command, as the loader reads it.
pub enum Command {
    Segment(SegmentCommand),
    Table(TableCommand),
    DyldInfo(DyldInfo),
    Start(StartCommand),
    Other,
}

/// A load command as the contracts speak of it.
pub enum CommandView {
    Segment(SegmentView),
    Table(TableCommand),
    DyldInfo(DyldInfo),
    Start(StartView),
    Other,
}

impl View for Command {
    type V = CommandView;

    open spec fn view(&self) -> CommandView {
        match self {
            Command::Segment(s) => CommandView::Segment(s@),
            Command::Table(t) => CommandView::Table(*t),
            Command::DyldInfo(d) => CommandView::DyldInfo(*d),
            Command::Start(c) => CommandView::Start(c@),
            Command::Other => CommandView::Other,
        }
    }
}

/// Load commands as the contracts speak of them.
pub open spec fn commands_view(v: Seq<Command>) -> Seq<CommandView> {
    v.map_values(|c: Command| c@)
}

/// The `i`th load command read from `bytes`: the first reading that
/// recognises it (as a segment, a table, an `LC_DYLD_INFO` or a library,
/// encryption or entry point command), else none of these.
pub open spec fn command_read(bytes: Seq<u8>, i: int) -> CommandView {
    match segment_read(bytes, i) {
        Some(s) => CommandView::Segment(s),
        None => match table_read(bytes, i) {
            Some(t) => CommandView::Table(t),
            None => match dyld_info_read(bytes, i) {
                Some(d) => CommandView::DyldInfo(d),
                None => match start_read(bytes, i) {
                    Some(c) => CommandView::Start(c),
                    None => CommandView::Other,
                },
            },
        },
    }
}

/// The load commands read from `bytes`, of which there are `n`.
pub open spec fn commands_read(bytes: Seq<u8>, n: int) -> Seq<CommandView> {
    Seq::new(n as nat, |i: int| command_read(bytes, i))
}

/// The command that the readings of one load command make: the first
/// reading that recognises it (as a segment, a table, an `LC_DYLD_INFO` or
/// a library, encryption or entry point command), else none of these.
fn classify(
    segment: Option<SegmentCommand>,
    table: Option<TableCommand>,
    dyld_info: Option<DyldInfo>,
    start: Option<StartCommand>,
) -> (r: Command)
    ensures
        r == match segment {
            Some(seg) => Command::Segment(seg),
            None => match table {
                Some(t) => Command::Table(t),
                None => match dyld_info {
                    Some(d) => Command::DyldInfo(d),
                    None => match start {
                        Some(c) => Command::Start(c),
                        None => Command::Other,
                    },
                },
            },
        },
{
    match segment {
        Some(seg) => Command::Segment(seg),
        None => match table {
            Some(t) => Command::Table(t),
            None => match dyld_info {
                Some(d) => Command::DyldInfo(d),
                None => match start {
                    Some(c) => Command::Start(c),
                    None => Command::Other,
                },
            },
        },
    }
}

/// Reads the `i`th load command of `bytes`.
fn read_command(bytes: &[u8], i: usize) -> (r: Command)
    requires
        parse_ok(bytes@),
    ensures
        r@ == command_read(bytes@, i as int),
{
    classify(
        segment_command(bytes, i),
        table_command(bytes, i),
        dyld_info_command(bytes, i),
        start_command(bytes, i),
    )
}

/// A section as the contracts speak of it.
pub open spec fn section_view(s: Section64) -> (Seq<char>, u64, u64) {
    (s.name@, s.address, s.size)
}

/// What the load commands read so far have gathered.
pub struct LoadState {
    pub memory: Mem64,
    pub dynamic_libraries: Vec<String>,
    pub bindings: Vec<Binding64>,
    pub text_base: Option<u64>,
    pub last_segment_end: u64,
    pub entry_point_pc: Option<u64>,
    pub entry_point_offset: Option<u64>,
    pub symtab: Option<(u32, u32, u32, u32)>,
    pub chained_fixups: Option<(u32, u32)>,
    pub sections: Vec<Section64>,
    pub segment_bases: Vec<u64>,
}

/// The bindings as the contracts speak of them.
pub open spec fn bindings_view(v: Seq<Binding64>) -> Seq<(u64, Seq<char>, i64)> {
    v.map_values(|b: Binding64| binding_view(b))
}

/// The sections as the contracts speak of them.
pub open spec fn sections_view(v: Seq<Section64>) -> Seq<(Seq<char>, u64, u64)> {
    v.map_values(|s: Section64| section_view(s))
}

/// What the load commands read so far have gathered, as the contracts
/// speak of it: the mappings, the libraries, the bindings, the segment
/// fields, the entry point fields, where the symbol table and the chained
/// fixups lie, the sections and the segment bases.
#[verifier::ext_equal]
pub struct LoadView {
    pub regions: Seq<RegionView>,
    pub libraries: Seq<Seq<char>>,
    pub bindings: Seq<(u64, Seq<char>, i64)>,
    pub text_base: Option<u64>,
    pub last_segment_end: u64,
    pub entry_point_pc: Option<u64>,
    pub entry_point_offset: Option<u64>,
    pub symtab: Option<(u32, u32, u32, u32)>,
    pub chained_fixups: Option<(u32, u32)>,
    pub sections: Seq<(Seq<char>, u64, u64)>,
    pub segment_bases: Seq<u64>,
}

/// Nothing gathered yet.
pub open spec fn empty_load() -> LoadView {
    LoadView {
        regions: seq![],
        libraries: seq![],
        bindings: seq![],
        text_base: None,
        last_segment_end: 0,
        entry_point_pc: None,
        entry_point_offset: None,
        symtab: None,
        chained_fixups: None,
        sections: seq![],
        segment_bases: seq![],
    }
}

impl LoadState {
    /// The state as the contracts speak of it.
    pub open spec fn view(self) -> LoadView {
        LoadView {
            regions: self.memory@.regions,
            libraries: self.dynamic_libraries@.map_values(|s: String| s@),
            bindings: bindings_view(self.bindings@),
            text_base: self.text_base,
            last_segment_end: self.last_segment_end,
            entry_point_pc: self.entry_point_pc,
            entry_point_offset: self.entry_point_offset,
            symtab: self.symtab,
            chained_fixups: self.chained_fixups,
            sections: sections_view(self.sections@),
            segment_bases: self.segment_bases@,
        }
    }

    /// The memory is well formed and holds mappings only: nothing has been
    /// allocated from it.
    pub open spec fn memory_fresh(self) -> bool {
        &&& self.memory.wf()
        &&& self.memory@.allocations == Map::<u64, u64>::empty()
        &&& self.memory@.next_allocation == crate::mem64::FIRST_ALLOCATION
    }

    /// Nothing gathered yet, over a fresh address space.
    pub fn new() -> (r: Self)
        ensures
            r.memory_fresh(),
            r.view() =~= empty_load(),
    {
        let r = LoadState {
            memory: Mem64::new(),
            dynamic_libraries: Vec::new(),
            bindings: Vec::new(),
            text_base: None,
            last_segment_end: 0,
            entry_point_pc: None,
            entry_point_offset: None,
            symtab: None,
            chained_fixups: None,
            sections: Vec::new(),
            segment_bases: Vec::new(),
        };
        assert(r.view().regions =~= seq![]);
        assert(r.view().libraries =~= seq![]);
        assert(r.view().bindings =~= seq![]);
        assert(r.view().sections =~= seq![]);
        r
    }
}

/// How a step of the load ends: with the new state, or with an error
/// whose message is given (`Some`) or left open (`None`).
pub open spec fn step_result(s: Result<LoadView, Option<Seq<char>>>, new: LoadView, r: Result<(), String>) -> bool {
    match s {
        Ok(v) => r is Ok && new =~= v,
        Err(Some(m)) => r matches Err(e) && e@ == m,
        Err(None) => r is Err,
    }
}

/// The permissions of a segment's initial protection.
pub open spec fn segment_permissions(initprot: i32) -> Permissions {
    Permissions(
        (if initprot & 1 != 0 { 1u8 } else { 0u8 }) | (if initprot & 2 != 0 { 2u8 } else { 0u8 }) | (if initprot & 4
            != 0 {
            4u8
        } else {
            0u8
        }),
    )
}

/// The mappings after mapping `size` zero bytes at `base` with `p`, or
/// why that is refused.
pub open spec fn map_result(rs: Seq<RegionView>, base: u64, size: u64, p: Permissions) -> Result<
    Seq<RegionView>,
    Seq<char>,
> {
    if size > usize::MAX {
        Err("64-bit mapping is too large for this host"@)
    } else if base + size > u64::MAX {
        Err("64-bit mapping overflows"@)
    } else if size == 0 {
        Ok(rs)
    } else if overlaps(rs, base as int, size as int) {
        Err("64-bit mapping overlaps an existing mapping"@)
    } else {
        Ok(rs.insert(floor_index(rs, base as int) + 1, RegionView { base, bytes: zeros(size as int), permissions: p }))
    }
}

/// The mappings after a segment mapped at `base` is filled with its bytes
/// of the file, or why that is refused.
pub open spec fn segment_fill(rs: Seq<RegionView>, seg: SegmentView, image: Seq<u8>, base: u64) -> Result<
    Seq<RegionView>,
    Option<Seq<char>>,
> {
    if seg.filesize == 0 {
        Ok(rs)
    } else if seg.fileoff > usize::MAX {
        Err(Some("segment file offset is too large"@))
    } else if seg.filesize > usize::MAX {
        Err(Some("segment file size is too large"@))
    } else if seg.fileoff + seg.filesize > usize::MAX {
        Err(Some("segment file range overflows"@))
    } else if seg.fileoff + seg.filesize > image.len() {
        Err(Some("segment "@ + seg.segname + " extends past the Mach-O file"@))
    } else if range_ok(rs, base as int, seg.filesize as int, 0) {
        Ok(
            write_spec(
                rs,
                base as int,
                image.subrange(seg.fileoff as int, seg.fileoff + seg.filesize),
                seg.filesize as int,
            ),
        )
    } else {
        Err(None)
    }
}

/// The sections of a segment as they are placed: each moved by `slide`.
pub open spec fn placed(sections: Seq<(Seq<char>, u64, u64)>, slide: u64) -> Seq<(Seq<char>, u64, u64)> {
    sections.map_values(|s: (Seq<char>, u64, u64)| (s.0, (s.1 + slide) as u64, s.2))
}

/// What a segment command does: its base (its address moved by `slide`)
/// is recorded and the end of the image raised to its end; unless it is
/// `__PAGEZERO`, a `__TEXT` segment sets the text base, and a segment of
/// nonzero size is mapped with its initial protection, filled with its
/// bytes of the file, and its sections recorded, moved by `slide`.
pub open spec fn segment_step(st: LoadView, seg: SegmentView, image: Seq<u8>, slide: u64) -> Result<
    LoadView,
    Option<Seq<char>>,
> {
    if seg.vmaddr + slide > u64::MAX {
        Err(Some("segment address overflows"@))
    } else if seg.vmaddr + slide + seg.vmsize > u64::MAX {
        Err(Some("segment end overflows"@))
    } else {
        let base = (seg.vmaddr + slide) as u64;
        let end = (base + seg.vmsize) as u64;
        let st1 = LoadView {
            segment_bases: st.segment_bases.push(base),
            last_segment_end: if end > st.last_segment_end { end } else { st.last_segment_end },
            ..st
        };
        if seg.segname == "__PAGEZERO"@ {
            Ok(st1)
        } else {
            let st2 = LoadView {
                text_base: if seg.segname == "__TEXT"@ { Some(base) } else { st1.text_base },
                ..st1
            };
            if seg.vmsize == 0 {
                Ok(st2)
            } else {
                match map_result(st2.regions, base, seg.vmsize, segment_permissions(seg.initprot)) {
                    Err(m) => Err(Some(m)),
                    Ok(rs) => match segment_fill(rs, seg, image, base) {
                        Err(e) => Err(e),
                        Ok(filled) => if exists|k: int|
                            0 <= k < seg.sections.len() && #[trigger] seg.sections[k].1 + slide > u64::MAX {
                            Err(Some("section address overflows"@))
                        } else {
                            Ok(LoadView { regions: filled, sections: st2.sections + placed(seg.sections, slide), ..st2 })
                        },
                    },
                }
            }
        }
    }
}

impl LoadState {
    /// Applies a segment command: records its base and end, and, unless it
    /// is `__PAGEZERO` or empty, maps it with its initial protection, copies
    /// its contents from `image` and records its sections.
    pub fn apply_segment(&mut self, seg: &SegmentCommand, image: &[u8], slide: u64) -> (r: Result<(), String>)
        requires
            old(self).memory_fresh(),
        ensures
            final(self).memory_fresh(),
            step_result(segment_step(old(self).view(), seg@, image@, slide), final(self).view(), r),
    {
        let ghost st = self.view();
        let base = match seg.vmaddr.checked_add(slide) {
            Some(b) => b,
            None => {
                return Err("segment address overflows".to_owned());
            },
        };
        let end = match base.checked_add(seg.vmsize) {
            Some(e) => e,
            None => {
                return Err("segment end overflows".to_owned());
            },
        };
        self.segment_bases.push(base);
        if end > self.last_segment_end {
            self.last_segment_end = end;
        }
        let ghost st1 = LoadView {
            segment_bases: st.segment_bases.push(base),
            last_segment_end: if end > st.last_segment_end { end } else { st.last_segment_end },
            ..st
        };
        assert(self.view() =~= st1);
        if crate::text::str_eq(seg.segname.as_str(), "__PAGEZERO") {
            return Ok(());
        }
        if crate::text::str_eq(seg.segname.as_str(), "__TEXT") {
            self.text_base = Some(base);
        }
        let ghost st2 = LoadView {
            text_base: if seg@.segname == "__TEXT"@ { Some(base) } else { st1.text_base },
            ..st1
        };
        assert(self.view() =~= st2);
        if seg.vmsize == 0 {
            return Ok(());
        }
        let permissions = Permissions::from_mach_protection(seg.initprot, seg.maxprot);
        assert(permissions == segment_permissions(seg.initprot));
        match self.memory.map_zeroed_with_permissions(base, seg.vmsize, permissions) {
            Ok(()) => {},
            Err(e) => {
                return Err(e.to_owned());
            },
        }
        let ghost mapped = self.memory@.regions;
        assert(map_result(st2.regions, base, seg.vmsize, segment_permissions(seg.initprot)) == Ok::<
            Seq<RegionView>,
            Seq<char>,
        >(mapped));
        if seg.filesize != 0 {
            if seg.fileoff > usize::MAX as u64 {
                return Err("segment file offset is too large".to_owned());
            }
            if seg.filesize > usize::MAX as u64 {
                return Err("segment file size is too large".to_owned());
            }
            let start = seg.fileoff as usize;
            let stop = match start.checked_add(seg.filesize as usize) {
                Some(e) => e,
                None => {
                    return Err("segment file range overflows".to_owned());
                },
            };
            if stop > image.len() {
                let mut message = "segment ".to_owned();
                message.append(seg.segname.as_str());
                message.append(" extends past the Mach-O file");
                return Err(message);
            }
            let data = vstd::slice::slice_subrange(image, start, stop);
            assert(data@ == image@.subrange(seg.fileoff as int, seg.fileoff + seg.filesize));
            match self.memory.load_bytes(base, data) {
                Ok(()) => {},
                Err(e) => {
                    return Err(e.to_owned());
                },
            }
        }
        let ghost filled = self.memory@.regions;
        assert(segment_fill(mapped, seg@, image@, base) == Ok::<Seq<RegionView>, Option<Seq<char>>>(filled));
        let ghost mid = self.view();
        assert(mid =~= LoadView { regions: filled, ..st2 });
        let ghost done = LoadView { regions: filled, sections: st2.sections + placed(seg@.sections, slide), ..st2 };
        assert(segment_step(st, seg@, image@, slide) == (if exists|k: int|
            0 <= k < seg@.sections.len() && #[trigger] seg@.sections[k].1 + slide > u64::MAX {
            Err(Some("section address overflows"@))
        } else {
            Ok(done)
        }));
        let mut i: usize = 0;
        while i < seg.sections.len()
            invariant
                i <= seg.sections@.len(),
                self.memory_fresh(),
                st == old(self).view(),
                done == (LoadView { regions: filled, sections: st2.sections + placed(seg@.sections, slide), ..st2 }),
                segment_step(st, seg@, image@, slide) == (if exists|k: int|
                    0 <= k < seg@.sections.len() && #[trigger] seg@.sections[k].1 + slide > u64::MAX {
                    Err(Some("section address overflows"@))
                } else {
                    Ok(done)
                }),
                mid == (LoadView { regions: filled, ..st2 }),
                self.view() =~= (LoadView {
                    sections: mid.sections + placed(seg@.sections.subrange(0, i as int), slide),
                    ..mid
                }),
                forall|j: int| 0 <= j < i ==> #[trigger] seg@.sections[j].1 + slide <= u64::MAX,
            decreases seg.sections.len() - i,
        {
            let section = &seg.sections[i];
            assert(seg@.sections[i as int] == (section.sectname@, section.addr, section.size));
            let address = match section.addr.checked_add(slide) {
                Some(a) => a,
                None => {
                    assert(seg@.sections[i as int].1 + slide > u64::MAX);
                    return Err("section address overflows".to_owned());
                },
            };
            let ghost prev = sections_view(self.sections@);
            self.sections.push(Section64 { name: copy_string(&section.sectname), address, size: section.size });
            assert(sections_view(self.sections@) =~= prev.push((section.sectname@, address, section.size)));
            assert(placed(seg@.sections.subrange(0, i + 1), slide) =~= placed(
                seg@.sections.subrange(0, i as int),
                slide,
            ).push((section.sectname@, address, section.size)));
            i = i + 1;
        }
        assert(seg@.sections.subrange(0, i as int) =~= seg@.sections);
        Ok(())
    }
}

/// What one rebase does to the mappings `rs`, or `None` where it fails: a
/// rebase of other than pointer type does nothing; else its segment must
/// exist, its address (the segment's base plus its offset) be readable, and
/// the 64-bit value there, moved by `slide`, is written back.
pub open spec fn rebase_step(rs: Seq<RegionView>, e: (bool, usize, i64), bases: Seq<u64>, slide: u64) -> Option<
    Seq<RegionView>,
> {
    if !e.0 {
        Some(rs)
    } else if e.1 >= bases.len() {
        None
    } else {
        let a = bases[e.1 as int] + (e.2 as u64);
        if a > u64::MAX || !range_ok(rs, a, 8, 1) {
            None
        } else {
            let v = spec_u64_from_le_bytes(bytes_at(rs, a, 8));
            if v + slide > u64::MAX || !range_ok(rs, a, 8, 0) {
                None
            } else {
                Some(write_spec(rs, a, spec_u64_to_le_bytes((v + slide) as u64), 8))
            }
        }
    }
}

/// What the rebases `es` do in turn to the mappings `rs`, or `None` where
/// one fails.
pub open spec fn rebase_fold(rs: Seq<RegionView>, es: Seq<(bool, usize, i64)>, bases: Seq<u64>, slide: u64) -> Option<
    Seq<RegionView>,
>
    decreases es.len(),
{
    if es.len() == 0 {
        Some(rs)
    } else {
        match rebase_fold(rs, es.drop_last(), bases, slide) {
            None => None,
            Some(cur) => rebase_step(cur, es.last(), bases, slide),
        }
    }
}

proof fn lemma_rebase_fails_on(
    rs: Seq<RegionView>,
    es: Seq<(bool, usize, i64)>,
    bases: Seq<u64>,
    slide: u64,
    k: int,
)
    requires
        0 <= k <= es.len(),
        rebase_fold(rs, es.subrange(0, k), bases, slide) is None,
    ensures
        rebase_fold(rs, es, bases, slide) is None,
    decreases es.len(),
{
    if k == es.len() {
        assert(es.subrange(0, k) =~= es);
    } else {
        assert(es.drop_last().subrange(0, k) =~= es.subrange(0, k));
        lemma_rebase_fails_on(rs, es.drop_last(), bases, slide, k);
    }
}

/// The rebases as the contracts speak of them.
pub open spec fn rebases_view(v: Seq<RebaseEntry>) -> Seq<(bool, usize, i64)> {
    v.map_values(|e: RebaseEntry| (e.pointer, e.segment_index, e.symbol_offset))
}

/// Applies the rebases of the dyld rebase table: each pointer-type rebase
/// adds `slide` to the 64-bit value at its segment's base plus its offset.
fn apply_rebases(entries: &Vec<RebaseEntry>, bases: &Vec<u64>, memory: &mut Mem64, slide: u64) -> (r: Result<(), String>)
    requires
        old(memory).wf(),
    ensures
        final(memory).wf(),
        final(memory)@.allocations == old(memory)@.allocations,
        final(memory)@.next_allocation == old(memory)@.next_allocation,
        match rebase_fold(old(memory)@.regions, rebases_view(entries@), bases@, slide) {
            Some(rs) => r is Ok && final(memory)@.regions == rs,
            None => r is Err,
        },
{
    let ghost mem0 = memory@;
    let ghost es = rebases_view(entries@);
    let mut i: usize = 0;
    assert(es.subrange(0, 0) =~= Seq::<(bool, usize, i64)>::empty());
    while i < entries.len()
        invariant
            i <= entries@.len(),
            memory.wf(),
            mem0 == old(memory)@,
            es == rebases_view(entries@),
            memory@.allocations == mem0.allocations,
            memory@.next_allocation == mem0.next_allocation,
            rebase_fold(mem0.regions, es.subrange(0, i as int), bases@, slide) == Some(memory@.regions),
        decreases entries.len() - i,
    {
        let entry = entries[i];
        let ghost cur = memory@.regions;
        proof {
            assert(es.subrange(0, i + 1).drop_last() =~= es.subrange(0, i as int));
            assert(es.subrange(0, i + 1).last() == (entry.pointer, entry.segment_index, entry.symbol_offset));
        }
        if entry.pointer {
            if entry.segment_index >= bases.len() {
                proof {
                    lemma_rebase_fails_on(mem0.regions, es, bases@, slide, i + 1);
                }
                return Err("ARM64 rebase references an invalid segment".to_owned());
            }
            let address = match bases[entry.segment_index].checked_add(entry.symbol_offset as u64) {
                Some(a) => a,
                None => {
                    proof {
                        lemma_rebase_fails_on(mem0.regions, es, bases@, slide, i + 1);
                    }
                    return Err("ARM64 rebase address overflows".to_owned());
                },
            };
            let value = match memory.read_u64(address) {
                Ok(v) => v,
                Err(e) => {
                    proof {
                        lemma_rebase_fails_on(mem0.regions, es, bases@, slide, i + 1);
                    }
                    return Err(e.to_owned());
                },
            };
            let moved = match value.checked_add(slide) {
                Some(v) => v,
                None => {
                    proof {
                        lemma_rebase_fails_on(mem0.regions, es, bases@, slide, i + 1);
                    }
                    return Err("ARM64 rebase value overflows".to_owned());
                },
            };
            proof {
                vstd::bytes::lemma_auto_spec_u64_to_from_le_bytes();
            }
            assert(spec_u64_to_le_bytes(moved).len() == 8);
            match memory.load_u64(address, moved) {
                Ok(()) => {},
                Err(e) => {
                    proof {
                        lemma_rebase_fails_on(mem0.regions, es, bases@, slide, i + 1);
                    }
                    return Err(e.to_owned());
                },
            }
        }
        i = i + 1;
    }
    assert(es.subrange(0, i as int) =~= es);
    Ok(())
}

/// The bytes of the table at `off` (`size` bytes) of the file.
pub open spec fn table_bytes(image: Seq<u8>, off: u32, size: u32) -> Seq<u8> {
    image.subrange(off as int, off + size)
}

/// The binds that the bind table of `kind` (0 for binds, 1 for weak
/// binds, 2 for lazy binds) reads from `payload`.
pub open spec fn kind_table(payload: Seq<u8>, kind: int) -> Seq<(bool, usize, i64, Seq<char>, u64)> {
    if kind == 0 {
        bind_table(payload)
    } else if kind == 1 {
        weak_bind_table(payload)
    } else {
        lazy_as_binds(lazy_bind_table(payload))
    }
}

/// The message for a bind table of `kind` whose opcodes move the offset
/// out of range.
pub open spec fn stream_message(kind: int) -> Seq<char> {
    if kind == 0 {
        "ARM64 bind opcodes move the offset out of range"@
    } else if kind == 1 {
        "ARM64 weak bind opcodes move the offset out of range"@
    } else {
        "ARM64 lazy bind opcodes move the offset out of range"@
    }
}

/// The message for a bind of a table of `kind` whose segment does not
/// exist.
pub open spec fn invalid_message(kind: int) -> Seq<char> {
    if kind == 0 {
        "ARM64 bind references an invalid segment"@
    } else if kind == 1 {
        "ARM64 weak bind references an invalid segment"@
    } else {
        "ARM64 lazy bind references an invalid segment"@
    }
}

/// The bindings that the bind table of `kind` at `off` (`size` bytes) of
/// the file makes, or why it is refused.
pub open spec fn table_binds(image: Seq<u8>, off: u32, size: u32, kind: int, bases: Seq<u64>) -> Result<
    Seq<(u64, Seq<char>, i64)>,
    Seq<char>,
> {
    match command_range_error(image.len() as int, off as int, size as int) {
        Some(m) => Err(m),
        None => {
            let t = table_bytes(image, off, size);
            if !bind_stream_ok(t, kind) {
                Err(stream_message(kind))
            } else {
                binds_from(kind_table(t, kind), bases, invalid_message(kind))
            }
        },
    }
}

/// What an `LC_DYLD_INFO` does: the rebases are applied to the mappings,
/// then the bindings of the bind, weak bind and lazy bind tables are
/// added, in that order.
pub open spec fn dyld_step(st: LoadView, info: DyldInfo, image: Seq<u8>, slide: u64) -> Result<
    LoadView,
    Option<Seq<char>>,
> {
    match command_range_error(image.len() as int, info.rebase_off as int, info.rebase_size as int) {
        Some(m) => Err(Some(m)),
        None => {
            let rb = table_bytes(image, info.rebase_off, info.rebase_size);
            if !rebase_stream_ok(rb) {
                Err(Some("ARM64 rebase opcodes move the offset out of range"@))
            } else {
                match rebase_fold(st.regions, rebase_table(rb), st.segment_bases, slide) {
                    None => Err(None),
                    Some(rs) => match table_binds(image, info.bind_off, info.bind_size, 0, st.segment_bases) {
                        Err(m) => Err(Some(m)),
                        Ok(a) => match table_binds(
                            image,
                            info.weak_bind_off,
                            info.weak_bind_size,
                            1,
                            st.segment_bases,
                        ) {
                            Err(m) => Err(Some(m)),
                            Ok(b) => match table_binds(
                                image,
                                info.lazy_bind_off,
                                info.lazy_bind_size,
                                2,
                                st.segment_bases,
                            ) {
                                Err(m) => Err(Some(m)),
                                Ok(c) => Ok(LoadView { regions: rs, bindings: st.bindings + a + b + c, ..st }),
                            },
                        },
                    },
                }
            }
        },
    }
}

/// Appends the bindings that the bind table of `kind` (0 for binds, 1 for
/// weak binds, 2 for lazy binds) at `off` (`size` bytes) of `image` makes.
fn append_table_binds(
    image: &[u8],
    off: u32,
    size: u32,
    kind: u8,
    bases: &[u64],
    bindings: &mut Vec<Binding64>,
) -> (r: Result<(), String>)
    requires
        kind <= 2,
    ensures
        match table_binds(image@, off, size, kind as int, bases@) {
            Ok(bs) => r is Ok && bindings_view(final(bindings)@) == bindings_view(old(bindings)@) + bs,
            Err(m) => r matches Err(e) && e@ == m,
        },
{
    let table = match command_bytes(image, off, size) {
        Ok(b) => b,
        Err(e) => {
            return Err(e);
        },
    };
    if !check_bind_stream(table, kind) {
        let message = if kind == 0 {
            "ARM64 bind opcodes move the offset out of range"
        } else if kind == 1 {
            "ARM64 weak bind opcodes move the offset out of range"
        } else {
            "ARM64 lazy bind opcodes move the offset out of range"
        };
        return Err(message.to_owned());
    }
    let entries = if kind == 0 {
        bind_entries(table)
    } else if kind == 1 {
        weak_bind_entries(table)
    } else {
        lazy_binds(lazy_bind_entries(table))
    };
    let invalid = if kind == 0 {
        "ARM64 bind references an invalid segment"
    } else if kind == 1 {
        "ARM64 weak bind references an invalid segment"
    } else {
        "ARM64 lazy bind references an invalid segment"
    };
    collect_binds(&entries, bases, invalid, bindings)
}

impl LoadState {
    /// Applies an `LC_DYLD_INFO`: the rebases, then the binds, the weak
    /// binds and the lazy binds, each table read from `image`.
    pub fn apply_dyld_info(&mut self, info: DyldInfo, image: &[u8], slide: u64) -> (r: Result<(), String>)
        requires
            old(self).memory_fresh(),
        ensures
            final(self).memory_fresh(),
            step_result(dyld_step(old(self).view(), info, image@, slide), final(self).view(), r),
    {
        let ghost st = self.view();
        let rebases = match command_bytes(image, info.rebase_off, info.rebase_size) {
            Ok(b) => b,
            Err(e) => {
                return Err(e);
            },
        };
        if !check_rebase_stream(rebases) {
            return Err("ARM64 rebase opcodes move the offset out of range".to_owned());
        }
        let rebase_list = rebase_entries(rebases);
        match apply_rebases(&rebase_list, &self.segment_bases, &mut self.memory, slide) {
            Ok(()) => {},
            Err(e) => {
                return Err(e);
            },
        }
        let ghost rs = self.memory@.regions;
        match append_table_binds(image, info.bind_off, info.bind_size, 0, self.segment_bases.as_slice(), &mut self.bindings) {
            Ok(()) => {},
            Err(e) => {
                return Err(e);
            },
        }
        match append_table_binds(
            image,
            info.weak_bind_off,
            info.weak_bind_size,
            1,
            self.segment_bases.as_slice(),
            &mut self.bindings,
        ) {
            Ok(()) => {},
            Err(e) => {
                return Err(e);
            },
        }
        match append_table_binds(
            image,
            info.lazy_bind_off,
            info.lazy_bind_size,
            2,
            self.segment_bases.as_slice(),
            &mut self.bindings,
        ) {
            Ok(()) => {},
            Err(e) => {
                return Err(e);
            },
        }
        proof {
            let a = table_binds(image@, info.bind_off, info.bind_size, 0, st.segment_bases)->Ok_0;
            let b = table_binds(image@, info.weak_bind_off, info.weak_bind_size, 1, st.segment_bases)->Ok_0;
            let c = table_binds(image@, info.lazy_bind_off, info.lazy_bind_size, 2, st.segment_bases)->Ok_0;
            assert(self.view().bindings =~= st.bindings + a + b + c);
            assert(self.view() =~= LoadView { regions: rs, bindings: st.bindings + a + b + c, ..st });
        }
        Ok(())
    }
}

/// What a library, encryption or entry point command does: a library is
/// added to the list; an encrypted image cannot be run; an `LC_MAIN` sets
/// the entry offset; a thread state sets the entry point to its program
/// counter moved by `slide`, which must stay within 64 bits.
pub open spec fn start_step(st: LoadView, c: StartView, slide: u64) -> Result<LoadView, Option<Seq<char>>> {
    match c {
        StartView::LoadDylib(name) => Ok(LoadView { libraries: st.libraries.push(name), ..st }),
        StartView::Encryption { id } => if id != 0 {
            Err(Some("ARM64 executable is encrypted"@))
        } else {
            Ok(st)
        },
        StartView::EntryPoint { entryoff } => Ok(LoadView { entry_point_offset: Some(entryoff), ..st }),
        StartView::Arm64Thread { pc } => if pc + slide > u64::MAX {
            Err(Some("entry point overflows"@))
        } else {
            Ok(LoadView { entry_point_pc: Some((pc + slide) as u64), ..st })
        },
    }
}

/// What a symbol table or chained fixups command does: it records where
/// the table lies.
pub open spec fn table_step(st: LoadView, t: TableCommand) -> LoadView {
    match t {
        TableCommand::SymTab { symoff, nsyms, stroff, strsize } => LoadView {
            symtab: Some((symoff, nsyms, stroff, strsize)),
            ..st
        },
        TableCommand::ChainedFixups { off, size } => LoadView { chained_fixups: Some((off, size)), ..st },
    }
}

/// What a load command does to the state gathered so far.
pub open spec fn command_step(st: LoadView, c: CommandView, image: Seq<u8>, slide: u64) -> Result<
    LoadView,
    Option<Seq<char>>,
> {
    match c {
        CommandView::Segment(seg) => segment_step(st, seg, image, slide),
        CommandView::Table(t) => Ok(table_step(st, t)),
        CommandView::DyldInfo(info) => dyld_step(st, info, image, slide),
        CommandView::Start(s) => start_step(st, s, slide),
        CommandView::Other => Ok(st),
    }
}

/// What the load commands `cs` do, one after the other, starting from
/// `st`: the state after the last, or the first error.
pub open spec fn commands_step(st: LoadView, cs: Seq<CommandView>, image: Seq<u8>, slide: u64) -> Result<
    LoadView,
    Option<Seq<char>>,
>
    decreases cs.len(),
{
    if cs.len() == 0 {
        Ok(st)
    } else {
        match commands_step(st, cs.drop_last(), image, slide) {
            Err(e) => Err(e),
            Ok(mid) => command_step(mid, cs.last(), image, slide),
        }
    }
}

/// Once a prefix of the commands fails, all of them fail the same way.
proof fn lemma_commands_error_extends(st: LoadView, cs: Seq<CommandView>, image: Seq<u8>, slide: u64, k: int)
    requires
        0 <= k <= cs.len(),
        commands_step(st, cs.subrange(0, k), image, slide) is Err,
    ensures
        commands_step(st, cs, image, slide) == commands_step(st, cs.subrange(0, k), image, slide),
    decreases cs.len(),
{
    if k == cs.len() {
        assert(cs.subrange(0, k) =~= cs);
    } else {
        assert(cs.drop_last().subrange(0, k) =~= cs.subrange(0, k));
        lemma_commands_error_extends(st, cs.drop_last(), image, slide, k);
    }
}

impl LoadState {
    /// Applies one load command read from `image`.
    pub fn apply_command(&mut self, command: Command, image: &[u8], slide: u64) -> (r: Result<(), String>)
        requires
            old(self).memory_fresh(),
        ensures
            final(self).memory_fresh(),
            step_result(command_step(old(self).view(), command@, image@, slide), final(self).view(), r),
    {
        let ghost st = self.view();
        match command {
            Command::Segment(seg) => self.apply_segment(&seg, image, slide),
            Command::Table(t) => {
                match t {
                    TableCommand::SymTab { symoff, nsyms, stroff, strsize } => {
                        self.symtab = Some((symoff, nsyms, stroff, strsize));
                    },
                    TableCommand::ChainedFixups { off, size } => {
                        self.chained_fixups = Some((off, size));
                    },
                }
                assert(self.view() =~= table_step(st, t));
                Ok(())
            },
            Command::DyldInfo(info) => self.apply_dyld_info(info, image, slide),
            Command::Start(c) => match c {
                StartCommand::LoadDylib(name) => {
                    let ghost n = name@;
                    self.dynamic_libraries.push(name);
                    assert(self.view().libraries =~= st.libraries.push(n));
                    assert(self.view() =~= LoadView { libraries: st.libraries.push(n), ..st });
                    Ok(())
                },
                StartCommand::Encryption { id } => {
                    if id != 0 {
                        Err("ARM64 executable is encrypted".to_owned())
                    } else {
                        assert(self.view() =~= st);
                        Ok(())
                    }
                },
                StartCommand::EntryPoint { entryoff } => {
                    self.entry_point_offset = Some(entryoff);
                    assert(self.view() =~= LoadView { entry_point_offset: Some(entryoff), ..st });
                    Ok(())
                },
                StartCommand::Arm64Thread { pc } => match pc.checked_add(slide) {
                    Some(v) => {
                        self.entry_point_pc = Some(v);
                        assert(self.view() =~= LoadView { entry_point_pc: Some(v), ..st });
                        Ok(())
                    },
                    None => Err("entry point overflows".to_owned()),
                },
            },
            Command::Other => {
                assert(self.view() =~= st);
                Ok(())
            },
        }
    }
}

/// The entry point: an `LC_MAIN` offset, if there was one, taken from the
/// text base; else the thread state's program counter, if there was one.
pub open spec fn entry_point_of(pc: Option<u64>, offset: Option<u64>, text_base: Option<u64>) -> Result<
    Option<u64>,
    Seq<char>,
> {
    match offset {
        None => Ok(pc),
        Some(off) => match text_base {
            None => Err("ARM64 LC_MAIN image has no __TEXT segment"@),
            Some(t) => if t + off > u64::MAX {
                Err("entry point overflows"@)
            } else {
                Ok(Some((t + off) as u64))
            },
        },
    }
}

/// Settles the entry point from what the load commands gave.
pub fn resolve_entry_point(pc: Option<u64>, offset: Option<u64>, text_base: Option<u64>) -> (r: Result<
    Option<u64>,
    String,
>)
    ensures
        match entry_point_of(pc, offset, text_base) {
            Ok(v) => r matches Ok(x) && x == v,
            Err(m) => r matches Err(e) && e@ == m,
        },
{
    match offset {
        None => Ok(pc),
        Some(off) => match text_base {
            None => Err("ARM64 LC_MAIN image has no __TEXT segment".to_owned()),
            Some(t) => match t.checked_add(off) {
                Some(v) => Ok(Some(v)),
                None => Err("entry point overflows".to_owned()),
            },
        },
    }
}

/// The string table that the symbol reader is given for a file of `len`
/// bytes: a string table that starts past the file is given as empty, and
/// one that runs past it is cut to end one byte past the file. A string
/// offset within the table then starts at most at the file's end.
pub open spec fn string_table_within(len: int, stroff: u32, strsize: u32) -> (u32, u32) {
    if stroff > len {
        (0, 0)
    } else if stroff + strsize <= len + 1 {
        (stroff, strsize)
    } else {
        (stroff, (len + 1 - stroff) as u32)
    }
}

/// Bounds the string table by the file.
pub fn bound_string_table(len: usize, stroff: u32, strsize: u32) -> (r: (u32, u32))
    ensures
        r == string_table_within(len as int, stroff, strsize),
        r.0 + r.1 <= len + 1,
{
    if stroff as usize > len {
        (0, 0)
    } else if (strsize as usize) <= len - stroff as usize {
        (stroff, strsize)
    } else {
        (stroff, (len - stroff as usize + 1) as u32)
    }
}

/// Whether the bindings are in order of address.
pub open spec fn sorted_by_address(s: Seq<Binding64>) -> bool {
    forall|i: int, j: int| 0 <= i <= j < s.len() ==> #[trigger] s[i].address <= #[trigger] s[j].address
}

/// Whether no binding is the same as the one before it.
pub open spec fn no_repeats(s: Seq<Binding64>) -> bool {
    forall|i: int| 0 < i < s.len() ==> !super::same_binding(#[trigger] s[i - 1], s[i])
}

/// The bindings a loaded image keeps of the list `s` that its tables made:
/// sorted by address (stably) and with repeats dropped.
pub open spec fn final_bindings(s: Seq<Binding64>) -> Seq<Binding64> {
    dedup_bindings(sort_by_address(s))
}

/// The image that a load ends with, given the mappings and bindings `f`
/// after the chained fixups, the entry point `entry`, the rest of what the
/// load commands gathered `st`, and the symbol table entries `symbols`:
/// the bindings sorted by address with repeats dropped, and the exported
/// symbols the defined names moved by `slide`.
pub open spec fn loaded_image(
    m: MachO64,
    f: FixupState,
    entry: Option<u64>,
    st: LoadView,
    name: Seq<char>,
    slide: u64,
    symbols: Option<Seq<(bool, Option<Seq<char>>, u64)>>,
) -> bool {
    &&& m.architecture == Architecture::Arm64
    &&& m.name@ == name
    &&& m.memory.wf()
    &&& m.memory@.allocations == Map::<u64, u64>::empty()
    &&& m.memory@.next_allocation == crate::mem64::FIRST_ALLOCATION
    &&& m.memory@.regions == f.0
    &&& exists|all: Seq<Binding64>| fixup_bindings(all) == f.1 && m.bindings@ == #[trigger] final_bindings(all)
    &&& sorted_by_address(m.bindings@)
    &&& no_repeats(m.bindings@)
    &&& m.entry_point_pc == entry
    &&& m.text_base == match st.text_base {
        Some(t) => t,
        None => 0,
    }
    &&& m.last_segment_end == st.last_segment_end
    &&& m.dynamic_libraries@.map_values(|s: String| s@) == st.libraries
    &&& sections_view(m.sections@) == st.sections
    &&& named_view(m.exported_symbols@) == match symbols {
        Some(t) => exports_of(defined_names(t), slide),
        None => seq![],
    }
    &&& names_unique(named_view(m.exported_symbols@))
}

/// How a load ends once the load commands gathered `st`: the chained
/// fixups, if there are any, are applied, the entry point settled, and the
/// image put together.
pub open spec fn finish_outcome(
    st: LoadView,
    image: Seq<u8>,
    name: Seq<char>,
    slide: u64,
    symbols: Option<Seq<(bool, Option<Seq<char>>, u64)>>,
    r: Result<MachO64, String>,
) -> bool {
    let st0 = (st.regions, st.bindings);
    let fixed = match st.chained_fixups {
        Some((off, size)) => chained_fixups_spec(st0, image, off, size, st.segment_bases, slide),
        None => Some(st0),
    };
    match fixed {
        None => match st.chained_fixups {
            Some((off, size)) => match chained_header_error(image, off, size) {
                Some(m) => r matches Err(e) && e@ == m,
                None => r is Err,
            },
            None => r is Err,
        },
        Some(f) => match entry_point_of(st.entry_point_pc, st.entry_point_offset, st.text_base) {
            Err(message) => r matches Err(e) && e@ == message,
            Ok(entry) => r matches Ok(m) && loaded_image(m, f, entry, st, name, slide, symbols),
        },
    }
}

/// The symbol table entries that a load reads from `image` where the load
/// commands gave a symbol table, its string table bounded by the file.
pub open spec fn symbols_of(image: Seq<u8>, symtab: Option<(u32, u32, u32, u32)>) -> Option<
    Seq<(bool, Option<Seq<char>>, u64)>,
> {
    match symtab {
        Some((symoff, nsyms, stroff, strsize)) => {
            let (o, n) = string_table_within(image.len() as int, stroff, strsize);
            Some(symbol_table(image, symoff, nsyms, o, n))
        },
        None => None,
    }
}

/// How loading the image `image` with the load commands `cs` ends: the
/// commands are applied in order from nothing, and the load finished.
pub open spec fn commands_outcome(
    image: Seq<u8>,
    cs: Seq<CommandView>,
    name: Seq<char>,
    slide: u64,
    r: Result<MachO64, String>,
) -> bool {
    match commands_step(empty_load(), cs, image, slide) {
        Err(Some(m)) => r matches Err(e) && e@ == m,
        Err(None) => r is Err,
        Ok(st) => finish_outcome(st, image, name, slide, symbols_of(image, st.symtab), r),
    }
}

/// How loading a Mach-O image ends, given its header fields and its
/// number of load commands: the header must be a 64-bit little-endian
/// ARM64 one.
pub open spec fn mach_outcome(
    image: Seq<u8>,
    cputype: i32,
    is_64bit: bool,
    is_bigend: bool,
    ncmds: int,
    name: Seq<char>,
    slide: u64,
    r: Result<MachO64, String>,
) -> bool {
    match header_error(cputype, is_64bit, is_bigend) {
        Some(m) => r matches Err(e) && e@ == m,
        None => commands_outcome(image, commands_read(image, ncmds), name, slide, r),
    }
}

/// How loading the file `bytes` ends. An archive, or a file whose load
/// commands the parser would misread, is refused; otherwise the file is
/// parsed, a fat file's first ARM64 slice chosen and parsed in turn, and
/// the Mach-O image loaded.
pub open spec fn load_outcome(bytes: Seq<u8>, name: Seq<char>, slide: u64, r: Result<MachO64, String>) -> bool {
    if is_archive(bytes) {
        r matches Err(e) && e@ == "ARM64 input is not an executable Mach-O"@
    } else if !parse_ok(bytes) {
        r matches Err(e) && e@ == "could not parse ARM64 Mach-O: a load command is malformed"@
    } else {
        match parsed_file(bytes) {
            Err(m) => r matches Err(e) && e@ == "could not parse ARM64 Mach-O: "@ + m,
            Ok(FilePartsView::Mach { cputype, is_64bit, is_bigend, ncmds }) => mach_outcome(
                bytes,
                cputype,
                is_64bit,
                is_bigend,
                ncmds as int,
                name,
                slide,
                r,
            ),
            Ok(FilePartsView::Fat(slices)) => match fat_choice(bytes.len() as int, slices) {
                Err(m) => r matches Err(e) && e@ == m,
                Ok((_, start, end)) => {
                    let image = bytes.subrange(start, end);
                    if !parse_ok(image) {
                        r matches Err(e) && e@ == "could not parse ARM64 Mach-O: a load command is malformed"@
                    } else {
                        match parsed_file(image) {
                            Err(m) => r matches Err(e) && e@ == "could not parse ARM64 Mach-O: "@ + m,
                            Ok(FilePartsView::Mach { cputype, is_64bit, is_bigend, ncmds }) => mach_outcome(
                                image,
                                cputype,
                                is_64bit,
                                is_bigend,
                                ncmds as int,
                                name,
                                slide,
                                r,
                            ),
                            Ok(_) => r matches Err(e) && e@ == "ARM64 input is not an executable Mach-O"@,
                        }
                    }
                },
            },
            Ok(FilePartsView::Other) => r matches Err(e) && e@ == "ARM64 input is not an executable Mach-O"@,
        }
    }
}

impl MachO64 {
    /// Loads the ARM64 image in `bytes` (of a fat file, its first ARM64
    /// slice), with every address moved by `slide`: the segments are mapped
    /// and filled, the dyld tables and chained fixups applied, and the
    /// imports, libraries, sections, exported symbols and entry point
    /// gathered.
    pub fn load_from_bytes(bytes: &[u8], name: &str, slide: u64) -> (r: Result<MachO64, String>)
        ensures
            load_outcome(bytes@, name@, slide, r),
    {
        if starts_as_archive(bytes) {
            return Err("ARM64 input is not an executable Mach-O".to_owned());
        }
        if !check_parse(bytes) {
            return Err("could not parse ARM64 Mach-O: a load command is malformed".to_owned());
        }
        let parts = match read_file(bytes) {
            Ok(p) => p,
            Err(e) => {
                let mut message = "could not parse ARM64 Mach-O: ".to_owned();
                message.append(e.as_str());
                return Err(message);
            },
        };
        let ghost fat = parts is Fat;
        let (image, parts) = match parts {
            FileParts::Fat(slices) => {
                let (_, start, end) = match choose_fat_slice(bytes.len(), &slices) {
                    Ok(c) => c,
                    Err(e) => {
                        return Err(e);
                    },
                };
                let image = vstd::slice::slice_subrange(bytes, start, end);
                if !check_parse(image) {
                    return Err("could not parse ARM64 Mach-O: a load command is malformed".to_owned());
                }
                let slice_parts = match read_file(image) {
                    Ok(p) => p,
                    Err(e) => {
                        let mut message = "could not parse ARM64 Mach-O: ".to_owned();
                        message.append(e.as_str());
                        return Err(message);
                    },
                };
                (image, slice_parts)
            },
            other => (bytes, other),
        };
        let (cputype, is_64bit, is_bigend, ncmds) = match parts {
            FileParts::Mach { cputype, is_64bit, is_bigend, ncmds } => (cputype, is_64bit, is_bigend, ncmds),
            _ => {
                return Err("ARM64 input is not an executable Mach-O".to_owned());
            },
        };
        match check_header(cputype, is_64bit, is_bigend) {
            Ok(()) => {},
            Err(e) => {
                return Err(e);
            },
        }
        let mut commands: Vec<Command> = Vec::new();
        let mut i: usize = 0;
        while i < ncmds
            invariant
                i <= ncmds,
                parse_ok(image@),
                commands_view(commands@) == commands_read(image@, i as int),
            decreases ncmds - i,
        {
            let command = read_command(image, i);
            let ghost prev = commands_view(commands@);
            let ghost v = command@;
            commands.push(command);
            assert(commands_view(commands@) =~= prev.push(v));
            assert(commands_read(image@, i + 1) =~= commands_read(image@, i as int).push(v));
            i = i + 1;
        }
        let r = Self::load_from_commands(image, commands, name, slide);
        assert(mach_outcome(image@, cputype, is_64bit, is_bigend, ncmds as int, name@, slide, r));
        r
    }

    /// Loads the image `image` whose load commands are `commands`: each
    /// command is applied in order, then the chained fixups, the bindings,
    /// the entry point and the exported symbols settled.
    pub fn load_from_commands(image: &[u8], commands: Vec<Command>, name: &str, slide: u64) -> (r: Result<
        MachO64,
        String,
    >)
        ensures
            commands_outcome(image@, commands_view(commands@), name@, slide, r),
    {
        let ghost cs = commands_view(commands@);
        let n = commands.len();
        let mut rest = commands;
        let mut state = LoadState::new();
        let mut k: usize = 0;
        assert(cs.subrange(0, 0) =~= Seq::<CommandView>::empty());
        while rest.len() > 0
            invariant
                k + rest@.len() == n,
                n == cs.len(),
                cs == commands_view(commands@),
                state.memory_fresh(),
                forall|j: int| 0 <= j < rest@.len() ==> (#[trigger] rest@[j])@ == cs[k + j],
                commands_step(empty_load(), cs.subrange(0, k as int), image@, slide) == Ok::<
                    LoadView,
                    Option<Seq<char>>,
                >(state.view()),
            decreases rest.len(),
        {
            let ghost before = rest@;
            let command = rest.remove(0);
            assert(before[0] == command);
            assert forall|j: int| 0 <= j < rest@.len() implies (#[trigger] rest@[j])@ == cs[k + 1 + j] by {
                assert(rest@[j] == before[j + 1]);
            }
            let ghost prev = state.view();
            assert(cs.subrange(0, k + 1).drop_last() =~= cs.subrange(0, k as int));
            let ghost cv = command@;
            assert(cv == cs[k as int]);
            assert(commands_step(empty_load(), cs.subrange(0, k + 1), image@, slide) == command_step(
                prev,
                cv,
                image@,
                slide,
            ));
            match state.apply_command(command, image, slide) {
                Ok(()) => {},
                Err(e) => {
                    proof {
                        assert(command_step(prev, cv, image@, slide) is Err);
                        lemma_commands_error_extends(empty_load(), cs, image@, slide, k + 1);
                        assert(commands_step(empty_load(), cs, image@, slide) == command_step(prev, cv, image@, slide));
                        assert(commands_outcome(image@, cs, name@, slide, Err::<MachO64, String>(e)));
                    }
                    return Err(e);
                },
            }
            k = k + 1;
        }
        assert(cs.subrange(0, k as int) =~= cs);
        let symbols = match state.symtab {
            Some((symoff, nsyms, stroff, strsize)) => {
                let (table_offset, table_size) = bound_string_table(image.len(), stroff, strsize);
                Some(symbol_entries(image, symoff, nsyms, table_offset, table_size))
            },
            None => None,
        };
        Self::finish_load(state, image, name, slide, symbols)
    }

    /// Finishes loading once the load commands are applied: the chained
    /// fixups, if the image has them, are applied; the bindings sorted by
    /// address with repeats dropped; the entry point settled; and the
    /// exported symbols gathered from the symbol table entries `symbols`,
    /// where the image has a symbol table.
    pub fn finish_load(
        state: LoadState,
        image: &[u8],
        name: &str,
        slide: u64,
        symbols: Option<Vec<(bool, Option<String>, u64)>>,
    ) -> (r: Result<MachO64, String>)
        requires
            state.memory_fresh(),
        ensures
            finish_outcome(
                state.view(),
                image@,
                name@,
                slide,
                match symbols {
                    Some(t) => Some(t@.map_values(|e: (bool, Option<String>, u64)| symbol_view(e))),
                    None => None,
                },
                r,
            ),
    {
        let LoadState {
            mut memory,
            dynamic_libraries,
            mut bindings,
            text_base,
            last_segment_end,
            entry_point_pc,
            entry_point_offset,
            symtab: _,
            chained_fixups,
            sections,
            segment_bases,
        } = state;
        match chained_fixups {
            Some((off, size)) => {
                match parse_chained_fixups(image, off, size, segment_bases.as_slice(), &mut memory, &mut bindings, slide) {
                    Ok(()) => {},
                    Err(e) => {
                        return Err(e);
                    },
                }
            },
            None => {},
        }
        let ghost gathered = bindings@;
        let bindings = dedup_sorted_bindings(sort_bindings(bindings));
        let entry_point_pc = match resolve_entry_point(entry_point_pc, entry_point_offset, text_base) {
            Ok(v) => v,
            Err(e) => {
                return Err(e);
            },
        };
        let exported_symbols = match symbols {
            Some(table) => {
                let ghost view = table@.map_values(|e: (bool, Option<String>, u64)| symbol_view(e));
                let exports = collect_exports(table, slide);
                proof {
                    lemma_exports_unique(defined_names(view), slide);
                }
                exports
            },
            None => {
                assert(named_view(Seq::<(String, u64)>::empty()) =~= Seq::<(Seq<char>, u64)>::empty());
                Vec::new()
            },
        };
        assert(bindings@ == final_bindings(gathered));
        proof {
            super::laws::law_final_bindings(gathered);
        }
        Ok(MachO64 {
            architecture: Architecture::Arm64,
            name: name.to_owned(),
            dynamic_libraries,
            exported_symbols,
            bindings,
            entry_point_pc,
            text_base: match text_base {
                Some(t) => t,
                None => 0,
            },
            last_segment_end,
            memory,
            sections,
        })
    }
}

/// The index of the last `/` in `p`, or -1 if there is none.
pub open spec fn last_slash(p: Seq<char>) -> int
    decreases p.len(),
{
    if p.len() == 0 {
        -1
    } else if p.last() == '/' {
        p.len() - 1
    } else {
        last_slash(p.drop_last())
    }
}

pub proof fn lemma_last_slash(p: Seq<char>)
    ensures
        -1 <= last_slash(p) < p.len(),
        last_slash(p) >= 0 ==> p[last_slash(p)] == '/',
        forall|k: int| last_slash(p) < k < p.len() ==> p[k] != '/',
    decreases p.len(),
{
    if p.len() > 0 && p.last() != '/' {
        let q = p.drop_last();
        lemma_last_slash(q);
        assert forall|k: int| last_slash(p) < k < p.len() implies p[k] != '/' by {
            if k < q.len() {
                assert(p[k] == q[k]);
            }
        }
    }
}

/// The file name of a path, as `Path::file_name` gives it: trailing `/`
/// and `.` components are passed over, and a path whose last component is
/// `..`, or that has none, has no file name.
pub open spec fn file_name_of(p: Seq<char>) -> Option<Seq<char>>
    decreases p.len(),
{
    if p.len() == 0 {
        None
    } else if p.last() == '/' {
        file_name_of(p.drop_last())
    } else {
        let s = last_slash(p);
        let component = p.subrange(s + 1, p.len() as int);
        if component == seq!['.'] {
            if s < 0 {
                None
            } else {
                proof {
                    lemma_last_slash(p);
                }
                file_name_of(p.subrange(0, s))
            }
        } else if component == seq!['.', '.'] {
            None
        } else {
            Some(component)
        }
    }
}

/// The file name of the first `end` characters of `path`.
fn file_name_within(path: &str, end: usize) -> (r: Option<String>)
    requires
        end <= path@.len(),
    ensures
        match file_name_of(path@.subrange(0, end as int)) {
            Some(n) => r matches Some(s) && s@ == n,
            None => r is None,
        },
    decreases end,
{
    let ghost p = path@.subrange(0, end as int);
    if end == 0 {
        return None;
    }
    if path.get_char(end - 1) == '/' {
        assert(p.drop_last() =~= path@.subrange(0, end - 1));
        return file_name_within(path, end - 1);
    }
    let mut start = end;
    while start > 0 && path.get_char(start - 1) != '/'
        invariant
            start <= end <= path@.len(),
            forall|k: int| start <= k < end ==> path@[k] != '/',
        decreases start,
    {
        start = start - 1;
    }
    proof {
        lemma_last_slash(p);
        if start > 0 {
            assert(p[start - 1] == '/');
        }
        assert(last_slash(p) == start as int - 1) by {
            let s = last_slash(p);
            if s < start - 1 {
                assert(p[start - 1] == '/');
            } else if s > start - 1 {
                assert(p[s] == path@[s]);
            }
        }
    }
    let component = path.substring_char(start, end);
    assert(component@ =~= p.subrange(start as int, end as int));
    let n = end - start;
    if n == 1 && component.get_char(0) == '.' {
        assert(component@ =~= seq!['.']);
        if start == 0 {
            return None;
        }
        assert(p.subrange(0, start - 1) =~= path@.subrange(0, start - 1));
        return file_name_within(path, start - 1);
    }
    if n == 2 && component.get_char(0) == '.' && component.get_char(1) == '.' {
        assert(component@ =~= seq!['.', '.']);
        return None;
    }
    assert(component@ != seq!['.']) by {
        if component@ == seq!['.'] {
            assert(component@.len() == 1 && component@[0] == '.');
        }
    }
    assert(component@ != seq!['.', '.']) by {
        if component@ == seq!['.', '.'] {
            assert(component@.len() == 2 && component@[0] == '.' && component@[1] == '.');
        }
    }
    Some(component.to_owned())
}

/// The file name of `path`, as `Path::file_name` gives it.
pub fn file_name(path: &str) -> (r: Option<String>)
    ensures
        match file_name_of(path@) {
            Some(n) => r matches Some(s) && s@ == n,
            None => r is None,
        },
{
    let n = path.unicode_len();
    assert(path@.subrange(0, n as int) =~= path@);
    file_name_within(path, n)
}

impl MachO64 {
    /// Loads the image at `path`, whose contents are `contents` (`None` if
    /// the file could not be read); the image is named by the path's file
    /// name.
    pub fn load_from_file(path: &str, contents: Option<&[u8]>, slide: u64) -> (r: Result<MachO64, String>)
        ensures
            file_name_of(path@) is None ==> (r matches Err(e) && e@ == "64-bit executable has no file name"@),
            file_name_of(path@) is Some && contents is None ==> (r matches Err(e) && e@
                == "Could not read 64-bit executable file"@),
            file_name_of(path@) matches Some(n) ==> (contents matches Some(b) ==> load_outcome(b@, n, slide, r)),
    {
        let name = match file_name(path) {
            Some(n) => n,
            None => {
                return Err("64-bit executable has no file name".to_owned());
            },
        };
        let bytes = match contents {
            Some(b) => b,
            None => {
                return Err("Could not read 64-bit executable file".to_owned());
            },
        };
        Self::load_from_bytes(bytes, name.as_str(), slide)
    }
}

} // verus!
