use touchhle::mach_o64::loader::{
    bound_string_table, check_header, choose_fat_slice, collect_binds, collect_exports,
    file_name, resolve_entry_point, LoadState,
};
use touchhle::mach_o64::{
    add_signed, command_bytes, dedup_sorted_bindings, parse_chained_fixups,
    parse_chained_imports, read_cstr, read_u16, read_u32, read_u64, sort_bindings, BindEntry,
    Binding64, DyldInfo, MachO64, CPU_TYPE_ARM64,
};
use touchhle::mem64::{Mem64, Permissions};

fn binding(address: u64, symbol: &str, addend: i64) -> Binding64 {
    Binding64 { address, symbol: symbol.to_string(), addend }
}

fn push_u32(v: &mut Vec<u8>, x: u32) {
    v.extend_from_slice(&x.to_le_bytes());
}

fn push_u64(v: &mut Vec<u8>, x: u64) {
    v.extend_from_slice(&x.to_le_bytes());
}

/// A little ARM64 executable: one `__TEXT` segment holding the whole file
/// and an `LC_MAIN`, after an optional `__PAGEZERO`.
fn tiny_image(cputype: u32, with_pagezero: bool) -> Vec<u8> {
    let ncmds: u32 = if with_pagezero { 4 } else { 2 };
    let sizeofcmds: u32 = if with_pagezero { 72 * 2 + 24 + 24 } else { 72 + 24 };
    let mut v = Vec::new();
    push_u32(&mut v, 0xfeed_facf);
    push_u32(&mut v, cputype);
    push_u32(&mut v, 0);
    push_u32(&mut v, 2);
    push_u32(&mut v, ncmds);
    push_u32(&mut v, sizeofcmds);
    push_u32(&mut v, 0);
    push_u32(&mut v, 0);
    let segment = |v: &mut Vec<u8>, name: &str, vmaddr: u64, vmsize: u64, filesize: u64, prot: u32| {
        push_u32(v, 0x19);
        push_u32(v, 72);
        let mut segname = [0u8; 16];
        segname[..name.len()].copy_from_slice(name.as_bytes());
        v.extend_from_slice(&segname);
        push_u64(v, vmaddr);
        push_u64(v, vmsize);
        push_u64(v, 0);
        push_u64(v, filesize);
        push_u32(v, prot);
        push_u32(v, prot);
        push_u32(v, 0);
        push_u32(v, 0);
    };
    if with_pagezero {
        segment(&mut v, "__PAGEZERO", 0, 0x1_0000_0000, 0, 0);
    }
    segment(&mut v, "__TEXT", 0x1_0000_0000, 0x1000, 256, 5);
    push_u32(&mut v, 0x8000_0028);
    push_u32(&mut v, 24);
    push_u64(&mut v, 0x80);
    push_u64(&mut v, 0);
    if with_pagezero {
        // LC_SYMTAB: one defined symbol, `_main`, at 224, and its name at 240.
        push_u32(&mut v, 0x2);
        push_u32(&mut v, 24);
        push_u32(&mut v, 224);
        push_u32(&mut v, 1);
        push_u32(&mut v, 240);
        push_u32(&mut v, 7);
        assert_eq!(v.len(), 224);
        push_u32(&mut v, 1);
        v.push(0x0f);
        v.push(1);
        v.extend_from_slice(&0u16.to_le_bytes());
        push_u64(&mut v, 0x1_0000_0090);
        v.extend_from_slice(b"\0_main\0");
    }
    v.resize(256, 0);
    v
}

#[test]
fn reads_little_endian_integers_and_reports_truncation() {
    let bytes = [0x01, 0x02, 0x03, 0x04, 0x05, 0x06, 0x07, 0x08, 0x09];
    assert_eq!(read_u16(&bytes, 1), Ok(0x0302));
    assert_eq!(read_u32(&bytes, 0), Ok(0x0403_0201));
    assert_eq!(read_u64(&bytes, 1), Ok(0x0908_0706_0504_0302));
    assert_eq!(read_u64(&bytes, 2), Err("ARM64 fixups are truncated".to_string()));
    assert_eq!(read_u32(&bytes, usize::MAX - 1), Err("ARM64 fixup offset overflows".to_string()));
}

#[test]
fn reads_nul_terminated_symbols() {
    let bytes = b"_a\0_bc\0_d";
    assert_eq!(read_cstr(bytes, 3), Ok("_bc".to_string()));
    assert_eq!(read_cstr(bytes, 7), Err("ARM64 fixup string is unterminated".to_string()));
    assert_eq!(read_cstr(bytes, 10), Err("ARM64 fixup string offset is invalid".to_string()));
    assert_eq!(read_cstr(&[0xff, 0], 0), Err("ARM64 fixup symbol is not UTF-8".to_string()));
}

#[test]
fn signed_offsets_stay_within_64_bits() {
    assert_eq!(add_signed(0x1000, -0x10), Ok(0xff0));
    assert_eq!(add_signed(0x1000, 0x10), Ok(0x1010));
    assert_eq!(add_signed(u64::MAX, 1), Err("ARM64 address overflows".to_string()));
    assert_eq!(add_signed(5, -6), Err("ARM64 address underflows".to_string()));
    assert_eq!(add_signed(u64::MAX, i64::MIN), Ok(0x7fff_ffff_ffff_ffff));
}

#[test]
fn command_tables_must_lie_in_the_file() {
    let bytes = [1u8, 2, 3, 4];
    assert_eq!(command_bytes(&bytes, 1, 2), Ok(&bytes[1..3]));
    assert_eq!(
        command_bytes(&bytes, 3, 2),
        Err("ARM64 dyld info extends past the Mach-O file".to_string())
    );
}

#[test]
fn chained_imports_of_each_format() {
    let mut blob = Vec::new();
    push_u32(&mut blob, 1 | (0 << 9));
    push_u32(&mut blob, 2 | (3 << 9));
    blob.extend_from_slice(b"_a\0_bb\0");
    let imports = parse_chained_imports(&blob, 0, 8, 2, 1).unwrap();
    assert_eq!(imports.len(), 2);
    assert_eq!((imports[0].ordinal, imports[0].name.as_str(), imports[0].addend), (1, "_a", 0));
    assert_eq!((imports[1].ordinal, imports[1].name.as_str(), imports[1].addend), (2, "_bb", 0));

    let mut blob = Vec::new();
    push_u32(&mut blob, 1);
    push_u32(&mut blob, (-8i32) as u32);
    blob.extend_from_slice(b"_c\0");
    let imports = parse_chained_imports(&blob, 0, 8, 1, 2).unwrap();
    assert_eq!(imports[0].addend, -8);

    assert_eq!(
        parse_chained_imports(&blob, 0, 8, 1, 7).err(),
        Some("unsupported ARM64 chained import format 7".to_string())
    );
}

#[test]
fn chained_fixups_bind_and_rebase_along_a_chain() {
    let mut blob = Vec::new();
    push_u32(&mut blob, 0);
    push_u32(&mut blob, 32);
    push_u32(&mut blob, 64);
    push_u32(&mut blob, 72);
    push_u32(&mut blob, 1);
    push_u32(&mut blob, 1);
    push_u32(&mut blob, 0);
    push_u32(&mut blob, 0);
    push_u32(&mut blob, 1);
    push_u32(&mut blob, 8);
    push_u32(&mut blob, 24);
    blob.extend_from_slice(&0x1000u16.to_le_bytes());
    blob.extend_from_slice(&6u16.to_le_bytes());
    push_u64(&mut blob, 0);
    push_u32(&mut blob, 0);
    blob.extend_from_slice(&1u16.to_le_bytes());
    blob.extend_from_slice(&0u16.to_le_bytes());
    assert_eq!(blob.len(), 64);
    push_u32(&mut blob, 1);
    push_u32(&mut blob, 0);
    blob.extend_from_slice(b"_foo\0");
    let mut memory = Mem64::new();
    memory.map_zeroed_with_permissions(0x1000, 0x1000, Permissions::read_write()).unwrap();
    memory.write_u64(0x1000, (1u64 << 63) | (2u64 << 51)).unwrap();
    memory.write_u64(0x1008, 0x2000).unwrap();
    let mut bindings = vec![binding(0x10, "_first", 0)];
    let size = blob.len() as u32;
    parse_chained_fixups(&blob, 0, size, &[0x1000], &mut memory, &mut bindings, 0x100).unwrap();
    assert_eq!(bindings.len(), 2);
    assert_eq!(bindings[0].symbol, "_first");
    assert_eq!((bindings[1].address, bindings[1].symbol.as_str(), bindings[1].addend), (0x1000, "_foo", 0));
    assert_eq!(memory.read_u64(0x1008), Ok(0x2100));

    let short = &blob[..20];
    assert_eq!(
        parse_chained_fixups(short, 0, 20, &[0x1000], &mut memory, &mut bindings, 0).err(),
        Some("ARM64 chained fixups header is truncated".to_string())
    );
}

#[test]
fn bindings_are_sorted_stably_and_repeats_dropped() {
    let v = vec![
        binding(0x30, "_c", 0),
        binding(0x10, "_a", 0),
        binding(0x30, "_c", 0),
        binding(0x10, "_b", 0),
        binding(0x10, "_a", 0),
    ];
    let sorted = sort_bindings(v);
    let order: Vec<(u64, &str)> = sorted.iter().map(|b| (b.address, b.symbol.as_str())).collect();
    assert_eq!(order, vec![(0x10, "_a"), (0x10, "_b"), (0x10, "_a"), (0x30, "_c"), (0x30, "_c")]);
    let deduped = dedup_sorted_bindings(sorted);
    let order: Vec<(u64, &str)> = deduped.iter().map(|b| (b.address, b.symbol.as_str())).collect();
    assert_eq!(order, vec![(0x10, "_a"), (0x10, "_b"), (0x10, "_a"), (0x30, "_c")]);
}

#[test]
fn fat_files_load_their_first_arm64_slice() {
    let slices = vec![(7, 0, 10), (CPU_TYPE_ARM64, 16, 32), (CPU_TYPE_ARM64, 64, 8)];
    assert_eq!(choose_fat_slice(100, &slices), Ok((1, 16, 48)));
    assert_eq!(
        choose_fat_slice(40, &slices),
        Err("ARM64 fat slice extends past the file".to_string())
    );
    assert_eq!(choose_fat_slice(100, &vec![(7, 0, 10)]), Err("fat binary has no ARM64 slice".to_string()));
}

#[test]
fn headers_must_be_little_endian_arm64() {
    assert_eq!(check_header(CPU_TYPE_ARM64, true, false), Ok(()));
    assert_eq!(check_header(12, true, false), Err("Mach-O is not an ARM64 64-bit image".to_string()));
    assert_eq!(check_header(CPU_TYPE_ARM64, false, false), Err("Mach-O is not an ARM64 64-bit image".to_string()));
    assert_eq!(check_header(CPU_TYPE_ARM64, true, true), Err("ARM64 Mach-O is big-endian".to_string()));
}

fn bind_entry(pointer: bool, segment_index: usize, symbol_offset: i64, name: &str, addend: u64) -> BindEntry {
    BindEntry { pointer, segment_index, symbol_offset, name: name.to_string(), addend }
}

#[test]
fn dyld_binds_become_bindings() {
    let entries = vec![
        bind_entry(true, 1, 0x18, "_malloc", 4),
        bind_entry(false, 0, 0, "_skipped", 0),
        bind_entry(true, 0, -8, "_free", u64::MAX),
    ];
    let mut bindings = Vec::new();
    collect_binds(&entries, &[0x1000, 0x2000], "bad segment", &mut bindings).unwrap();
    assert_eq!(bindings.len(), 2);
    assert_eq!((bindings[0].address, bindings[0].symbol.as_str(), bindings[0].addend), (0x2018, "_malloc", 4));
    assert_eq!((bindings[1].address, bindings[1].symbol.as_str(), bindings[1].addend), (0xff8, "_free", -1));
    let bad = vec![bind_entry(true, 2, 0, "_x", 0)];
    assert_eq!(collect_binds(&bad, &[0x1000], "bad segment", &mut bindings), Err("bad segment".to_string()));
}

#[test]
fn exports_keep_the_last_definition_of_each_name() {
    let table = vec![
        (true, Some("_main".to_string()), 0x100),
        (false, Some("_undefined".to_string()), 0),
        (true, None, 0x300),
        (true, Some("_helper".to_string()), 0x200),
        (true, Some("_main".to_string()), 0x400),
    ];
    let exports = collect_exports(table, 0x1000);
    assert_eq!(exports, vec![("_main".to_string(), 0x1400), ("_helper".to_string(), 0x1200)]);
    let wrapped = collect_exports(vec![(true, Some("_top".to_string()), u64::MAX)], 2);
    assert_eq!(wrapped, vec![("_top".to_string(), 1)]);
}

#[test]
fn entry_points_come_from_lc_main_or_the_thread_state() {
    assert_eq!(resolve_entry_point(Some(0x40), None, None), Ok(Some(0x40)));
    assert_eq!(resolve_entry_point(Some(0x40), Some(0x10), Some(0x1000)), Ok(Some(0x1010)));
    assert_eq!(
        resolve_entry_point(None, Some(0x10), None),
        Err("ARM64 LC_MAIN image has no __TEXT segment".to_string())
    );
    assert_eq!(resolve_entry_point(None, Some(2), Some(u64::MAX)), Err("entry point overflows".to_string()));
}

#[test]
fn string_tables_are_bounded_by_the_file() {
    assert_eq!(bound_string_table(100, 10, 20), (10, 20));
    assert_eq!(bound_string_table(100, 90, 20), (90, 11));
    assert_eq!(bound_string_table(100, 200, 20), (0, 0));
}

#[test]
fn file_names_follow_path_rules() {
    assert_eq!(file_name("/Applications/Game.app/Game"), Some("Game".to_string()));
    assert_eq!(file_name("bin/tool/"), Some("tool".to_string()));
    assert_eq!(file_name("bin/tool/."), Some("tool".to_string()));
    assert_eq!(file_name("bin/.."), None);
    assert_eq!(file_name("/"), None);
    assert_eq!(file_name(""), None);
}

#[test]
fn garbage_is_not_a_mach_o() {
    let result = MachO64::load_from_bytes(b"definitely not an executable", "junk", 0);
    assert!(result.err().unwrap().starts_with("could not parse ARM64 Mach-O: "));
}

#[test]
fn loads_a_tiny_arm64_image() {
    let bytes = tiny_image(CPU_TYPE_ARM64 as u32, true);
    let image = MachO64::load_from_bytes(&bytes, "Tiny", 0x4000).unwrap();
    assert_eq!(image.name, "Tiny");
    assert_eq!(image.text_base, 0x1_0000_4000);
    assert_eq!(image.entry_point_pc, Some(0x1_0000_4080));
    assert_eq!(image.last_segment_end, 0x1_0000_5000);
    assert!(image.bindings.is_empty());
    assert!(image.sections.is_empty());
    assert_eq!(image.exported_symbols, vec![("_main".to_string(), 0x1_0000_4090)]);
    assert_eq!(image.memory.read_u32(0x1_0000_4000), Ok(0xfeed_facf));
    assert_eq!(image.memory.read_u32(0x1_0000_4100), Ok(0));
    assert!(image.memory.read_u32(0x4000).is_err());
}

#[test]
fn other_cpu_types_are_refused() {
    let bytes = tiny_image(12, false);
    assert_eq!(
        MachO64::load_from_bytes(&bytes, "Arm32", 0).err(),
        Some("Mach-O is not an ARM64 64-bit image".to_string())
    );
}

#[test]
fn files_need_a_name_and_contents() {
    let bytes = tiny_image(CPU_TYPE_ARM64 as u32, false);
    assert_eq!(
        MachO64::load_from_file("/", Some(&bytes), 0).err(),
        Some("64-bit executable has no file name".to_string())
    );
    assert_eq!(
        MachO64::load_from_file("/App/Game", None, 0).err(),
        Some("Could not read 64-bit executable file".to_string())
    );
    let image = MachO64::load_from_file("/App/Game", Some(&bytes), 0).unwrap();
    assert_eq!(image.name, "Game");
    assert_eq!(image.entry_point_pc, Some(0x1_0000_0080));
}

#[test]
fn dyld_tables_rebase_and_bind() {
    let mut image = vec![0x11, 0x20, 0x08, 0x51, 0x00, 0, 0, 0];
    image.extend_from_slice(&[0x11, 0x40, b'_', b'f', b'o', b'o', 0x00, 0x51, 0x70, 0x10, 0x90, 0x00]);
    image.extend_from_slice(&[0x40, b'_', b'w', 0x00, 0x51, 0x70, 0x20, 0x90, 0x00]);
    image.extend_from_slice(&[0x70, 0x18, 0x11, 0x40, b'_', b'l', b'z', 0x00, 0x90, 0x00]);
    let info = DyldInfo {
        rebase_off: 0,
        rebase_size: 5,
        bind_off: 8,
        bind_size: 12,
        weak_bind_off: 20,
        weak_bind_size: 9,
        lazy_bind_off: 29,
        lazy_bind_size: 10,
    };
    let mut state = LoadState::new();
    state.memory.map_zeroed_with_permissions(0x1000, 0x1000, Permissions::read_write()).unwrap();
    state.memory.write_u64(0x1008, 0x500).unwrap();
    state.segment_bases.push(0x1000);
    state.apply_dyld_info(info, &image, 0x100).unwrap();
    assert_eq!(state.memory.read_u64(0x1008), Ok(0x600));
    let got: Vec<(u64, &str, i64)> =
        state.bindings.iter().map(|b| (b.address, b.symbol.as_str(), b.addend)).collect();
    assert_eq!(got, vec![(0x1010, "_foo", 0), (0x1020, "_w", 0), (0x1018, "_lz", 0)]);

    let past = DyldInfo { rebase_off: 36, rebase_size: 8, ..info };
    assert_eq!(
        LoadState::new().apply_dyld_info(past, &image, 0),
        Err("ARM64 dyld info extends past the Mach-O file".to_string())
    );
}

#[test]
fn finishing_a_load_settles_entry_and_exports() {
    let mut state = LoadState::new();
    state.entry_point_offset = Some(0x10);
    assert_eq!(
        MachO64::finish_load(state, &[], "App", 0, None).err(),
        Some("ARM64 LC_MAIN image has no __TEXT segment".to_string())
    );
    let mut state = LoadState::new();
    state.text_base = Some(0x4000);
    state.entry_point_offset = Some(0x10);
    state.bindings = vec![binding(0x20, "_b", 0), binding(0x10, "_a", 0), binding(0x20, "_b", 0)];
    let symbols = vec![(true, Some("_main".to_string()), 0x100)];
    let image = MachO64::finish_load(state, &[], "App", 0x1000, Some(symbols)).unwrap();
    assert_eq!(image.entry_point_pc, Some(0x4010));
    assert_eq!(image.text_base, 0x4000);
    assert_eq!(image.exported_symbols, vec![("_main".to_string(), 0x1100)]);
    let order: Vec<(u64, &str)> = image.bindings.iter().map(|b| (b.address, b.symbol.as_str())).collect();
    assert_eq!(order, vec![(0x10, "_a"), (0x20, "_b")]);
}
