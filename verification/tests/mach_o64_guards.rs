use touchhle::mach_o64::header_check::check_parse;
use touchhle::mach_o64::MachO64;
use touchhle::mach_o64::opcodes::{check_bind_stream, check_rebase_stream, read_uleb};

fn macho_with_command(cmd: u32, cmdsize: u32, offset: u32) -> Vec<u8> {
    let mut b = Vec::new();
    for w in [0xfeed_facfu32, 0x0100_000c, 0, 2, 1, cmdsize, 0, 0] {
        b.extend_from_slice(&w.to_le_bytes());
    }
    b.extend_from_slice(&cmd.to_le_bytes());
    b.extend_from_slice(&cmdsize.to_le_bytes());
    b.extend_from_slice(&offset.to_le_bytes());
    while b.len() < 32 + cmdsize as usize {
        b.push(0);
    }
    b
}

#[test]
fn uleb_numbers_read_as_the_parser_reads_them() {
    assert_eq!(read_uleb(&[0xe5, 0x8e, 0x26], 0), Some((624485, 3)));
    assert_eq!(read_uleb(&[0x10], 1), Some((0, 1)));
    let minus_eight = [0xf8, 0xff, 0xff, 0xff, 0xff, 0xff, 0xff, 0xff, 0xff, 0x01];
    assert_eq!(read_uleb(&minus_eight, 0), Some((u64::MAX - 7, 10)));
    assert_eq!(read_uleb(&[0xff; 12], 0), None);
}

#[test]
fn ordinary_opcode_streams_pass() {
    // Segment 1 at 0x10, one rebase, done.
    assert!(check_rebase_stream(&[0x21, 0x10, 0x51, 0x00]));
    // Segment 1 at 0x10, move back by 8 (a wrapped ULEB), bind.
    let back = [0x71, 0x10, 0x80, 0xf8, 0xff, 0xff, 0xff, 0xff, 0xff, 0xff, 0xff, 0xff, 0x01, 0x90];
    assert!(check_bind_stream(&back, 0));
    assert!(check_bind_stream(&[], 0));
}

#[test]
fn opcode_streams_that_overflow_the_offset_are_refused() {
    let near_top = [0x21, 0xf8, 0xff, 0xff, 0xff, 0xff, 0xff, 0xff, 0xff, 0x7f, 0x51];
    assert!(!check_rebase_stream(&near_top));
    let top = [0x80, 0xff, 0xff, 0xff, 0xff, 0xff, 0xff, 0xff, 0xff, 0x7f, 0x80, 0x01];
    assert!(!check_bind_stream(&top, 0));
    // 2^25 binds in one opcode, 8 bytes apart, stay in range.
    assert!(check_bind_stream(&[0xc0, 0x80, 0x80, 0x80, 0x10, 0x00], 0));
    // 2^40 binds, 2^30 + 8 bytes apart, do not.
    assert!(!check_bind_stream(
        &[0xc0, 0x80, 0x80, 0x80, 0x80, 0x80, 0x20, 0x80, 0x80, 0x80, 0x80, 0x04],
        0
    ));
}

#[test]
fn load_commands_with_wrapping_offsets_are_refused() {
    assert!(check_parse(&macho_with_command(0x0c, 32, 24)));
    assert!(!check_parse(&macho_with_command(0x0c, 32, 4)));
    assert!(!check_parse(&macho_with_command(0x0e, 16, 8)));
    assert!(check_parse(&macho_with_command(0x8000_001c, 16, 12)));
    assert!(!check_parse(&macho_with_command(0x8000_001c, 16, 20)));
    assert!(!check_parse(b"!<arch>\nrest of an archive"));
    assert!(check_parse(b"definitely not an executable"));
    assert_eq!(
        MachO64::load_from_bytes(b"!<arch>\nrest of an archive", "Archive", 0).err(),
        Some("ARM64 input is not an executable Mach-O".to_string())
    );
    assert_eq!(
        MachO64::load_from_bytes(&macho_with_command(0x0c, 32, 4), "Bad", 0).err(),
        Some("could not parse ARM64 Mach-O: a load command is malformed".to_string())
    );
}

#[test]
fn streams_end_where_their_iterator_ends() {
    // An overflowing add after the end opcode is never read by the bind
    // iterator, but the lazy bind iterator goes on past the end opcode.
    let after_done = [0x00, 0x80, 0xff, 0xff, 0xff, 0xff, 0xff, 0xff, 0xff, 0xff, 0x7f, 0x80, 0x01];
    assert!(check_bind_stream(&after_done, 0));
    assert!(check_bind_stream(&after_done, 1));
    assert!(!check_bind_stream(&after_done, 2));
    // The weak bind iterator stops at a library ordinal.
    let after_ordinal = [0x11, 0x80, 0xff, 0xff, 0xff, 0xff, 0xff, 0xff, 0xff, 0xff, 0x7f, 0x80, 0x01];
    assert!(check_bind_stream(&after_ordinal, 1));
    assert!(!check_bind_stream(&after_ordinal, 0));
    // The rebase iterator stops at an unknown pointer type.
    assert!(check_rebase_stream(&[0x1f, 0x21, 0xf8, 0xff, 0xff, 0xff, 0xff, 0xff, 0xff, 0xff, 0x7f, 0x51]));
}
