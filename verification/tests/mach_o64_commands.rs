use touchhle::mach_o64::loader::Command;
use touchhle::mach_o64::{MachO64, SectionInfo, SegmentCommand, StartCommand, TableCommand};

fn segment(name: &str, vmaddr: u64, vmsize: u64, fileoff: u64, filesize: u64, sections: Vec<SectionInfo>) -> Command {
    Command::Segment(SegmentCommand {
        segname: name.to_string(),
        vmaddr,
        vmsize,
        fileoff,
        filesize,
        maxprot: 5,
        initprot: 5,
        sections,
    })
}

fn image() -> Vec<u8> {
    (1..=16).collect()
}

fn basic_commands() -> Vec<Command> {
    vec![
        segment("__PAGEZERO", 0, 0x1_0000_0000, 0, 0, vec![]),
        segment(
            "__TEXT",
            0x1_0000_0000,
            0x1000,
            0,
            16,
            vec![SectionInfo { sectname: "__text".to_string(), addr: 0x1_0000_0008, size: 8 }],
        ),
        Command::Start(StartCommand::LoadDylib("/usr/lib/libSystem.B.dylib".to_string())),
        Command::Table(TableCommand::ChainedFixups { off: 0, size: 0 }),
        Command::Other,
        Command::Start(StartCommand::EntryPoint { entryoff: 8 }),
    ]
}

#[test]
fn commands_build_the_image_at_the_slide() {
    let mut commands = basic_commands();
    commands.remove(3);
    let image = MachO64::load_from_commands(&image(), commands, "App", 0x4000).unwrap();
    assert_eq!(image.name, "App");
    assert_eq!(image.text_base, 0x1_0000_4000);
    assert_eq!(image.entry_point_pc, Some(0x1_0000_4008));
    assert_eq!(image.last_segment_end, 0x1_0000_5000);
    assert_eq!(image.dynamic_libraries, vec!["/usr/lib/libSystem.B.dylib".to_string()]);
    assert_eq!(image.sections.len(), 1);
    assert_eq!(image.sections[0].name, "__text");
    assert_eq!(image.sections[0].address, 0x1_0000_4008);
    assert_eq!(image.sections[0].size, 8);
    assert_eq!(image.memory.read_u8(0x1_0000_4000), Ok(1));
    assert_eq!(image.memory.read_u8(0x1_0000_400f), Ok(16));
    assert_eq!(image.memory.read_u8(0x1_0000_4010), Ok(0));
    assert!(image.memory.read_u8(0x1_0000_3fff).is_err());
    assert!(image.memory.read_u8(0x1_0000_5000).is_err());
    assert!(image.bindings.is_empty());
    assert!(image.exported_symbols.is_empty());
}

#[test]
fn a_thread_state_gives_the_entry_point_when_there_is_no_lc_main() {
    let commands = vec![
        segment("__TEXT", 0x1_0000_0000, 0x1000, 0, 16, vec![]),
        Command::Start(StartCommand::Arm64Thread { pc: 0x1_0000_0004 }),
    ];
    let image = MachO64::load_from_commands(&image(), commands, "App", 0x10).unwrap();
    assert_eq!(image.entry_point_pc, Some(0x1_0000_0014));
}

#[test]
fn refused_commands_stop_the_load() {
    let encrypted = vec![Command::Start(StartCommand::Encryption { id: 1 })];
    assert_eq!(
        MachO64::load_from_commands(&image(), encrypted, "App", 0).err(),
        Some("ARM64 executable is encrypted".to_string())
    );
    let past = vec![segment("__TEXT", 0x1_0000_0000, 0x1000, 8, 16, vec![])];
    assert_eq!(
        MachO64::load_from_commands(&image(), past, "App", 0).err(),
        Some("segment __TEXT extends past the Mach-O file".to_string())
    );
    let overlap = vec![
        segment("__TEXT", 0x1_0000_0000, 0x1000, 0, 0, vec![]),
        segment("__DATA", 0x1_0000_0800, 0x1000, 0, 0, vec![]),
    ];
    assert_eq!(
        MachO64::load_from_commands(&image(), overlap, "App", 0).err(),
        Some("64-bit mapping overlaps an existing mapping".to_string())
    );
    let no_text = vec![Command::Start(StartCommand::EntryPoint { entryoff: 8 })];
    assert_eq!(
        MachO64::load_from_commands(&image(), no_text, "App", 0).err(),
        Some("ARM64 LC_MAIN image has no __TEXT segment".to_string())
    );
    let wrapping = vec![segment("__TEXT", u64::MAX - 0x10, 0x1000, 0, 0, vec![])];
    assert_eq!(
        MachO64::load_from_commands(&image(), wrapping, "App", 0).err(),
        Some("segment end overflows".to_string())
    );
    let thread = vec![Command::Start(StartCommand::Arm64Thread { pc: u64::MAX })];
    assert_eq!(
        MachO64::load_from_commands(&image(), thread, "App", 1).err(),
        Some("entry point overflows".to_string())
    );
    let section = vec![segment(
        "__TEXT",
        0x1000,
        0x1000,
        0,
        0,
        vec![SectionInfo { sectname: "__text".to_string(), addr: u64::MAX, size: 8 }],
    )];
    assert_eq!(
        MachO64::load_from_commands(&image(), section, "App", 1).err(),
        Some("section address overflows".to_string())
    );
}

#[test]
fn empty_chained_fixups_are_refused() {
    assert_eq!(
        MachO64::load_from_commands(&image(), basic_commands(), "App", 0).err(),
        Some("ARM64 chained fixups header is truncated".to_string())
    );
}

fn push_be(v: &mut Vec<u8>, x: u32) {
    v.extend_from_slice(&x.to_be_bytes());
}

fn thin_image() -> Vec<u8> {
    let mut v = Vec::new();
    for x in [0xfeed_facfu32, 0x0100_000c, 0, 2, 2, 96, 0, 0] {
        v.extend_from_slice(&x.to_le_bytes());
    }
    v.extend_from_slice(&0x19u32.to_le_bytes());
    v.extend_from_slice(&72u32.to_le_bytes());
    let mut name = [0u8; 16];
    name[..6].copy_from_slice(b"__TEXT");
    v.extend_from_slice(&name);
    for x in [0x1_0000_0000u64, 0x1000, 0, 128] {
        v.extend_from_slice(&x.to_le_bytes());
    }
    for x in [5u32, 5, 0, 0] {
        v.extend_from_slice(&x.to_le_bytes());
    }
    v.extend_from_slice(&0x8000_0028u32.to_le_bytes());
    v.extend_from_slice(&24u32.to_le_bytes());
    v.extend_from_slice(&0x40u64.to_le_bytes());
    v.extend_from_slice(&0u64.to_le_bytes());
    v.resize(128, 0);
    v
}

#[test]
fn a_fat_file_loads_its_arm64_slice() {
    let thin = thin_image();
    let direct = MachO64::load_from_bytes(&thin, "Thin", 0).unwrap();
    assert_eq!(direct.entry_point_pc, Some(0x1_0000_0040));
    let mut fat = Vec::new();
    push_be(&mut fat, 0xcafe_babe);
    push_be(&mut fat, 2);
    for (cputype, offset) in [(7u32, 128u32), (0x0100_000c, 256)] {
        push_be(&mut fat, cputype);
        push_be(&mut fat, 0);
        push_be(&mut fat, offset);
        push_be(&mut fat, thin.len() as u32);
        push_be(&mut fat, 0);
    }
    fat.resize(128, 0);
    fat.extend_from_slice(&thin);
    fat.extend_from_slice(&thin);
    let image = MachO64::load_from_bytes(&fat, "Fat", 0x4000).unwrap();
    assert_eq!(image.entry_point_pc, Some(0x1_0000_4040));
    assert_eq!(image.memory.read_u32(0x1_0000_4000), Ok(0xfeed_facf));
}
