use touchhle::gdb::wire::{frame_packet, scan_packet, PacketError, Scanned};
use touchhle::gdb::{
    DebugTarget, DebugThread, DebuggerAction, GdbServer, GuestContext, StopReason,
};
use touchhle::mem64::{Mem64, Permissions};

fn target() -> DebugTarget {
    let mut mem = Mem64::new();
    mem.map_zeroed(0x1000, 0x100).unwrap();
    mem.map_zeroed_with_permissions(0x2000, 0x10, Permissions::read()).unwrap();
    let mut regs = [0u32; 16];
    for (i, r) in regs.iter_mut().enumerate() {
        *r = i as u32;
    }
    regs[15] = 0x1234_5678;
    let saved = GuestContext { regs: [0xaabb_ccdd; 16], cpsr: 0x10 };
    DebugTarget {
        threads: vec![
            DebugThread { active: true, guest_context: None, blocked_by: b"None".to_vec() },
            DebugThread {
                active: true,
                guest_context: Some(saved),
                blocked_by: b"Some(Sleep)".to_vec(),
            },
            DebugThread { active: false, guest_context: None, blocked_by: b"None".to_vec() },
        ],
        current_thread: 0,
        cpu: GuestContext { regs, cpsr: 0x6000_0010 },
        mem,
    }
}

fn reply(a: DebuggerAction) -> String {
    match a {
        DebuggerAction::Reply(b) => String::from_utf8(b).unwrap(),
        other => panic!("expected a reply, got {:?}", other),
    }
}

#[test]
fn frames_with_checksum() {
    assert_eq!(frame_packet(b"OK"), b"$OK#9a".to_vec());
    assert_eq!(frame_packet(b""), b"$#00".to_vec());
}

#[test]
fn scans_acks_packets_and_garbage() {
    assert_eq!(scan_packet(b"", 4096), Scanned::Pending);
    assert_eq!(scan_packet(b"+$g#67", 4096), Scanned::Ack);
    assert_eq!(
        scan_packet(b"$g#67+", 4096),
        Scanned::Packet { body: b"g".to_vec(), consumed: 5 }
    );
    assert_eq!(scan_packet(b"$g#6", 4096), Scanned::Pending);
    assert_eq!(scan_packet(b"$g", 4096), Scanned::Pending);
    assert_eq!(scan_packet(b"$g", 2), Scanned::Malformed(PacketError::Overlong));
    assert_eq!(scan_packet(b"x", 4096), Scanned::Malformed(PacketError::NotAPacket));
    assert_eq!(scan_packet(b"$g#68", 4096), Scanned::Malformed(PacketError::ChecksumMismatch));
    assert_eq!(scan_packet(b"$g#zz", 4096), Scanned::Malformed(PacketError::BadChecksumDigits));
    assert_eq!(scan_packet(b"$\xff#ff", 4096), Scanned::Malformed(PacketError::NotUtf8));
}

#[test]
fn framed_packet_scans_back() {
    let body = b"qXfer:threads:read::0,fff".to_vec();
    let mut buf = frame_packet(&body);
    let len = buf.len();
    buf.extend_from_slice(b"+$");
    assert_eq!(scan_packet(&buf, 4096), Scanned::Packet { body, consumed: len });
}

#[test]
fn first_halt_sends_no_stop_reply() {
    let t = target();
    let mut s = GdbServer::new();
    assert_eq!(s.halt_reply(None, &t), None);
    assert_eq!(s.halt_reply(None, &t), Some(b"S05;thread:1;".to_vec()));
    assert_eq!(
        s.halt_reply(Some(StopReason::MemoryError), &t),
        Some(b"S0b;thread:1;".to_vec())
    );
}

#[test]
fn stop_query_and_registers() {
    let mut t = target();
    let mut s = GdbServer::new();
    assert_eq!(reply(s.handle_packet(Some(StopReason::Breakpoint), b"?", &mut t)), "S05;thread:1;");
    assert_eq!(reply(s.handle_packet(None, b"?", &mut t)), "S00;thread:1;");
    let regs = reply(s.handle_packet(None, b"g", &mut t));
    assert_eq!(regs.len(), 128);
    assert!(regs.starts_with("0000000001000000"));
    assert!(regs.ends_with("78563412"));
    assert_eq!(reply(s.handle_packet(None, b"pf", &mut t)), "78563412");
    assert_eq!(reply(s.handle_packet(None, b"p19", &mut t)), "10000060");
    assert_eq!(reply(s.handle_packet(None, b"p1a", &mut t)), "0000000000000000");
    assert_eq!(reply(s.handle_packet(None, b"p10", &mut t)), "00000000");
    assert_eq!(reply(s.handle_packet(None, b"p3b", &mut t)), "E00");
    assert_eq!(reply(s.handle_packet(None, b"pzz", &mut t)), "E01");
}

#[test]
fn register_write_reads_back() {
    let mut t = target();
    let mut s = GdbServer::new();
    assert_eq!(reply(s.handle_packet(None, b"P3=efbeadde", &mut t)), "OK");
    assert_eq!(t.cpu.regs[3], 0xdead_beef);
    assert_eq!(reply(s.handle_packet(None, b"p3", &mut t)), "efbeadde");
    assert_eq!(reply(s.handle_packet(None, b"P1a=12345678", &mut t)), "OK");
    assert_eq!(reply(s.handle_packet(None, b"P3b=1", &mut t)), "E00");
    assert_eq!(reply(s.handle_packet(None, b"P3", &mut t)), "E01");
}

#[test]
fn all_registers_write() {
    let mut t = target();
    let mut s = GdbServer::new();
    let mut packet = b"G".to_vec();
    for i in 0..16u32 {
        packet.extend_from_slice(format!("{:08x}", (i + 1).swap_bytes()).as_bytes());
    }
    assert_eq!(reply(s.handle_packet(None, &packet, &mut t)), "OK");
    assert_eq!(t.cpu.regs[0], 1);
    assert_eq!(t.cpu.regs[15], 16);
    assert_eq!(t.cpu.cpsr, 0x6000_0010);
    assert_eq!(reply(s.handle_packet(None, b"G00", &mut t)), "E01");
}

#[test]
fn selected_thread_registers() {
    let mut t = target();
    let mut s = GdbServer::new();
    assert_eq!(reply(s.handle_packet(None, b"Hg2", &mut t)), "OK");
    assert_eq!(reply(s.handle_packet(None, b"p0", &mut t)), "ddccbbaa");
    assert_eq!(reply(s.handle_packet(None, b"Hg3", &mut t)), "E01");
    assert_eq!(reply(s.handle_packet(None, b"Hg9", &mut t)), "E01");
    assert_eq!(reply(s.handle_packet(None, b"Hg-1", &mut t)), "OK");
    assert_eq!(reply(s.handle_packet(None, b"p0", &mut t)), "00000000");
    assert_eq!(reply(s.handle_packet(None, b"Hx1", &mut t)), "E01");
    assert_eq!(reply(s.handle_packet(None, b"H", &mut t)), "E01");
}

#[test]
fn memory_write_reads_back() {
    let mut t = target();
    let mut s = GdbServer::new();
    assert_eq!(
        s.handle_packet(None, b"M1004,3:0aFf10", &mut t),
        DebuggerAction::Written { address: 0x1004, length: 3 }
    );
    assert_eq!(reply(s.handle_packet(None, b"m1003,5", &mut t)), "000aff1000");
    assert_eq!(reply(s.handle_packet(None, b"m2000,2", &mut t)), "0000");
    assert_eq!(reply(s.handle_packet(None, b"m3000,2", &mut t)), "E00");
    assert_eq!(reply(s.handle_packet(None, b"M2000,1:00", &mut t)), "E00");
    assert_eq!(reply(s.handle_packet(None, b"m1000,200000", &mut t)), "E01");
    assert_eq!(reply(s.handle_packet(None, b"M1000,2:00", &mut t)), "E01");
}

#[test]
fn bad_memory_pair_keeps_earlier_bytes() {
    let mut t = target();
    let mut s = GdbServer::new();
    assert_eq!(reply(s.handle_packet(None, b"M1000,3:11zz33", &mut t)), "E01");
    assert_eq!(reply(s.handle_packet(None, b"m1000,3", &mut t)), "110000");
}

#[test]
fn resume_commands() {
    let mut t = target();
    let mut s = GdbServer::new();
    assert_eq!(s.handle_packet(None, b"c", &mut t), DebuggerAction::Resume { step: false });
    assert_eq!(s.take_resume_thread(), None);
    assert_eq!(s.handle_packet(None, b"s2001", &mut t), DebuggerAction::Resume { step: true });
    assert_eq!(t.cpu.regs[15], 0x2000);
    assert_eq!(t.cpu.cpsr, 0x6000_0030);
    assert_eq!(reply(s.handle_packet(None, b"sxyz", &mut t)), "E01");
    assert_eq!(s.handle_packet(None, b"S05;1000", &mut t), DebuggerAction::Resume { step: true });
    assert_eq!(t.cpu.regs[15], 0x1000);
    assert_eq!(t.cpu.cpsr, 0x6000_0010);
    assert_eq!(s.handle_packet(None, b"C05", &mut t), DebuggerAction::Resume { step: false });
    assert_eq!(reply(s.handle_packet(None, b"vCont?", &mut t)), "vCont;c;s");
    assert_eq!(s.handle_packet(None, b"vCont;s:2", &mut t), DebuggerAction::Resume { step: true });
    assert_eq!(s.take_resume_thread(), Some(1));
    assert_eq!(s.take_resume_thread(), None);
    assert_eq!(reply(s.handle_packet(None, b"vCont;t", &mut t)), "E01");
    assert_eq!(reply(s.handle_packet(None, b"vCont;c:7", &mut t)), "E01");
    assert_eq!(s.handle_packet(None, b"D", &mut t), DebuggerAction::Detach);
    assert_eq!(s.handle_packet(None, b"k", &mut t), DebuggerAction::Kill);
    assert_eq!(s.handle_packet(None, b"", &mut t), DebuggerAction::Nothing);
}

#[test]
fn thread_queries() {
    let mut t = target();
    let mut s = GdbServer::new();
    assert_eq!(reply(s.handle_packet(None, b"qC", &mut t)), "QC1");
    assert_eq!(reply(s.handle_packet(None, b"qfThreadInfo", &mut t)), "m1,2");
    assert_eq!(reply(s.handle_packet(None, b"qsThreadInfo", &mut t)), "l");
    assert_eq!(reply(s.handle_packet(None, b"qAttached", &mut t)), "0");
    assert_eq!(reply(s.handle_packet(None, b"T2", &mut t)), "OK");
    assert_eq!(reply(s.handle_packet(None, b"T3", &mut t)), "E01");
    assert_eq!(reply(s.handle_packet(None, b"T0", &mut t)), "OK");
    let expected: String = b"guest thread 2 active=true blocked=Some(Sleep)"
        .iter()
        .map(|b| format!("{:02x}", b))
        .collect();
    assert_eq!(reply(s.handle_packet(None, b"qThreadExtraInfo,2", &mut t)), expected);
    assert_eq!(
        reply(s.handle_packet(None, b"qThreadExtraInfo,0", &mut t)),
        "63757272656e7420"
    );
    assert_eq!(reply(s.handle_packet(None, b"qThreadExtraInfo,5", &mut t)), "E01");
    assert_eq!(
        reply(s.handle_packet(None, b"qXfer:threads:read::0,fff", &mut t)),
        "l<threads><thread id=\"1\" name=\"guest-0\"/><thread id=\"2\" name=\"guest-1\"/></threads>"
    );
    assert_eq!(reply(s.handle_packet(None, b"qXfer:threads:read::0,5", &mut t)), "m<thre");
    assert_eq!(reply(s.handle_packet(None, b"qXfer:threads:read:x:0,5", &mut t)), "E00");
    assert_eq!(reply(s.handle_packet(None, b"qXfer:threads:read::zz", &mut t)), "E01");
}

#[test]
fn feature_queries() {
    let mut t = target();
    let mut s = GdbServer::new();
    assert_eq!(
        reply(s.handle_packet(None, b"qSupported:multiprocess+", &mut t)),
        "PacketSize=1000;qXfer:features:read+;qXfer:threads:read+;multiprocess+;vContSupported+"
    );
    let xml = reply(s.handle_packet(None, b"qXfer:features:read:target.xml:0,1000", &mut t));
    assert!(xml.starts_with("l\n<target version=\"1.0\">"));
    assert!(xml.contains("<architecture>armv6</architecture>"));
    assert_eq!(
        reply(s.handle_packet(None, b"qXfer:features:read:target.xml:1,7", &mut t)),
        "m<target"
    );
    assert_eq!(reply(s.handle_packet(None, b"qXfer:features:read:other.xml:0,10", &mut t)), "E00");
    assert_eq!(reply(s.handle_packet(None, b"qXfer:features:read:target.xml:ffff,1", &mut t)), "E00");
    assert_eq!(reply(s.handle_packet(None, b"qRcmd,68656c70", &mut t)), "");
    assert_eq!(reply(s.handle_packet(None, b"vMustReplyEmpty", &mut t)), "");
}
