//! A server for the GDB Remote Serial Protocol, through which a debugger
//! such as GDB or LLDB inspects and steers the emulated ARMv6 CPU.
//!
//! The server's decisions stand here: it is handed one packet body at a
//! time, with the state of the guest threads, and answers with what to
//! send back or how to resume. Reading from and writing to the connection
//! is left to the caller; [wire] frames and unframes the bytes.
//!
//! Useful resources:
//! - Debugging with GDB, Appendix E: GDB Remote Serial Protocol
//! - The GDB source code: `include/gdb/signals.def` for the meanings of
//!   signal numbers, `gdb/arch/arm.h` for ARMv6 register numbers.
pub mod laws;
pub mod wire;

use crate::mem64::{bytes_at, range_ok, write_spec, AccessType, Mem64, Mem64View};
use crate::text::bytes_equal;
use vstd::prelude::*;
use wire::{
    after, hex_encode, hex_min, le_bytes, lit, parse_radix16, push_hex_min, push_hex_u32_le,
    radix16, split_first, split_once, starts_with, tail, hex_encode_bytes, is_utf8,
};

verus! {

/// Index of a guest thread.
pub type ThreadId = usize;

/// Number of the program counter among the general registers.
pub const PC: usize = 15;

/// The Thumb state bit of the CPSR.
pub const CPSR_THUMB: u32 = 0x20;

/// The largest memory transfer the server performs at once (1 MiB).
pub const MAX_GDB_MEMORY_TRANSFER: u32 = 0x10_0000;

/// General registers and CPSR of a thread.
#[derive(Clone, Copy, Debug)]
pub struct GuestContext {
    pub regs: [u32; 16],
    pub cpsr: u32,
}

/// A guest thread as the debugger sees it.
#[derive(Debug)]
pub struct DebugThread {
    pub active: bool,
    /// The saved registers of a thread that is not running, where it has
    /// any.
    pub guest_context: Option<GuestContext>,
    /// What the thread waits for, as text.
    pub blocked_by: Vec<u8>,
}

/// The emulated machine as the debugger sees it: the threads, which of
/// them runs on the CPU, the CPU's registers, and guest memory.
pub struct DebugTarget {
    pub threads: Vec<DebugThread>,
    pub current_thread: ThreadId,
    pub cpu: GuestContext,
    pub mem: Mem64,
}

/// Why the CPU stopped.
#[derive(Clone, Copy, PartialEq, Eq, Debug)]
pub enum StopReason {
    UndefinedInstruction,
    Breakpoint,
    MemoryError,
}

/// What the caller does after a packet.
#[derive(Clone, PartialEq, Eq, Debug)]
pub enum DebuggerAction {
    /// Nothing: the packet was empty.
    Nothing,
    /// Send this packet body.
    Reply(Vec<u8>),
    /// Guest memory was written: invalidate the CPU's caches for the range,
    /// then reply `OK`.
    Written { address: u32, length: u32 },
    /// Resume the guest: one instruction and back to the debugger, or
    /// freely.
    Resume { step: bool },
    /// Reply `OK` and resume freely.
    Detach,
    /// The debugger asked for the process to be killed.
    Kill,
}

/// GDB Remote Serial Protocol handler, implementing a server.
pub struct GdbServer {
    first_halt: bool,
    general_thread: Option<ThreadId>,
    continue_thread: Option<ThreadId>,
    resume_thread: Option<ThreadId>,
}

/// Registers as the contracts speak of them.
pub ghost struct ContextView {
    pub regs: Seq<u32>,
    pub cpsr: u32,
}

pub ghost struct ThreadView {
    pub active: bool,
    pub context: Option<ContextView>,
    pub blocked_by: Seq<u8>,
}

pub ghost struct TargetView {
    pub threads: Seq<ThreadView>,
    pub current: int,
    pub cpu: ContextView,
    pub mem: Mem64View,
}

pub ghost struct ServerView {
    pub first_halt: bool,
    pub general: Option<int>,
    pub cont: Option<int>,
    pub resume: Option<int>,
}

pub ghost enum ActionView {
    Nothing,
    Reply(Seq<u8>),
    Written(u32, u32),
    Resume(bool),
    Detach,
    Kill,
}

impl View for GuestContext {
    type V = ContextView;

    open spec fn view(&self) -> ContextView {
        ContextView { regs: self.regs@, cpsr: self.cpsr }
    }
}

impl View for DebugThread {
    type V = ThreadView;

    open spec fn view(&self) -> ThreadView {
        ThreadView {
            active: self.active,
            context: match self.guest_context {
                Some(c) => Some(c@),
                None => None,
            },
            blocked_by: self.blocked_by@,
        }
    }
}

impl View for DebugTarget {
    type V = TargetView;

    open spec fn view(&self) -> TargetView {
        TargetView {
            threads: self.threads@.map_values(|t: DebugThread| t@),
            current: self.current_thread as int,
            cpu: self.cpu@,
            mem: self.mem@,
        }
    }
}

impl View for GdbServer {
    type V = ServerView;

    closed spec fn view(&self) -> ServerView {
        ServerView {
            first_halt: self.first_halt,
            general: match self.general_thread {
                Some(t) => Some(t as int),
                None => None,
            },
            cont: match self.continue_thread {
                Some(t) => Some(t as int),
                None => None,
            },
            resume: match self.resume_thread {
                Some(t) => Some(t as int),
                None => None,
            },
        }
    }
}

impl View for DebuggerAction {
    type V = ActionView;

    open spec fn view(&self) -> ActionView {
        match self {
            DebuggerAction::Nothing => ActionView::Nothing,
            DebuggerAction::Reply(b) => ActionView::Reply(b@),
            DebuggerAction::Written { address, length } => ActionView::Written(*address, *length),
            DebuggerAction::Resume { step } => ActionView::Resume(*step),
            DebuggerAction::Detach => ActionView::Detach,
            DebuggerAction::Kill => ActionView::Kill,
        }
    }
}

/// What a debugger step gives: the server, the target and the action.
pub ghost struct Step {
    pub server: ServerView,
    pub target: TargetView,
    pub action: ActionView,
}

/// Whether thread `id` exists and is active.
pub open spec fn live(t: TargetView, id: int) -> bool {
    0 <= id < t.threads.len() && t.threads[id].active
}

/// The registers of thread `id`: the CPU's for the running thread, the
/// saved ones for another.
pub open spec fn regs_for(t: TargetView, id: int) -> Option<ContextView> {
    if id == t.current {
        Some(t.cpu)
    } else if 0 <= id < t.threads.len() {
        t.threads[id].context
    } else {
        None
    }
}

/// `t` with the registers of thread `id` set to `c`, where it has any.
pub open spec fn write_ctx(t: TargetView, id: int, c: ContextView) -> Option<TargetView> {
    if id == t.current {
        Some(TargetView { cpu: c, ..t })
    } else if 0 <= id < t.threads.len() && t.threads[id].context is Some {
        Some(
            TargetView {
                threads: t.threads.update(id, ThreadView { context: Some(c), ..t.threads[id] }),
                ..t
            },
        )
    } else {
        None
    }
}

/// The thread that register commands act on: the one chosen with `Hg`
/// while it is alive, else the running one.
pub open spec fn general_of(s: ServerView, t: TargetView) -> int {
    match s.general {
        Some(g) => if live(t, g) {
            g
        } else {
            t.current
        },
        None => t.current,
    }
}

/// The thread that resume commands act on: the one chosen with `Hc` or
/// `vCont` while it is alive, else the running one.
pub open spec fn continue_of(s: ServerView, t: TargetView) -> int {
    match s.cont {
        Some(g) => if live(t, g) {
            g
        } else {
            t.current
        },
        None => t.current,
    }
}

/// A thread's number on the wire: its index plus one (saturating), in
/// hexadecimal.
pub open spec fn wire_id(id: int) -> Seq<u8> {
    hex_min(if id + 1 > usize::MAX {
        usize::MAX as nat
    } else {
        (id + 1) as nat
    })
}

/// A thread selector: `-1` (all) or `0` (any) select none in particular;
/// otherwise the hexadecimal wire number of a live thread.
pub open spec fn select_thread(sel: Seq<u8>, t: TargetView) -> Result<Option<int>, ()> {
    if sel == lit("-1") || sel == lit("0") {
        Ok(None)
    } else {
        match radix16(sel, u64::MAX as nat) {
            None => Err(()),
            Some(w) => if w == 0 || w - 1 > usize::MAX || !live(t, w - 1) {
                Err(())
            } else {
                Ok(Some(w - 1))
            },
        }
    }
}

/// The stop reply for `signal`: the signal and the running thread.
pub open spec fn stop_reply(signal: Seq<u8>, t: TargetView) -> Seq<u8> {
    signal + lit(";thread:") + wire_id(t.current) + lit(";")
}

/// The signal reported for a stop: SIGSEGV for a memory error, SIGTRAP
/// for a breakpoint or an undefined instruction, none otherwise.
pub open spec fn stop_signal(stop: Option<StopReason>) -> Seq<u8> {
    match stop {
        Some(StopReason::MemoryError) => lit("S0b"),
        Some(_) => lit("S05"),
        None => lit("S00"),
    }
}

/// The stop reply that opens a halt, if any: none for the very first halt
/// without a reason.
pub open spec fn halt_reply(s: ServerView, stop: Option<StopReason>, t: TargetView) -> (
    ServerView,
    Option<Seq<u8>>,
) {
    match stop {
        None => if s.first_halt {
            (ServerView { first_halt: false, ..s }, None)
        } else {
            (s, Some(stop_reply(lit("S05"), t)))
        },
        Some(StopReason::MemoryError) => (s, Some(stop_reply(lit("S0b"), t))),
        Some(_) => (s, Some(stop_reply(lit("S05"), t))),
    }
}

/// Registers in GDB's order, each as its memory bytes in hexadecimal.
pub open spec fn regs_hex(r: Seq<u32>) -> Seq<u8>
    decreases r.len(),
{
    if r.len() == 0 {
        Seq::empty()
    } else {
        regs_hex(r.drop_last()) + hex_encode(le_bytes(r.last()))
    }
}

/// `v` with its bytes in reverse order.
pub open spec fn swap32(v: u32) -> u32 {
    ((v % 256) * 16777216 + (v / 256 % 256) * 65536 + (v / 65536 % 256) * 256 + v / 16777216) as u32
}

/// The 16 registers that a `G` packet's 128 hexadecimal digits give, if
/// each group of 8 parses.
pub open spec fn parse_regs(data: Seq<u8>) -> Option<Seq<u32>> {
    if forall|i: int| 0 <= i < 16 ==> #[trigger] radix16(data.subrange(8 * i, 8 * i + 8), u32::MAX as nat) is Some {
        Some(
            Seq::new(
                16,
                |i: int| swap32(radix16(data.subrange(8 * i, 8 * i + 8), u32::MAX as nat)->0 as u32),
            ),
        )
    } else {
        None
    }
}

/// Register numbers that read as zero and ignore writes: the FPA
/// registers and their status (16 to 24), the VFP registers (26 to 57)
/// and FPSCR (58).
pub open spec fn ignored_register(n: int) -> bool {
    (26 <= n <= 57) || (16 <= n <= 24) || n == 58
}

pub open spec fn reply(s: ServerView, t: TargetView, body: Seq<u8>) -> Step {
    Step { server: s, target: t, action: ActionView::Reply(body) }
}

#[verifier::opaque]
pub open spec fn step_read_regs(s: ServerView, t: TargetView) -> Step {
    match regs_for(t, general_of(s, t)) {
        None => reply(s, t, lit("E01")),
        Some(c) => reply(s, t, regs_hex(c.regs)),
    }
}

#[verifier::opaque]
pub open spec fn step_write_regs(s: ServerView, t: TargetView, p: Seq<u8>) -> Step {
    let data = after(p, 1);
    if data.len() != 128 {
        reply(s, t, lit("E01"))
    } else {
        match parse_regs(data) {
            None => reply(s, t, lit("E01")),
            Some(regs) => {
                let id = general_of(s, t);
                match regs_for(t, id) {
                    None => reply(s, t, lit("E01")),
                    Some(c) => match write_ctx(t, id, ContextView { regs, cpsr: c.cpsr }) {
                        Some(t2) => reply(s, t2, lit("OK")),
                        None => reply(s, t, lit("E01")),
                    },
                }
            },
        }
    }
}

#[verifier::opaque]
pub open spec fn step_read_reg(s: ServerView, t: TargetView, p: Seq<u8>) -> Step {
    match radix16(after(p, 1), usize::MAX as nat) {
        None => reply(s, t, lit("E01")),
        Some(n) => match regs_for(t, general_of(s, t)) {
            None => reply(s, t, lit("E01")),
            Some(c) => if 26 <= n <= 57 {
                reply(s, t, lit("0000000000000000"))
            } else if n < 16 {
                reply(s, t, hex_encode(le_bytes(c.regs[n as int])))
            } else if n == 25 {
                reply(s, t, hex_encode(le_bytes(c.cpsr)))
            } else if (16 <= n <= 24) || n == 58 {
                reply(s, t, lit("00000000"))
            } else {
                reply(s, t, lit("E00"))
            },
        },
    }
}

#[verifier::opaque]
pub open spec fn step_write_reg(s: ServerView, t: TargetView, p: Seq<u8>) -> Step {
    match split_first(after(p, 1), 61) {
        None => reply(s, t, lit("E01")),
        Some((num, enc)) => match (radix16(num, usize::MAX as nat), radix16(enc, u32::MAX as nat)) {
            (None, _) => reply(s, t, lit("E01")),
            (Some(_), None) => reply(s, t, lit("E01")),
            (Some(n), Some(e)) => if ignored_register(n as int) {
                reply(s, t, lit("OK"))
            } else {
                let id = general_of(s, t);
                match regs_for(t, id) {
                    None => reply(s, t, lit("E01")),
                    Some(c) => {
                        let v = swap32(e as u32);
                        if n < 16 || n == 25 {
                            let c2 = if n < 16 {
                                ContextView { regs: c.regs.update(n as int, v), ..c }
                            } else {
                                ContextView { cpsr: v, ..c }
                            };
                            match write_ctx(t, id, c2) {
                                Some(t2) => reply(s, t2, lit("OK")),
                                None => reply(s, t, lit("E01")),
                            }
                        } else {
                            reply(s, t, lit("E00"))
                        }
                    },
                }
            },
        },
    }
}

#[verifier::opaque]
pub open spec fn step_read_mem(s: ServerView, t: TargetView, p: Seq<u8>) -> Step {
    match split_first(after(p, 1), 44) {
        None => reply(s, t, lit("E01")),
        Some((a, l)) => match (radix16(a, u32::MAX as nat), radix16(l, u32::MAX as nat)) {
            (Some(addr), Some(len)) => if len > MAX_GDB_MEMORY_TRANSFER {
                reply(s, t, lit("E01"))
            } else if !range_ok(t.mem.regions, addr as int, len as int, 1) {
                reply(s, t, lit("E00"))
            } else {
                reply(s, t, hex_encode(bytes_at(t.mem.regions, addr as int, len as int)))
            },
            _ => reply(s, t, lit("E01")),
        },
    }
}

/// The value of the `j`th pair of hexadecimal digits in `data`.
pub open spec fn pair_value(data: Seq<u8>, j: int) -> Option<nat> {
    radix16(data.subrange(2 * j, 2 * j + 2), 255)
}

/// Whether the first `k` pairs of `data` parse.
pub open spec fn pairs_ok(data: Seq<u8>, k: int) -> bool {
    forall|j: int| 0 <= j < k ==> #[trigger] pair_value(data, j) is Some
}

/// How many of the `n` pairs of `data` parse before the first that does
/// not.
pub open spec fn good_pairs(data: Seq<u8>, n: int) -> int {
    if pairs_ok(data, n) {
        n
    } else {
        choose|k: int| 0 <= k < n && pairs_ok(data, k) && pair_value(data, k) is None
    }
}

/// The bytes the first `k` pairs of `data` spell.
pub open spec fn pair_bytes(data: Seq<u8>, k: int) -> Seq<u8> {
    Seq::new(k as nat, |j: int| pair_value(data, j)->0 as u8)
}

#[verifier::opaque]
pub open spec fn step_write_mem(s: ServerView, t: TargetView, p: Seq<u8>) -> Step {
    match split_first(after(p, 1), 58) {
        None => reply(s, t, lit("E01")),
        Some((header, data)) => match split_first(header, 44) {
            None => reply(s, t, lit("E01")),
            Some((a, l)) => match (radix16(a, u32::MAX as nat), radix16(l, u32::MAX as nat)) {
                (Some(addr), Some(len)) => if data.len() != 2 * len || len
                    > MAX_GDB_MEMORY_TRANSFER {
                    reply(s, t, lit("E01"))
                } else if !range_ok(t.mem.regions, addr as int, len as int, 2) {
                    reply(s, t, lit("E00"))
                } else {
                    let k = good_pairs(data, len as int);
                    let t2 = TargetView {
                        mem: Mem64View {
                            regions: write_spec(
                                t.mem.regions,
                                addr as int,
                                pair_bytes(data, k),
                                k,
                            ),
                            ..t.mem
                        },
                        ..t
                    };
                    if k == len {
                        Step {
                            server: s,
                            target: t2,
                            action: ActionView::Written(addr as u32, len as u32),
                        }
                    } else {
                        reply(s, t2, lit("E01"))
                    }
                },
                _ => reply(s, t, lit("E01")),
            },
        },
    }
}

#[verifier::opaque]
pub open spec fn step_set_thread(s: ServerView, t: TargetView, p: Seq<u8>) -> Step {
    if p.len() < 3 {
        reply(s, t, lit("E01"))
    } else {
        match select_thread(after(p, 2), t) {
            Ok(id) => if p[1] == 103 {
                reply(ServerView { general: id, ..s }, t, lit("OK"))
            } else if p[1] == 99 {
                reply(ServerView { cont: id, ..s }, t, lit("OK"))
            } else {
                reply(s, t, lit("E01"))
            },
            Err(()) => reply(s, t, lit("E01")),
        }
    }
}

#[verifier::opaque]
pub open spec fn step_thread_alive(s: ServerView, t: TargetView, p: Seq<u8>) -> Step {
    match select_thread(after(p, 1), t) {
        Ok(Some(_)) => reply(s, t, lit("OK")),
        Ok(None) => if live(t, t.current) {
            reply(s, t, lit("OK"))
        } else {
            reply(s, t, lit("E01"))
        },
        Err(()) => reply(s, t, lit("E01")),
    }
}

/// `t` with thread `id` branched to `address`, whose low bit selects
/// Thumb state; `None` where the thread has no registers.
pub open spec fn set_pc(t: TargetView, id: int, address: u32) -> Option<TargetView> {
    let thumb = (address & 1u32) as u32;
    match regs_for(t, id) {
        None => None,
        Some(c) => write_ctx(
            t,
            id,
            ContextView {
                regs: c.regs.update(15, (address & !1u32) as u32),
                cpsr: ((c.cpsr & !CPSR_THUMB) | (thumb * CPSR_THUMB) as u32) as u32,
            },
        ),
    }
}

/// A resume, at `address` where one is given.
#[verifier::opaque]
pub open spec fn step_resume(s: ServerView, t: TargetView, address: Seq<u8>, step: bool) -> Step {
    let s2 = ServerView { resume: s.cont, ..s };
    if address.len() == 0 {
        Step { server: s2, target: t, action: ActionView::Resume(step) }
    } else {
        match radix16(address, u32::MAX as nat) {
            None => reply(s, t, lit("E01")),
            Some(a) => match set_pc(t, continue_of(s, t), a as u32) {
                None => reply(s, t, lit("E01")),
                Some(t2) => Step { server: s2, target: t2, action: ActionView::Resume(step) },
            },
        }
    }
}

#[verifier::opaque]
pub open spec fn step_resume_signal(s: ServerView, t: TargetView, p: Seq<u8>, step: bool) -> Step {
    match split_first(after(p, 1), 59) {
        Some((_, address)) => step_resume(s, t, address, step),
        None => step_resume(s, t, Seq::empty(), step),
    }
}

#[verifier::opaque]
pub open spec fn step_vcont(s: ServerView, t: TargetView, p: Seq<u8>) -> Step {
    let rest = after(p, lit("vCont;").len() as int);
    let action = match split_first(rest, 59) {
        Some((a, _)) => a,
        None => rest,
    };
    let (act, sel) = match split_first(action, 58) {
        Some((a, b)) => (a, Some(b)),
        None => (action, None),
    };
    let chosen = match sel {
        None => Ok(s),
        Some(b) => match select_thread(b, t) {
            Ok(id) => Ok(ServerView { cont: id, ..s }),
            Err(()) => Err(()),
        },
    };
    match chosen {
        Err(()) => reply(s, t, lit("E01")),
        Ok(s2) => if act == lit("c") || act == lit("s") {
            Step {
                server: ServerView { resume: s2.cont, ..s2 },
                target: t,
                action: ActionView::Resume(act == lit("s")),
            }
        } else {
            reply(s2, t, lit("E01"))
        },
    }
}

/// The comma-separated wire numbers of the active threads among the first
/// `n`.
pub open spec fn active_list(ts: Seq<ThreadView>, n: int) -> Seq<u8>
    decreases n,
{
    if n <= 0 {
        Seq::empty()
    } else {
        let prev = active_list(ts, n - 1);
        if ts[n - 1].active {
            if prev.len() == 0 {
                wire_id(n - 1)
            } else {
                prev + lit(",") + wire_id(n - 1)
            }
        } else {
            prev
        }
    }
}

/// `n` in decimal.
pub open spec fn decimal(n: nat) -> Seq<u8>
    decreases n,
{
    if n < 10 {
        seq![(48 + n) as u8]
    } else {
        decimal(n / 10).push((48 + n % 10) as u8)
    }
}

/// The XML entries of the active threads among the first `n`.
pub open spec fn threads_xml_entries(ts: Seq<ThreadView>, n: int) -> Seq<u8>
    decreases n,
{
    if n <= 0 {
        Seq::empty()
    } else {
        let prev = threads_xml_entries(ts, n - 1);
        if ts[n - 1].active {
            prev + lit("<thread id=\"") + wire_id(n - 1) + lit("\" name=\"guest-") + decimal(
                (n - 1) as nat,
            ) + lit("\"/>")
        } else {
            prev
        }
    }
}

/// The `qXfer:threads` document.
pub open spec fn threads_xml(t: TargetView) -> Seq<u8> {
    lit("<threads>") + threads_xml_entries(t.threads, t.threads.len() as int) + lit("</threads>")
}

/// The target description: an ARMv6 running Darwin.
pub open spec fn target_xml() -> Seq<u8> {
    lit(TARGET_XML)
}

/// A window of an XML document: `m` and the bytes from `offset` while
/// more follow, `l` and the rest at its end. The window is left out where
/// it is not UTF-8.
pub open spec fn xml_window(doc: Seq<u8>, offset: int, length: int) -> Seq<u8> {
    let end = if offset + length > usize::MAX {
        if usize::MAX < doc.len() {
            usize::MAX as int
        } else {
            doc.len() as int
        }
    } else if offset + length < doc.len() {
        offset + length
    } else {
        doc.len() as int
    };
    let marker = if end < doc.len() {
        lit("m")
    } else {
        lit("l")
    };
    let part = doc.subrange(offset, end);
    marker + if vstd::utf8::valid_utf8(part) {
        part
    } else {
        Seq::empty()
    }
}

/// The annex and the offset and length of a `qXfer` read.
pub open spec fn xfer_args(params: Seq<u8>) -> Option<(Seq<u8>, nat, nat)> {
    match split_first(params, 58) {
        None => None,
        Some((annex, range)) => match split_first(range, 44) {
            None => None,
            Some((o, l)) => match (radix16(o, usize::MAX as nat), radix16(l, usize::MAX as nat)) {
                (Some(offset), Some(length)) => Some((annex, offset, length)),
                _ => None,
            },
        },
    }
}

/// The text `qThreadExtraInfo` gives for a thread.
pub open spec fn thread_description(t: TargetView, id: int) -> Seq<u8> {
    lit("guest thread ") + wire_id(id) + lit(" active=") + (if t.threads[id].active {
        lit("true")
    } else {
        lit("false")
    }) + lit(" blocked=") + t.threads[id].blocked_by
}

/// The answers to general queries; anything else gets an empty reply.
#[verifier::opaque]
pub open spec fn query_reply(t: TargetView, p: Seq<u8>) -> Seq<u8> {
    if p == lit("qAttached") {
        lit("0")
    } else if p == lit("qC") {
        lit("QC") + wire_id(t.current)
    } else if p == lit("qfThreadInfo") {
        let ids = active_list(t.threads, t.threads.len() as int);
        if ids.len() == 0 {
            lit("l")
        } else {
            lit("m") + ids
        }
    } else if p == lit("qsThreadInfo") {
        lit("l")
    } else if starts_with(p, lit("qThreadExtraInfo,")) {
        match select_thread(after(p, lit("qThreadExtraInfo,").len() as int), t) {
            Ok(Some(id)) => hex_encode(thread_description(t, id)),
            Ok(None) => if live(t, t.current) {
                lit("63757272656e7420")
            } else {
                lit("E01")
            },
            Err(()) => lit("E01"),
        }
    } else if p == lit("qSupported") || starts_with(p, lit("qSupported:")) {
        lit(SUPPORTED)
    } else if starts_with(p, lit("qXfer:features:read:")) {
        match xfer_args(after(p, lit("qXfer:features:read:").len() as int)) {
            None => lit("E01"),
            Some((annex, offset, length)) => if annex == lit("target.xml") && offset
                <= target_xml().len() {
                xml_window(target_xml(), offset as int, length as int)
            } else {
                lit("E00")
            },
        }
    } else if starts_with(p, lit("qXfer:threads:read:")) {
        match xfer_args(after(p, lit("qXfer:threads:read:").len() as int)) {
            None => lit("E01"),
            Some((annex, offset, length)) => if annex.len() != 0 && annex != lit("threads") {
                lit("E00")
            } else if offset > threads_xml(t).len() {
                lit("E00")
            } else {
                xml_window(threads_xml(t), offset as int, length as int)
            },
        }
    } else {
        Seq::empty()
    }
}

/// What the server does with one packet body from the debugger, given why
/// the CPU stopped: the packet's first byte selects the command.
pub open spec fn gdb_step(
    s: ServerView,
    t: TargetView,
    stop: Option<StopReason>,
    p: Seq<u8>,
) -> Step {
    if p.len() == 0 {
        Step { server: s, target: t, action: ActionView::Nothing }
    } else if p[0] == 63 {
        reply(s, t, stop_reply(stop_signal(stop), t))
    } else if p[0] == 103 {
        step_read_regs(s, t)
    } else if p[0] == 71 {
        step_write_regs(s, t, p)
    } else if p[0] == 112 {
        step_read_reg(s, t, p)
    } else if p[0] == 80 {
        step_write_reg(s, t, p)
    } else if p[0] == 109 {
        step_read_mem(s, t, p)
    } else if p[0] == 77 {
        step_write_mem(s, t, p)
    } else if p[0] == 72 {
        step_set_thread(s, t, p)
    } else if p[0] == 84 {
        step_thread_alive(s, t, p)
    } else if p[0] == 99 || p[0] == 115 {
        step_resume(s, t, after(p, 1), p[0] == 115)
    } else if p[0] == 67 || p[0] == 83 {
        step_resume_signal(s, t, p, p[0] == 83)
    } else if p == lit("vCont?") {
        reply(s, t, lit("vCont;c;s"))
    } else if starts_with(p, lit("vCont;")) {
        step_vcont(s, t, p)
    } else if p[0] == 107 {
        Step { server: s, target: t, action: ActionView::Kill }
    } else if p[0] == 68 {
        Step { server: s, target: t, action: ActionView::Detach }
    } else {
        reply(s, t, query_reply(t, p))
    }
}

/// The count of good pairs where a bad one is known.
pub proof fn lemma_good_pairs_at(data: Seq<u8>, n: int, j: int)
    requires
        0 <= j < n,
        pairs_ok(data, j),
        pair_value(data, j) is None,
    ensures
        good_pairs(data, n) == j,
{
    assert(!pairs_ok(data, n));
    let k = choose|k: int| 0 <= k < n && pairs_ok(data, k) && pair_value(data, k) is None;
    if k < j {
        assert(pair_value(data, k) is Some);
    } else if k > j {
        assert(pair_value(data, j) is Some);
    }
}

/// The bytes of `s` as a vector.
fn lit_vec(s: &str) -> (r: Vec<u8>)
    ensures
        r@ == lit(s),
{
    vstd::slice::slice_to_vec(s.as_bytes())
}

/// Appends the bytes of `s`.
fn push_lit(out: &mut Vec<u8>, s: &str)
    ensures
        final(out)@ == old(out)@ + lit(s),
{
    push_slice(out, s.as_bytes());
}

/// Appends `bytes`.
fn push_slice(out: &mut Vec<u8>, bytes: &[u8])
    ensures
        final(out)@ == old(out)@ + bytes@,
{
    let ghost start = out@;
    let mut i: usize = 0;
    while i < bytes.len()
        invariant
            0 <= i <= bytes.len(),
            out@ == start + bytes@.subrange(0, i as int),
        decreases bytes.len() - i,
    {
        out.push(bytes[i]);
        assert(out@ =~= start + bytes@.subrange(0, i as int + 1));
        i = i + 1;
    }
    assert(bytes@.subrange(0, i as int) =~= bytes@);
}

/// Whether `p` is the literal `s`.
fn is_lit(p: &[u8], s: &str) -> (r: bool)
    ensures
        r == (p@ == lit(s)),
{
    bytes_equal(p, s.as_bytes())
}

/// Whether `p` begins with the literal `s`.
fn has_lit_prefix(p: &[u8], s: &str) -> (r: bool)
    ensures
        r == starts_with(p@, lit(s)),
{
    wire::has_prefix(p, s.as_bytes())
}

/// Appends `n` in decimal.
fn push_decimal(out: &mut Vec<u8>, n: u64)
    ensures
        final(out)@ == old(out)@ + decimal(n as nat),
    decreases n,
{
    if n < 10 {
        out.push(48 + n as u8);
        assert(final(out)@ =~= old(out)@ + decimal(n as nat));
    } else {
        push_decimal(out, n / 10);
        out.push(48 + (n % 10) as u8);
        assert(final(out)@ =~= old(out)@ + decimal(n as nat));
    }
}

/// The E01 reply.
fn e01() -> (r: DebuggerAction)
    ensures
        r@ == ActionView::Reply(lit("E01")),
{
    DebuggerAction::Reply(lit_vec("E01"))
}

/// Whether thread `id` exists and is active.
pub fn thread_is_live(target: &DebugTarget, id: ThreadId) -> (r: bool)
    ensures
        r == live(target@, id as int),
{
    id < target.threads.len() && target.threads[id].active
}

/// A thread's number on the wire.
pub fn wire_thread_id(id: ThreadId) -> (r: Vec<u8>)
    ensures
        r@ == wire_id(id as int),
{
    let mut out: Vec<u8> = Vec::new();
    push_hex_min(&mut out, id.saturating_add(1) as u64);
    assert(out@ =~= wire_id(id as int));
    out
}

/// Reads a thread selector.
pub fn parse_thread_selector(sel: &[u8], target: &DebugTarget) -> (r: Result<Option<ThreadId>, ()>)
    ensures
        match select_thread(sel@, target@) {
            Ok(Some(id)) => r == Ok::<Option<ThreadId>, ()>(Some(id as ThreadId)),
            Ok(None) => r == Ok::<Option<ThreadId>, ()>(None),
            Err(()) => r is Err,
        },
{
    if is_lit(sel, "-1") || is_lit(sel, "0") {
        return Ok(None);
    }
    let wire = match parse_radix16(sel, u64::MAX) {
        Some(w) => w,
        None => {
            return Err(());
        },
    };
    if wire == 0 || wire - 1 > usize::MAX as u64 {
        return Err(());
    }
    let id = (wire - 1) as usize;
    if thread_is_live(target, id) {
        Ok(Some(id))
    } else {
        Err(())
    }
}

/// The registers of thread `id`.
pub fn registers_for_thread(target: &DebugTarget, id: ThreadId) -> (r: Option<GuestContext>)
    ensures
        match regs_for(target@, id as int) {
            Some(c) => r matches Some(x) && x@ == c,
            None => r is None,
        },
{
    if id == target.current_thread {
        return Some(target.cpu);
    }
    if id < target.threads.len() {
        target.threads[id].guest_context
    } else {
        None
    }
}

/// Sets the registers of thread `id`, where it has any.
pub fn write_registers_for_thread(target: &mut DebugTarget, id: ThreadId, c: GuestContext) -> (r: bool)
    ensures
        match write_ctx(old(target)@, id as int, c@) {
            Some(t) => r && final(target)@ == t,
            None => !r && final(target)@ == old(target)@,
        },
        final(target).mem.wf() == old(target).mem.wf(),
{
    if id == target.current_thread {
        target.cpu = c;
        assert(final(target)@.threads =~= old(target)@.threads);
        return true;
    }
    if id < target.threads.len() && target.threads[id].guest_context.is_some() {
        let ghost before = target.threads@;
        let ghost tv = old(target)@;
        let mut thread = target.threads.remove(id);
        thread.guest_context = Some(c);
        target.threads.insert(id, thread);
        proof {
            assert(target.threads@ =~= before.update(id as int, thread));
            assert(final(target)@.threads =~= tv.threads.update(
                id as int,
                ThreadView { context: Some(c@), ..tv.threads[id as int] },
            ));
        }
        return true;
    }
    false
}

/// Branches thread `id` to `address`, whose low bit selects Thumb state.
pub fn set_pc_for_thread(target: &mut DebugTarget, id: ThreadId, address: u32) -> (r: bool)
    ensures
        match set_pc(old(target)@, id as int, address) {
            Some(t) => r && final(target)@ == t,
            None => !r && final(target)@ == old(target)@,
        },
        final(target).mem.wf() == old(target).mem.wf(),
{
    let mut c = match registers_for_thread(target, id) {
        Some(c) => c,
        None => {
            return false;
        },
    };
    let thumb = address & 1u32;
    assert(thumb <= 1) by (bit_vector)
        requires
            thumb == address & 1u32,
    ;
    c.regs[PC] = address & !1u32;
    c.cpsr = (c.cpsr & !CPSR_THUMB) | (thumb * CPSR_THUMB);
    proof {
        let c0 = regs_for(old(target)@, id as int)->0;
        assert(c@ == ContextView {
            regs: c0.regs.update(15, (address & !1u32) as u32),
            cpsr: ((c0.cpsr & !CPSR_THUMB) | (thumb * CPSR_THUMB) as u32) as u32,
        });
    }
    write_registers_for_thread(target, id, c)
}

/// The stop reply for `signal`.
fn stop_reply_body(signal: &str, target: &DebugTarget) -> (r: Vec<u8>)
    ensures
        r@ == stop_reply(lit(signal), target@),
{
    let mut out = lit_vec(signal);
    push_lit(&mut out, ";thread:");
    let w = wire_thread_id(target.current_thread);
    push_slice(&mut out, w.as_slice());
    push_lit(&mut out, ";");
    out
}

/// The comma-separated wire numbers of the active threads.
fn active_thread_list(target: &DebugTarget) -> (r: Vec<u8>)
    ensures
        r@ == active_list(target@.threads, target@.threads.len() as int),
{
    let mut out: Vec<u8> = Vec::new();
    let mut i: usize = 0;
    while i < target.threads.len()
        invariant
            0 <= i <= target.threads.len(),
            out@ == active_list(target@.threads, i as int),
        decreases target.threads.len() - i,
    {
        if target.threads[i].active {
            if out.len() != 0 {
                push_lit(&mut out, ",");
            }
            let w = wire_thread_id(i);
            push_slice(&mut out, w.as_slice());
            assert(out@ =~= active_list(target@.threads, i as int + 1));
        }
        i = i + 1;
    }
    out
}

/// The `qXfer:threads` document.
fn threads_document(target: &DebugTarget) -> (r: Vec<u8>)
    ensures
        r@ == threads_xml(target@),
{
    let mut out = lit_vec("<threads>");
    let ghost head = out@;
    let mut i: usize = 0;
    while i < target.threads.len()
        invariant
            0 <= i <= target.threads.len(),
            head == lit("<threads>"),
            out@ == head + threads_xml_entries(target@.threads, i as int),
        decreases target.threads.len() - i,
    {
        if target.threads[i].active {
            push_lit(&mut out, "<thread id=\"");
            let w = wire_thread_id(i);
            push_slice(&mut out, w.as_slice());
            push_lit(&mut out, "\" name=\"guest-");
            push_decimal(&mut out, i as u64);
            push_lit(&mut out, "\"/>");
            assert(out@ =~= head + threads_xml_entries(target@.threads, i as int + 1));
        }
        i = i + 1;
    }
    push_lit(&mut out, "</threads>");
    out
}

/// A window of an XML document, `offset` lying within it.
fn window_of(doc: &[u8], offset: usize, length: usize) -> (r: Vec<u8>)
    requires
        offset <= doc@.len(),
    ensures
        r@ == xml_window(doc@, offset as int, length as int),
{
    let sum = offset.saturating_add(length);
    let end = if sum < doc.len() {
        sum
    } else {
        doc.len()
    };
    let mut out = if end < doc.len() {
        lit_vec("m")
    } else {
        lit_vec("l")
    };
    let part = vstd::slice::slice_subrange(doc, offset, end);
    if is_utf8(part) {
        push_slice(&mut out, part);
    } else {
        assert(out@ =~= out@ + Seq::<u8>::empty());
    }
    out
}

/// The annex, offset and length of a `qXfer` read.
fn parse_xfer_args(params: &[u8]) -> (r: Option<(&[u8], usize, usize)>)
    ensures
        match xfer_args(params@) {
            Some((annex, offset, length)) => r matches Some((a, o, l)) && a@ == annex && o
                == offset && l == length,
            None => r is None,
        },
{
    let (annex, range) = split_once(params, 58)?;
    let (o, l) = split_once(range, 44)?;
    let offset = parse_radix16(o, usize::MAX as u64)?;
    let length = parse_radix16(l, usize::MAX as u64)?;
    Some((annex, offset as usize, length as usize))
}

/// The text `qThreadExtraInfo` gives for a thread.
fn describe_thread(target: &DebugTarget, id: ThreadId) -> (r: Vec<u8>)
    requires
        id < target.threads.len(),
    ensures
        r@ == thread_description(target@, id as int),
{
    let mut out = lit_vec("guest thread ");
    let w = wire_thread_id(id);
    push_slice(&mut out, w.as_slice());
    push_lit(&mut out, " active=");
    if target.threads[id].active {
        push_lit(&mut out, "true");
    } else {
        push_lit(&mut out, "false");
    }
    push_lit(&mut out, " blocked=");
    push_slice(&mut out, target.threads[id].blocked_by.as_slice());
    out
}

/// The answer to a general query.
fn query(target: &DebugTarget, p: &[u8]) -> (r: Vec<u8>)
    ensures
        r@ == query_reply(target@, p@),
{
    reveal(query_reply);
    if is_lit(p, "qAttached") {
        lit_vec("0")
    } else if is_lit(p, "qC") {
        let mut out = lit_vec("QC");
        let w = wire_thread_id(target.current_thread);
        push_slice(&mut out, w.as_slice());
        out
    } else if is_lit(p, "qfThreadInfo") {
        let ids = active_thread_list(target);
        if ids.len() == 0 {
            lit_vec("l")
        } else {
            let mut out = lit_vec("m");
            push_slice(&mut out, ids.as_slice());
            out
        }
    } else if is_lit(p, "qsThreadInfo") {
        lit_vec("l")
    } else if has_lit_prefix(p, "qThreadExtraInfo,") {
        let n = "qThreadExtraInfo,".as_bytes().len();
        match parse_thread_selector(tail(p, n), target) {
            Ok(Some(id)) => {
                let d = describe_thread(target, id);
                hex_encode_bytes(d.as_slice())
            },
            Ok(None) => if thread_is_live(target, target.current_thread) {
                lit_vec("63757272656e7420")
            } else {
                lit_vec("E01")
            },
            Err(()) => lit_vec("E01"),
        }
    } else if is_lit(p, "qSupported") || has_lit_prefix(p, "qSupported:") {
        lit_vec(SUPPORTED)
    } else if has_lit_prefix(p, "qXfer:features:read:") {
        let n = "qXfer:features:read:".as_bytes().len();
        match parse_xfer_args(tail(p, n)) {
            None => lit_vec("E01"),
            Some((annex, offset, length)) => {
                let doc = TARGET_XML.as_bytes();
                if is_lit(annex, "target.xml") && offset <= doc.len() {
                    window_of(doc, offset, length)
                } else {
                    lit_vec("E00")
                }
            },
        }
    } else if has_lit_prefix(p, "qXfer:threads:read:") {
        let n = "qXfer:threads:read:".as_bytes().len();
        match parse_xfer_args(tail(p, n)) {
            None => lit_vec("E01"),
            Some((annex, offset, length)) => {
                if annex.len() != 0 && !is_lit(annex, "threads") {
                    return lit_vec("E00");
                }
                let doc = threads_document(target);
                if offset > doc.len() {
                    lit_vec("E00")
                } else {
                    window_of(doc.as_slice(), offset, length)
                }
            },
        }
    } else {
        Vec::new()
    }
}

impl GdbServer {
    /// The server of a fresh connection, before the first halt.
    pub fn new() -> (r: Self)
        ensures
            r@ == (ServerView { first_halt: true, general: None, cont: None, resume: None }),
    {
        GdbServer {
            first_halt: true,
            general_thread: None,
            continue_thread: None,
            resume_thread: None,
        }
    }

    /// The thread selected by the last continue or step command, if GDB
    /// explicitly selected one with `Hc` or `vCont`; taken once.
    pub fn take_resume_thread(&mut self) -> (r: Option<ThreadId>)
        ensures
            match old(self)@.resume {
                Some(t) => r == Some(t as ThreadId),
                None => r is None,
            },
            final(self)@ == (ServerView { resume: None, ..old(self)@ }),
    {
        self.resume_thread.take()
    }

    /// The thread that register commands act on.
    pub fn selected_general_thread(&self, target: &DebugTarget) -> (r: ThreadId)
        ensures
            r as int == general_of(self@, target@),
    {
        match self.general_thread {
            Some(t) => if thread_is_live(target, t) {
                t
            } else {
                target.current_thread
            },
            None => target.current_thread,
        }
    }

    /// The thread that resume commands act on.
    pub fn selected_continue_thread(&self, target: &DebugTarget) -> (r: ThreadId)
        ensures
            r as int == continue_of(self@, target@),
    {
        match self.continue_thread {
            Some(t) => if thread_is_live(target, t) {
                t
            } else {
                target.current_thread
            },
            None => target.current_thread,
        }
    }

    /// The stop reply that opens a halt, if one is sent: none for the very
    /// first halt without a reason.
    pub fn halt_reply(&mut self, stop: Option<StopReason>, target: &DebugTarget) -> (r: Option<
        Vec<u8>,
    >)
        ensures
            ({
                let (s2, body) = halt_reply(old(self)@, stop, target@);
                &&& final(self)@ == s2
                &&& match body {
                    Some(b) => r matches Some(v) && v@ == b,
                    None => r is None,
                }
            }),
    {
        match stop {
            None => if self.first_halt {
                self.first_halt = false;
                None
            } else {
                Some(stop_reply_body("S05", target))
            },
            Some(StopReason::MemoryError) => Some(stop_reply_body("S0b", target)),
            Some(_) => Some(stop_reply_body("S05", target)),
        }
    }

    /// `g`: all general registers of the selected thread.
    fn read_registers(&self, target: &DebugTarget) -> (r: DebuggerAction)
        ensures
            step_read_regs(self@, target@) == (Step { server: self@, target: target@, action: r@ }),
    {
        reveal(step_read_regs);
        let id = self.selected_general_thread(target);
        let c = match registers_for_thread(target, id) {
            Some(c) => c,
            None => {
                return e01();
            },
        };
        let mut out: Vec<u8> = Vec::new();
        let mut i: usize = 0;
        while i < 16
            invariant
                0 <= i <= 16,
                c.regs@.len() == 16,
                out@ == regs_hex(c.regs@.subrange(0, i as int)),
            decreases 16 - i,
        {
            proof {
                let t = c.regs@.subrange(0, i as int + 1);
                assert(t.drop_last() =~= c.regs@.subrange(0, i as int));
            }
            push_hex_u32_le(&mut out, c.regs[i]);
            i = i + 1;
        }
        assert(c.regs@.subrange(0, 16) =~= c.regs@);
        DebuggerAction::Reply(out)
    }

    /// `G`: sets all general registers of the selected thread.
    fn write_registers(&self, target: &mut DebugTarget, p: &[u8]) -> (r: DebuggerAction)
        requires
            p@.len() >= 1,
        ensures
            step_write_regs(self@, old(target)@, p@) == (Step {
                server: self@,
                target: final(target)@,
                action: r@,
            }),
            final(target).mem.wf() == old(target).mem.wf(),
    {
        reveal(step_write_regs);
        let data = tail(p, 1);
        if data.len() != 128 {
            return e01();
        }
        let mut regs = [0u32; 16];
        let mut i: usize = 0;
        while i < 16
            invariant
                0 <= i <= 16,
                data@ == after(p@, 1),
                data@.len() == 128,
                regs@.len() == 16,
                forall|j: int| 0 <= j < i ==> #[trigger] radix16(data@.subrange(8 * j, 8 * j + 8), u32::MAX as nat) is Some
                    && regs@[j] == swap32(radix16(data@.subrange(8 * j, 8 * j + 8), u32::MAX as nat)->0 as u32),
            decreases 16 - i,
        {
            let word = vstd::slice::slice_subrange(data, 8 * i, 8 * i + 8);
            match parse_radix16(word, u32::MAX as u64) {
                Some(v) => {
                    let v32 = v as u32;
                    let swapped = (v32 % 256) * 16777216 + (v32 / 256 % 256) * 65536 + (v32
                        / 65536 % 256) * 256 + v32 / 16777216;
                    let ghost before = regs@;
                    regs[i] = swapped;
                    assert(regs@ == before.update(i as int, swapped));
                },
                None => {
                    assert(parse_regs(data@) is None);
                    proof {
                        reveal(step_write_regs);
                    }
                    return e01();
                },
            }
            i = i + 1;
        }
        assert(parse_regs(data@) == Some(regs@));
        proof {
            reveal(step_write_regs);
        }
        let id = self.selected_general_thread(target);
        let c = match registers_for_thread(target, id) {
            Some(c) => c,
            None => {
                return e01();
            },
        };
        let new_ctx = GuestContext { regs, cpsr: c.cpsr };
        if write_registers_for_thread(target, id, new_ctx) {
            DebuggerAction::Reply(lit_vec("OK"))
        } else {
            e01()
        }
    }

    /// `p`: one register of the selected thread.
    fn read_register(&self, target: &DebugTarget, p: &[u8]) -> (r: DebuggerAction)
        requires
            p@.len() >= 1,
        ensures
            step_read_reg(self@, target@, p@) == (Step { server: self@, target: target@, action: r@ }),
    {
        reveal(step_read_reg);
        let n = match parse_radix16(tail(p, 1), usize::MAX as u64) {
            Some(n) => n,
            None => {
                return e01();
            },
        };
        let id = self.selected_general_thread(target);
        let c = match registers_for_thread(target, id) {
            Some(c) => c,
            None => {
                return e01();
            },
        };
        if 26 <= n && n <= 57 {
            DebuggerAction::Reply(lit_vec("0000000000000000"))
        } else if n < 16 {
            let mut out: Vec<u8> = Vec::new();
            push_hex_u32_le(&mut out, c.regs[n as usize]);
            assert(out@ =~= hex_encode(le_bytes(c.regs@[n as int])));
            DebuggerAction::Reply(out)
        } else if n == 25 {
            let mut out: Vec<u8> = Vec::new();
            push_hex_u32_le(&mut out, c.cpsr);
            assert(out@ =~= hex_encode(le_bytes(c.cpsr)));
            DebuggerAction::Reply(out)
        } else if (16 <= n && n <= 24) || n == 58 {
            DebuggerAction::Reply(lit_vec("00000000"))
        } else {
            DebuggerAction::Reply(lit_vec("E00"))
        }
    }

    /// `P`: sets one register of the selected thread.
    fn write_register(&self, target: &mut DebugTarget, p: &[u8]) -> (r: DebuggerAction)
        requires
            p@.len() >= 1,
        ensures
            step_write_reg(self@, old(target)@, p@) == (Step {
                server: self@,
                target: final(target)@,
                action: r@,
            }),
            final(target).mem.wf() == old(target).mem.wf(),
    {
        reveal(step_write_reg);
        let (num, enc) = match split_once(tail(p, 1), 61) {
            Some(pair) => pair,
            None => {
                return e01();
            },
        };
        let n = match parse_radix16(num, usize::MAX as u64) {
            Some(n) => n,
            None => {
                return e01();
            },
        };
        let e = match parse_radix16(enc, u32::MAX as u64) {
            Some(e) => e as u32,
            None => {
                return e01();
            },
        };
        if (26 <= n && n <= 57) || (16 <= n && n <= 24) || n == 58 {
            return DebuggerAction::Reply(lit_vec("OK"));
        }
        let id = self.selected_general_thread(target);
        let mut c = match registers_for_thread(target, id) {
            Some(c) => c,
            None => {
                return e01();
            },
        };
        let v = (e % 256) * 16777216 + (e / 256 % 256) * 65536 + (e / 65536 % 256) * 256 + e
            / 16777216;
        if n < 16 {
            c.regs[n as usize] = v;
        } else if n == 25 {
            c.cpsr = v;
        } else {
            return DebuggerAction::Reply(lit_vec("E00"));
        }
        if write_registers_for_thread(target, id, c) {
            DebuggerAction::Reply(lit_vec("OK"))
        } else {
            e01()
        }
    }

    /// `m`: reads guest memory.
    fn read_memory(&self, target: &DebugTarget, p: &[u8]) -> (r: DebuggerAction)
        requires
            p@.len() >= 1,
            target.mem.wf(),
        ensures
            step_read_mem(self@, target@, p@) == (Step { server: self@, target: target@, action: r@ }),
    {
        reveal(step_read_mem);
        let (a, l) = match split_once(tail(p, 1), 44) {
            Some(pair) => pair,
            None => {
                return e01();
            },
        };
        let address = match parse_radix16(a, u32::MAX as u64) {
            Some(v) => v,
            None => {
                return e01();
            },
        };
        let length = match parse_radix16(l, u32::MAX as u64) {
            Some(v) => v,
            None => {
                return e01();
            },
        };
        if length > MAX_GDB_MEMORY_TRANSFER as u64 {
            return e01();
        }
        match target.mem.read_bytes(address, length) {
            Ok(data) => DebuggerAction::Reply(hex_encode_bytes(data.as_slice())),
            Err(_) => DebuggerAction::Reply(lit_vec("E00")),
        }
    }


    /// `M`: writes guest memory, byte by byte as the hexadecimal pairs
    /// parse; the bytes before a bad pair stay written.
    fn write_memory(&self, target: &mut DebugTarget, p: &[u8]) -> (r: DebuggerAction)
        requires
            p@.len() >= 1,
            old(target).mem.wf(),
        ensures
            step_write_mem(self@, old(target)@, p@) == (Step {
                server: self@,
                target: final(target)@,
                action: r@,
            }),
            final(target).mem.wf(),
    {
        reveal(step_write_mem);
        let (header, data) = match split_once(tail(p, 1), 58) {
            Some(pair) => pair,
            None => {
                return e01();
            },
        };
        let (a, l) = match split_once(header, 44) {
            Some(pair) => pair,
            None => {
                return e01();
            },
        };
        let address = match parse_radix16(a, u32::MAX as u64) {
            Some(v) => v,
            None => {
                return e01();
            },
        };
        let length = match parse_radix16(l, u32::MAX as u64) {
            Some(v) => v,
            None => {
                return e01();
            },
        };
        if data.len() as u64 != 2 * length || length > MAX_GDB_MEMORY_TRANSFER as u64 {
            return e01();
        }
        if !target.mem.range_allows(address, length, AccessType::Write) {
            return DebuggerAction::Reply(lit_vec("E00"));
        }
        let n = length as usize;
        let mut bytes: Vec<u8> = Vec::new();
        let mut j: usize = 0;
        let mut bad = false;
        while j < n && !bad
            invariant
                data@.len() == 2 * n,
                data.len() == 2 * n,
                0 <= j <= n,
                bad ==> j < n && pair_value(data@, j as int) is None,
                pairs_ok(data@, j as int),
                bytes@ == pair_bytes(data@, j as int),
            decreases n - j + (if bad { 0int } else { 1int }),
        {
            let pair = vstd::slice::slice_subrange(data, 2 * j, 2 * j + 2);
            match parse_radix16(pair, 255) {
                Some(v) => {
                    bytes.push(v as u8);
                    proof {
                        assert forall|k: int| 0 <= k < j + 1 implies #[trigger] pair_value(data@, k) is Some by {
                        }
                        assert(bytes@ =~= pair_bytes(data@, j as int + 1));
                    }
                    j = j + 1;
                },
                None => {
                    bad = true;
                },
            }
        }
        proof {
            if bad {
                assert(pair_value(data@, j as int) is None);
                assert(!pairs_ok(data@, n as int));
                lemma_good_pairs_at(data@, n as int, j as int);
            }
            assert forall|k: int| 0 <= k < bytes@.len() implies #[trigger] crate::mem64::addr_ok(
                target.mem@.regions,
                address + k,
                2,
            ) by {
                assert(crate::mem64::addr_ok(target.mem@.regions, address + k, 2));
            }
        }
        let ghost before = target@;
        let written = target.mem.write_bytes(address, bytes.as_slice());
        assert(written is Ok);
        proof {
            assert(final(target)@.threads =~= before.threads);
        }
        if bad {
            e01()
        } else {
            DebuggerAction::Written { address: address as u32, length: length as u32 }
        }
    }


    /// `H`: selects the thread for register (`Hg`) or resume (`Hc`)
    /// commands.
    fn set_thread(&mut self, target: &DebugTarget, p: &[u8]) -> (r: DebuggerAction)
        requires
            p@.len() >= 1,
        ensures
            step_set_thread(old(self)@, target@, p@) == (Step {
                server: final(self)@,
                target: target@,
                action: r@,
            }),
    {
        reveal(step_set_thread);
        if p.len() < 3 {
            return e01();
        }
        let kind = p[1];
        match parse_thread_selector(tail(p, 2), target) {
            Ok(id) => if kind == 103 {
                self.general_thread = id;
                DebuggerAction::Reply(lit_vec("OK"))
            } else if kind == 99 {
                self.continue_thread = id;
                DebuggerAction::Reply(lit_vec("OK"))
            } else {
                e01()
            },
            Err(()) => e01(),
        }
    }

    /// `T`: whether a thread is alive.
    fn thread_alive(&self, target: &DebugTarget, p: &[u8]) -> (r: DebuggerAction)
        requires
            p@.len() >= 1,
        ensures
            step_thread_alive(self@, target@, p@) == (Step {
                server: self@,
                target: target@,
                action: r@,
            }),
    {
        reveal(step_thread_alive);
        match parse_thread_selector(tail(p, 1), target) {
            Ok(Some(_)) => DebuggerAction::Reply(lit_vec("OK")),
            Ok(None) => if thread_is_live(target, target.current_thread) {
                DebuggerAction::Reply(lit_vec("OK"))
            } else {
                e01()
            },
            Err(()) => e01(),
        }
    }

    /// A resume, at `address` where one is given.
    fn resume(&mut self, target: &mut DebugTarget, address: &[u8], step: bool) -> (r: DebuggerAction)
        ensures
            step_resume(old(self)@, old(target)@, address@, step) == (Step {
                server: final(self)@,
                target: final(target)@,
                action: r@,
            }),
            final(target).mem.wf() == old(target).mem.wf(),
    {
        reveal(step_resume);
        if address.len() != 0 {
            let a = match parse_radix16(address, u32::MAX as u64) {
                Some(a) => a as u32,
                None => {
                    return e01();
                },
            };
            let id = self.selected_continue_thread(target);
            if !set_pc_for_thread(target, id, a) {
                return e01();
            }
        }
        self.resume_thread = self.continue_thread;
        DebuggerAction::Resume { step }
    }

    /// `C` and `S`: a resume with a signal, which is ignored, and an
    /// optional address after `;`.
    fn resume_signal(&mut self, target: &mut DebugTarget, p: &[u8], step: bool) -> (r: DebuggerAction)
        requires
            p@.len() >= 1,
        ensures
            step_resume_signal(old(self)@, old(target)@, p@, step) == (Step {
                server: final(self)@,
                target: final(target)@,
                action: r@,
            }),
            final(target).mem.wf() == old(target).mem.wf(),
    {
        reveal(step_resume_signal);
        match split_once(tail(p, 1), 59) {
            Some((_, address)) => self.resume(target, address, step),
            None => {
                let none: [u8; 0] = [];
                assert(none@ =~= Seq::<u8>::empty());
                self.resume(target, &none, step)
            },
        }
    }

    /// `vCont;`: the first action, with an optional thread, which must be
    /// a continue or a step.
    fn vcont(&mut self, target: &DebugTarget, p: &[u8]) -> (r: DebuggerAction)
        requires
            starts_with(p@, lit("vCont;")),
        ensures
            step_vcont(old(self)@, target@, p@) == (Step {
                server: final(self)@,
                target: target@,
                action: r@,
            }),
    {
        reveal(step_vcont);
        let rest = tail(p, "vCont;".as_bytes().len());
        let action = match split_once(rest, 59) {
            Some((a, _)) => a,
            None => rest,
        };
        let (act, sel) = match split_once(action, 58) {
            Some((a, b)) => (a, Some(b)),
            None => (action, None),
        };
        if let Some(b) = sel {
            match parse_thread_selector(b, target) {
                Ok(id) => {
                    self.continue_thread = id;
                },
                Err(()) => {
                    return e01();
                },
            }
        }
        let is_c = is_lit(act, "c");
        let is_s = is_lit(act, "s");
        if is_c || is_s {
            self.resume_thread = self.continue_thread;
            DebuggerAction::Resume { step: is_s }
        } else {
            e01()
        }
    }


    /// Handles one packet body from the debugger while the CPU is stopped
    /// for `stop`: answers it, changes the selected threads, registers or
    /// memory as it asks, and says whether and how to resume.
    pub fn handle_packet(
        &mut self,
        stop: Option<StopReason>,
        packet: &[u8],
        target: &mut DebugTarget,
    ) -> (r: DebuggerAction)
        requires
            old(target).mem.wf(),
        ensures
            gdb_step(old(self)@, old(target)@, stop, packet@) == (Step {
                server: final(self)@,
                target: final(target)@,
                action: r@,
            }),
            final(target).mem.wf(),
    {
        if packet.len() == 0 {
            return DebuggerAction::Nothing;
        }
        let c = packet[0];
        if c == 63 {
            let signal = match stop {
                Some(StopReason::MemoryError) => "S0b",
                Some(_) => "S05",
                None => "S00",
            };
            DebuggerAction::Reply(stop_reply_body(signal, target))
        } else if c == 103 {
            self.read_registers(target)
        } else if c == 71 {
            self.write_registers(target, packet)
        } else if c == 112 {
            self.read_register(target, packet)
        } else if c == 80 {
            self.write_register(target, packet)
        } else if c == 109 {
            self.read_memory(target, packet)
        } else if c == 77 {
            self.write_memory(target, packet)
        } else if c == 72 {
            self.set_thread(target, packet)
        } else if c == 84 {
            self.thread_alive(target, packet)
        } else if c == 99 || c == 115 {
            self.resume(target, tail(packet, 1), c == 115)
        } else if c == 67 || c == 83 {
            self.resume_signal(target, packet, c == 83)
        } else if is_lit(packet, "vCont?") {
            DebuggerAction::Reply(lit_vec("vCont;c;s"))
        } else if has_lit_prefix(packet, "vCont;") {
            self.vcont(target, packet)
        } else if c == 107 {
            DebuggerAction::Kill
        } else if c == 68 {
            DebuggerAction::Detach
        } else {
            DebuggerAction::Reply(query(target, packet))
        }
    }

}

/// GDB target description XML.
pub const TARGET_XML: &'static str =
    "\n<target version=\"1.0\">\n    <architecture>armv6</architecture>\n    <osabi>Darwin</osabi>\n</target>\n";

/// The features the server offers in answer to `qSupported`.
pub const SUPPORTED: &'static str =
    "PacketSize=1000;qXfer:features:read+;qXfer:threads:read+;multiprocess+;vContSupported+";

} // verus!
