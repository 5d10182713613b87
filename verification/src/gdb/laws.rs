//! What a debugger can rely on across packets: a register or memory range
//! it writes reads back as written.
use super::wire::{after, first_at, hex_encode, le_bytes, lemma_split_first_at, lit, radix16, split_first};
use super::{
    live, select_thread, step_resume, step_set_thread,
    gdb_step, general_of, good_pairs, ignored_register, pair_bytes, pairs_ok, regs_for, reply,
    step_read_mem, step_read_reg, step_write_mem, step_write_reg, swap32, write_ctx, ActionView,
    ContextView, ServerView, StopReason, TargetView, MAX_GDB_MEMORY_TRANSFER,
};
use crate::mem64::{range_ok, regions_wf};
use crate::mem64_laws::law_read_after_write;
use vstd::prelude::*;

verus! {

/// The two halves of `a`, `c` and `b` cut at `c`, where `a` holds no `c`.
proof fn lemma_split_joined(a: Seq<u8>, c: u8, b: Seq<u8>)
    requires
        forall|i: int| 0 <= i < a.len() ==> a[i] != c,
    ensures
        split_first(a + seq![c] + b, c) == Some((a, b)),
{
    let s = a + seq![c] + b;
    assert(first_at(s, c, a.len() as int)) by {
        assert forall|j: int| 0 <= j < a.len() implies s[j] != c by {
            assert(s[j] == a[j]);
        }
    }
    lemma_split_first_at(s, c, a.len() as int);
    assert(s.subrange(0, a.len() as int) =~= a);
    assert(s.subrange(a.len() as int + 1, s.len() as int) =~= b);
}

/// A register that a `P` packet sets reads back with `p` as the value
/// written, on the thread that register commands act on.
pub proof fn law_register_reads_back(
    s: ServerView,
    t: TargetView,
    stop: Option<StopReason>,
    num: Seq<u8>,
    enc: Seq<u8>,
)
    requires
        forall|i: int| 0 <= i < num.len() ==> num[i] != 61,
        radix16(num, usize::MAX as nat) matches Some(n) && n < 16,
        radix16(enc, u32::MAX as nat) is Some,
        regs_for(t, general_of(s, t)) matches Some(c) && c.regs.len() == 16,
    ensures
        ({
            let write = seq![80u8] + num + seq![61u8] + enc;
            let read = seq![112u8] + num;
            let st = gdb_step(s, t, stop, write);
            &&& st.action == ActionView::Reply(lit("OK"))
            &&& gdb_step(st.server, st.target, stop, read).action == ActionView::Reply(
                hex_encode(le_bytes(swap32(radix16(enc, u32::MAX as nat)->0 as u32))),
            )
        }),
{
    reveal(step_write_reg);
    reveal(step_read_reg);
    let write = seq![80u8] + num + seq![61u8] + enc;
    let read = seq![112u8] + num;
    assert(after(write, 1) =~= num + seq![61u8] + enc);
    assert(after(read, 1) =~= num);
    lemma_split_joined(num, 61, enc);
    let n = radix16(num, usize::MAX as nat)->0;
    let e = radix16(enc, u32::MAX as nat)->0;
    assert(!ignored_register(n as int));
    let id = general_of(s, t);
    let c = regs_for(t, id)->0;
    let v = swap32(e as u32);
    let c2 = ContextView { regs: c.regs.update(n as int, v), ..c };
    let t2 = write_ctx(t, id, c2)->0;
    assert(gdb_step(s, t, stop, write) == reply(s, t2, lit("OK")));
    assert(forall|i: int| 0 <= i < t.threads.len() ==> #[trigger] t2.threads[i].active == t.threads[i].active);
    assert(general_of(s, t2) == id);
    assert(regs_for(t2, id) == Some(c2));
}

/// Memory that an `M` packet writes reads back with `m` as the bytes
/// written, where the range may be both written and read.
pub proof fn law_memory_reads_back(
    s: ServerView,
    t: TargetView,
    stop: Option<StopReason>,
    a: Seq<u8>,
    l: Seq<u8>,
    data: Seq<u8>,
)
    requires
        regions_wf(t.mem.regions),
        forall|i: int| 0 <= i < a.len() ==> a[i] != 44 && a[i] != 58,
        forall|i: int| 0 <= i < l.len() ==> l[i] != 58,
        radix16(a, u32::MAX as nat) is Some,
        radix16(l, u32::MAX as nat) matches Some(len) && len <= MAX_GDB_MEMORY_TRANSFER && data.len()
            == 2 * len && pairs_ok(data, len as int),
        range_ok(
            t.mem.regions,
            radix16(a, u32::MAX as nat)->0 as int,
            radix16(l, u32::MAX as nat)->0 as int,
            2,
        ),
        range_ok(
            t.mem.regions,
            radix16(a, u32::MAX as nat)->0 as int,
            radix16(l, u32::MAX as nat)->0 as int,
            1,
        ),
    ensures
        ({
            let addr = radix16(a, u32::MAX as nat)->0;
            let len = radix16(l, u32::MAX as nat)->0;
            let write = seq![77u8] + a + seq![44u8] + l + seq![58u8] + data;
            let read = seq![109u8] + a + seq![44u8] + l;
            let st = gdb_step(s, t, stop, write);
            &&& st.action == ActionView::Written(addr as u32, len as u32)
            &&& gdb_step(st.server, st.target, stop, read).action == ActionView::Reply(
                hex_encode(pair_bytes(data, len as int)),
            )
        }),
{
    reveal(step_write_mem);
    reveal(step_read_mem);
    let addr = radix16(a, u32::MAX as nat)->0;
    let len = radix16(l, u32::MAX as nat)->0;
    let header = a + seq![44u8] + l;
    let write = seq![77u8] + a + seq![44u8] + l + seq![58u8] + data;
    let read = seq![109u8] + a + seq![44u8] + l;
    assert(after(write, 1) =~= header + seq![58u8] + data);
    assert(after(read, 1) =~= header);
    assert forall|i: int| 0 <= i < header.len() implies header[i] != 58 by {
        if i < a.len() {
            assert(header[i] == a[i]);
        } else if i > a.len() {
            assert(header[i] == l[i - a.len() - 1]);
        }
    }
    lemma_split_joined(header, 58, data);
    lemma_split_joined(a, 44, l);
    assert(good_pairs(data, len as int) == len);
    let bytes = pair_bytes(data, len as int);
    let st = gdb_step(s, t, stop, write);
    assert(st.target.mem.regions == crate::mem64::write_spec(t.mem.regions, addr as int, bytes, len as int));
    law_read_after_write(t.mem, st.target.mem, addr as int, bytes, 1);
}

/// `Hc<id>` selects the thread that resumes just as `Hg<id>` selects the
/// thread whose registers are read: an id `w` (in hex) of a live thread
/// names thread `w - 1`, and a `c` that follows resumes that thread.
pub proof fn law_hc_selects_the_continue_thread(
    s: ServerView,
    t: TargetView,
    stop: Option<StopReason>,
    id: Seq<u8>,
)
    requires
        id.len() > 0,
    ensures
        ({
            let hc = gdb_step(s, t, stop, seq![72u8, 99u8] + id);
            let hg = gdb_step(s, t, stop, seq![72u8, 103u8] + id);
            &&& select_thread(id, t) is Ok ==> hc.action == ActionView::Reply(lit("OK")) && hc.target == t
                && hc.server.cont == hg.server.general
                && gdb_step(hc.server, hc.target, stop, seq![99u8]).server.resume == hc.server.cont
            &&& radix16(id, u64::MAX as nat) matches Some(w) ==> (id != lit("-1") && id != lit("0") && w >= 1
                && w - 1 <= usize::MAX && live(t, w - 1) ==> hc.server.cont == Some(w - 1))
        }),
{
    reveal(step_set_thread);
    reveal(step_resume);
    let hc_p = seq![72u8, 99u8] + id;
    let hg_p = seq![72u8, 103u8] + id;
    assert(after(hc_p, 2) =~= id);
    assert(after(hg_p, 2) =~= id);
    assert(after(seq![99u8], 1) =~= Seq::<u8>::empty());
}

} // verus!
