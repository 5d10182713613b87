//! The checks that the loader makes of a dyld opcode stream before it is
//! handed to `mach_object`'s iterators: those iterators keep the offset of
//! the current pointer in an `isize` and add to it without a check, so a
//! stream whose offsets leave that range (or that repeats a bind more
//! times than any image needs) is refused here.
//!
//! The walk below reads the stream the way the iterators do (an opcode in
//! the high nibble and an immediate in the low one, ULEB128 operands,
//! C-string names) and follows the offset. Where an iterator would stop
//! early (an opcode it does not know, an unreadable number) the walk stops
//! too. The one place where the walk may go on past the iterator is a
//! symbol name that is not UTF-8, where the iterator stops; the walk then
//! checks more offsets than the iterator computes, never fewer.
use vstd::arithmetic::power2::{lemma2_to64, lemma2_to64_rest, lemma_pow2_adds, pow2};
use vstd::prelude::*;

verus! {

/// The ULEB128 number whose bytes start at `p`, read as `mach_object`
/// reads one from a byte iterator: seven bits a byte, low bits first,
/// `acc` holding what was read so far with the next seven bits worth
/// `scale` (`2^bits`), until a byte below 0x80 or the end of the bytes.
/// A byte at bit 70 is an overflow (`None`); of the byte at bit 63 only
/// the lowest bit is kept. The value and the position after the number.
pub open spec fn uleb_from(s: Seq<u8>, p: int, bits: int, scale: int, acc: int) -> Option<(int, int)>
    decreases s.len() - p,
{
    if p < 0 || p >= s.len() {
        Some((acc, p))
    } else if bits > 63 {
        None
    } else {
        let n = (s[p] % 128) as int;
        let add = if bits == 63 {
            (n % 2) * scale
        } else {
            n * scale
        };
        if s[p] < 128 {
            Some((acc + add, p + 1))
        } else {
            uleb_from(s, p + 1, bits + 7, scale * 128, acc + add)
        }
    }
}

/// The ULEB128 number at `p`.
pub open spec fn uleb(s: Seq<u8>, p: int) -> Option<(int, int)> {
    uleb_from(s, p, 0, 1, 0)
}

/// A 64-bit word as `as isize` reads it on a 64-bit host.
pub open spec fn wrap64(v: int) -> int {
    if v < 0x8000_0000_0000_0000 {
        v
    } else {
        v - 0x1_0000_0000_0000_0000
    }
}

/// Whether `x` fits an `isize` of a 64-bit host.
pub open spec fn in_isize(x: int) -> bool {
    -0x8000_0000_0000_0000 <= x < 0x8000_0000_0000_0000
}

/// The position after the C string at `p` (after its 0 byte, or the end).
pub open spec fn cstr_end(s: Seq<u8>, p: int) -> int
    decreases s.len() - p,
{
    if p < 0 || p >= s.len() {
        if p < 0 { 0 } else { p }
    } else if s[p] == 0 {
        p + 1
    } else {
        cstr_end(s, p + 1)
    }
}

/// `times` pointers named from offset `off` on, `step` apart: the last
/// offset computed fits (the offsets between lie between the first and the
/// last).
pub open spec fn emit_ok(off: int, times: int, step: int) -> bool {
    in_isize(off + times * step)
}

/// Whether a bind (`kind` 0), weak bind (1) or lazy bind (2) stream, from
/// position `p` on, with the current offset `off`, keeps every offset that `mach_object::Bind` (or its weak
/// or lazy variant) computes within an `isize`, for 8-byte pointers. The
/// walk stops where the iterator stops: at the end opcode (but for lazy
/// binds, which go on past it), at an opcode its variant does not take, an
/// unknown library kind or bind type, or a number it cannot read.
pub open spec fn bind_walk(s: Seq<u8>, kind: int, p: int, off: int) -> bool
    decreases s.len() - p,
{
    if p < 0 || p >= s.len() {
        true
    } else {
        let op = s[p] / 16;
        let imm = (s[p] % 16) as int;
        if op == 0 {
            if kind == 2 {
                bind_walk(s, kind, p + 1, off)
            } else {
                true
            }
        } else if op == 1 {
            if kind == 1 {
                true
            } else {
                bind_walk(s, kind, p + 1, off)
            }
        } else if op == 2 {
            if kind == 1 {
                true
            } else {
                match uleb(s, p + 1) {
                    None => true,
                    Some((_, q)) => if q <= p || q > s.len() { true } else { bind_walk(s, kind, q, off) },
                }
            }
        } else if op == 3 {
            if kind == 1 || !(imm == 0 || imm == 14 || imm == 15) {
                true
            } else {
                bind_walk(s, kind, p + 1, off)
            }
        } else if op == 4 {
            let q = cstr_end(s, p + 1);
            if q <= p || q > s.len() { true } else { bind_walk(s, kind, q, off) }
        } else if op == 5 {
            if kind == 2 || !(1 <= imm && imm <= 3) {
                true
            } else {
                bind_walk(s, kind, p + 1, off)
            }
        } else if op == 6 {
            if kind == 2 {
                true
            } else {
                match uleb(s, p + 1) {
                    None => true,
                    Some((_, q)) => if q <= p || q > s.len() { true } else { bind_walk(s, kind, q, off) },
                }
            }
        } else if op == 7 {
            match uleb(s, p + 1) {
                None => true,
                Some((v, q)) => if q <= p || q > s.len() { true } else { bind_walk(s, kind, q, wrap64(v)) },
            }
        } else if op == 8 {
            match uleb(s, p + 1) {
                None => true,
                Some((v, q)) => if q <= p || q > s.len() {
                    true
                } else {
                    in_isize(off + wrap64(v)) && bind_walk(s, kind, q, off + wrap64(v))
                },
            }
        } else if op == 9 {
            emit_ok(off, 1, 8) && bind_walk(s, kind, p + 1, off + 8)
        } else if op == 10 {
            if kind == 2 {
                true
            } else {
                match uleb(s, p + 1) {
                    None => true,
                    Some((v, q)) => if q <= p || q > s.len() {
                        true
                    } else {
                        in_isize(wrap64(v) + 8) && emit_ok(off, 1, wrap64(v) + 8) && bind_walk(
                            s,
                            kind,
                            q,
                            off + wrap64(v) + 8
                        )
                    },
                }
            }
        } else if op == 11 {
            if kind == 2 {
                true
            } else {
                emit_ok(off, 1, 8 * imm + 8) && bind_walk(s, kind, p + 1, off + 8 * imm + 8)
            }
        } else if op == 12 {
            if kind == 2 {
                true
            } else {
                match uleb(s, p + 1) {
                    None => true,
                    Some((t, q1)) => match uleb(s, q1) {
                        None => true,
                        Some((k, q)) => if q <= p || q > s.len() {
                            true
                        } else {
                            k + 8 < 0x1_0000_0000_0000_0000 && emit_ok(off, t, wrap64(k + 8))
                                && bind_walk(s, kind, q, off + t * wrap64(k + 8))
                        },
                    },
                }
            }
        } else {
            true
        }
    }
}

/// Whether a rebase stream, from position `p` on, keeps every offset that
/// `mach_object::Rebase` computes within an `isize`, for 8-byte pointers.
pub open spec fn rebase_walk(s: Seq<u8>, p: int, off: int) -> bool
    decreases s.len() - p,
{
    if p < 0 || p >= s.len() {
        true
    } else {
        let op = s[p] / 16;
        let imm = (s[p] % 16) as int;
        if op == 1 {
            if 1 <= imm && imm <= 3 {
                rebase_walk(s, p + 1, off)
            } else {
                true
            }
        } else if op == 2 {
            match uleb(s, p + 1) {
                None => true,
                Some((v, q)) => if q <= p || q > s.len() { true } else { rebase_walk(s, q, wrap64(v)) },
            }
        } else if op == 3 {
            match uleb(s, p + 1) {
                None => true,
                Some((v, q)) => if q <= p || q > s.len() {
                    true
                } else {
                    in_isize(off + wrap64(v)) && rebase_walk(s, q, off + wrap64(v))
                },
            }
        } else if op == 4 {
            in_isize(off + 8 * imm) && rebase_walk(s, p + 1, off + 8 * imm)
        } else if op == 5 {
            emit_ok(off, imm, 8) && rebase_walk(s, p + 1, off + imm * 8)
        } else if op == 6 {
            match uleb(s, p + 1) {
                None => true,
                Some((t, q)) => if q <= p || q > s.len() {
                    true
                } else {
                    emit_ok(off, t, 8) && rebase_walk(s, q, off + t * 8)
                },
            }
        } else if op == 7 {
            match uleb(s, p + 1) {
                None => true,
                Some((v, q)) => if q <= p || q > s.len() {
                    true
                } else {
                    in_isize(wrap64(v) + 8) && emit_ok(off, 1, wrap64(v) + 8) && rebase_walk(
                        s,
                        q,
                        off + wrap64(v) + 8
                    )
                },
            }
        } else if op == 8 {
            match uleb(s, p + 1) {
                None => true,
                Some((t, q1)) => match uleb(s, q1) {
                    None => true,
                    Some((k, q)) => if q <= p || q > s.len() {
                        true
                    } else {
                        k + 8 < 0x1_0000_0000_0000_0000 && emit_ok(off, t, wrap64(k + 8))
                            && rebase_walk(s, q, off + t * wrap64(k + 8))
                    },
                },
            }
        } else {
            true
        }
    }
}

/// Whether a bind (`kind` 0), weak bind (1) or lazy bind (2) stream is
/// one the iterator reads without leaving an `isize`.
pub open spec fn bind_stream_ok(s: Seq<u8>, kind: int) -> bool {
    bind_walk(s, kind, 0, 0)
}

/// Whether a rebase stream is one the iterator reads without leaving an
/// `isize`.
pub open spec fn rebase_stream_ok(s: Seq<u8>) -> bool {
    rebase_walk(s, 0, 0)
}

/// Reads the ULEB128 number at `p`.
pub fn read_uleb(s: &[u8], p: usize) -> (r: Option<(u64, usize)>)
    requires
        p <= s@.len(),
    ensures
        match uleb(s@, p as int) {
            None => r is None,
            Some((v, q)) => r matches Some((rv, rq)) && rv == v && rq == q && p <= q <= s@.len(),
        },
{
    let mut i = p;
    let mut bits: u32 = 0;
    let mut scale: u128 = 1;
    let mut acc: u128 = 0;
    proof {
        lemma2_to64();
    }
    loop
        invariant
            p <= i <= s@.len(),
            bits % 7 == 0,
            bits <= 70,
            scale == pow2(bits as nat),
            acc < scale,
            acc < 0x1_0000_0000_0000_0000,
            uleb(s@, p as int) == uleb_from(s@, i as int, bits as int, scale as int, acc as int),
        decreases s@.len() - i,
    {
        proof {
            lemma2_to64();
            lemma2_to64_rest();
        }
        if i >= s.len() {
            return Some((acc as u64, i));
        }
        if bits > 63 {
            return None;
        }
        let b = s[i];
        let n: u128 = (b % 128) as u128;
        assert(bits <= 63);
        assert(scale <= 0x8000_0000_0000_0000) by {
            if bits < 63 {
                assert(bits <= 56);
            }
        }
        let add: u128 = if bits == 63 {
            assert((n % 2) * scale <= scale) by (nonlinear_arith)
                requires
                    n % 2 <= 1,
            ;
            (n % 2) * scale
        } else {
            assert(bits <= 56);
            assert(scale <= 0x0100_0000_0000_0000);
            assert(n * scale <= 127 * scale) by (nonlinear_arith)
                requires
                    n <= 127,
            ;
            n * scale
        };
        assert(acc + add < scale * 128) by (nonlinear_arith)
            requires
                acc < scale,
                add <= 127 * scale,
        ;
        assert(bits == 63 ==> acc + add < 0x1_0000_0000_0000_0000);
        assert(bits < 63 ==> scale * 128 <= 0x8000_0000_0000_0000) by {
            if bits < 63 {
                assert(bits <= 56);
                lemma_pow2_adds(bits as nat, 7);
            }
        }
        acc = acc + add;
        if b < 128 {
            return Some((acc as u64, i + 1));
        }
        proof {
            lemma_pow2_adds(bits as nat, 7);
        }
        i = i + 1;
        bits = bits + 7;
        scale = scale * 128;
    }
}

/// The position after the C string at `p`.
fn skip_cstr(s: &[u8], p: usize) -> (q: usize)
    requires
        p <= s@.len(),
    ensures
        q == cstr_end(s@, p as int),
        p <= q <= s@.len(),
{
    let mut i = p;
    while i < s.len() && s[i] != 0
        invariant
            p <= i <= s@.len(),
            cstr_end(s@, i as int) == cstr_end(s@, p as int),
        decreases s@.len() - i,
    {
        i = i + 1;
    }
    if i < s.len() {
        i + 1
    } else {
        i
    }
}

/// `wrap64` on a number read from the stream.
fn wrap(v: u64) -> (r: i128)
    ensures
        r == wrap64(v as int),
{
    if v < 0x8000_0000_0000_0000 {
        v as i128
    } else {
        v as i128 - 0x1_0000_0000_0000_0000i128
    }
}

/// `times` pointers named `step` apart from `off`, checked: the offset
/// after them.
fn emit(off: i128, times: u64, step: i128) -> (r: Option<i128>)
    requires
        in_isize(off as int),
        -0x8000_0000_0000_0000 <= step <= 0x8000_0000_0000_0008,
    ensures
        match r {
            Some(o) => emit_ok(off as int, times as int, step as int) && o == off + times * step,
            None => !emit_ok(off as int, times as int, step as int),
        },
{
    let t = times as i128;
    let magnitude: i128 = if step < 0 { -step } else { step };
    if t > 0 && magnitude > 0 && t > 0x1_0000_0000_0000_0000i128 / magnitude {
        assert(t * magnitude > 0x1_0000_0000_0000_0000) by (nonlinear_arith)
            requires
                t > 0x1_0000_0000_0000_0000i128 / magnitude,
                magnitude > 0,
                t > 0,
        ;
        assert(t * step >= 0x1_0000_0000_0000_0000 || t * step <= -0x1_0000_0000_0000_0000) by (nonlinear_arith)
            requires
                t * magnitude > 0x1_0000_0000_0000_0000,
                magnitude == step || magnitude == -step,
                t > 0,
        ;
        return None;
    }
    assert(-0x1_0000_0000_0000_0000 <= t * step <= 0x1_0000_0000_0000_0000) by (nonlinear_arith)
        requires
            t == 0 || magnitude == 0 || t <= 0x1_0000_0000_0000_0000i128 / magnitude,
            magnitude == step || magnitude == -step,
            magnitude >= 0,
            t >= 0,
    ;
    let o = off + t * step;
    if o < -0x8000_0000_0000_0000i128 || o >= 0x8000_0000_0000_0000i128 {
        return None;
    }
    Some(o)
}

/// Whether the iterator that reads a bind (`kind` 0), weak bind (1) or
/// lazy bind (2) stream keeps every offset in an `isize`.
pub fn check_bind_stream(s: &[u8], kind: u8) -> (r: bool)
    requires
        kind <= 2,
    ensures
        r == bind_stream_ok(s@, kind as int),
{
    let mut p: usize = 0;
    let mut off: i128 = 0;
    while p < s.len()
        invariant
            kind <= 2,
            p <= s@.len(),
            in_isize(off as int),
            bind_stream_ok(s@, kind as int) == bind_walk(s@, kind as int, p as int, off as int),
        decreases s@.len() - p,
    {
        let b = s[p];
        let op = b / 16;
        let imm = (b % 16) as i128;
        if op == 0 {
            if kind != 2 {
                return true;
            }
            p = p + 1;
        } else if op == 1 {
            if kind == 1 {
                return true;
            }
            p = p + 1;
        } else if op == 2 || op == 6 {
            if (op == 2 && kind == 1) || (op == 6 && kind == 2) {
                return true;
            }
            match read_uleb(s, p + 1) {
                None => return true,
                Some((_, q)) => {
                    p = q;
                },
            }
        } else if op == 3 {
            if kind == 1 || !(imm == 0 || imm == 14 || imm == 15) {
                return true;
            }
            p = p + 1;
        } else if op == 4 {
            p = skip_cstr(s, p + 1);
        } else if op == 5 {
            if kind == 2 || !(1 <= imm && imm <= 3) {
                return true;
            }
            p = p + 1;
        } else if op == 7 {
            match read_uleb(s, p + 1) {
                None => return true,
                Some((v, q)) => {
                    off = wrap(v);
                    p = q;
                },
            }
        } else if op == 8 {
            match read_uleb(s, p + 1) {
                None => return true,
                Some((v, q)) => {
                    let o = off + wrap(v);
                    if o < -0x8000_0000_0000_0000i128 || o >= 0x8000_0000_0000_0000i128 {
                        return false;
                    }
                    off = o;
                    p = q;
                },
            }
        } else if op == 9 {
            match emit(off, 1, 8) {
                None => return false,
                Some(o) => {
                    off = o;
                    p = p + 1;
                },
            }
        } else if op == 10 {
            if kind == 2 {
                return true;
            }
            match read_uleb(s, p + 1) {
                None => return true,
                Some((v, q)) => {
                    let step = wrap(v) + 8;
                    if step >= 0x8000_0000_0000_0000i128 {
                        return false;
                    }
                    match emit(off, 1, step) {
                        None => return false,
                        Some(o) => {
                            off = o;
                            p = q;
                        },
                    }
                },
            }
        } else if op == 11 {
            if kind == 2 {
                return true;
            }
            match emit(off, 1, 8 * imm + 8) {
                None => return false,
                Some(o) => {
                    off = o;
                    p = p + 1;
                },
            }
        } else if op == 12 {
            if kind == 2 {
                return true;
            }
            match read_uleb(s, p + 1) {
                None => return true,
                Some((t, q1)) => match read_uleb(s, q1) {
                    None => return true,
                    Some((k, q)) => {
                        if k > u64::MAX - 8 {
                            return false;
                        }
                        match emit(off, t, wrap(k + 8)) {
                            None => return false,
                            Some(o) => {
                                off = o;
                                p = q;
                            },
                        }
                    },
                },
            }
        } else {
            return true;
        }
    }
    true
}

/// Whether the iterator that reads a rebase stream keeps every offset in
/// an `isize`.
pub fn check_rebase_stream(s: &[u8]) -> (r: bool)
    ensures
        r == rebase_stream_ok(s@),
{
    let mut p: usize = 0;
    let mut off: i128 = 0;
    while p < s.len()
        invariant
            p <= s@.len(),
            in_isize(off as int),
            rebase_stream_ok(s@) == rebase_walk(s@, p as int, off as int),
        decreases s@.len() - p,
    {
        let b = s[p];
        let op = b / 16;
        let imm = (b % 16) as u64;
        if op == 1 {
            if !(1 <= imm && imm <= 3) {
                return true;
            }
            p = p + 1;
        } else if op == 2 {
            match read_uleb(s, p + 1) {
                None => return true,
                Some((v, q)) => {
                    off = wrap(v);
                    p = q;
                },
            }
        } else if op == 3 {
            match read_uleb(s, p + 1) {
                None => return true,
                Some((v, q)) => {
                    let o = off + wrap(v);
                    if o < -0x8000_0000_0000_0000i128 || o >= 0x8000_0000_0000_0000i128 {
                        return false;
                    }
                    off = o;
                    p = q;
                },
            }
        } else if op == 4 {
            let o = off + 8 * (imm as i128);
            if o >= 0x8000_0000_0000_0000i128 {
                return false;
            }
            off = o;
            p = p + 1;
        } else if op == 5 {
            match emit(off, imm, 8) {
                None => return false,
                Some(o) => {
                    off = o;
                    p = p + 1;
                },
            }
        } else if op == 6 {
            match read_uleb(s, p + 1) {
                None => return true,
                Some((t, q)) => match emit(off, t, 8) {
                    None => return false,
                    Some(o) => {
                        off = o;
                        p = q;
                    },
                },
            }
        } else if op == 7 {
            match read_uleb(s, p + 1) {
                None => return true,
                Some((v, q)) => {
                    let step = wrap(v) + 8;
                    if step >= 0x8000_0000_0000_0000i128 {
                        return false;
                    }
                    match emit(off, 1, step) {
                        None => return false,
                        Some(o) => {
                            off = o;
                            p = q;
                        },
                    }
                },
            }
        } else if op == 8 {
            match read_uleb(s, p + 1) {
                None => return true,
                Some((t, q1)) => match read_uleb(s, q1) {
                    None => return true,
                    Some((k, q)) => {
                        if k > u64::MAX - 8 {
                            return false;
                        }
                        match emit(off, t, wrap(k + 8)) {
                            None => return false,
                            Some(o) => {
                                off = o;
                                p = q;
                            },
                        }
                    },
                },
            }
        } else {
            return true;
        }
    }
    true
}

} // verus!
