//! The text encodings of the GDB Remote Serial Protocol: hexadecimal
//! numbers and bytes, the radix-16 parse the server applies to fields,
//! and the `$body#cc` frame with its modulo-256 checksum.
use vstd::prelude::*;
use vstd::string::StringSliceAdditionalSpecFns;

verus! {

/// The lower-case hexadecimal digit for `n` (below 16).
pub open spec fn hex_digit(n: int) -> u8 {
    if n < 10 {
        (48 + n) as u8
    } else {
        (87 + n) as u8
    }
}

/// A byte as two lower-case hexadecimal digits (`{:02x}`).
pub open spec fn hex_byte(b: u8) -> Seq<u8> {
    seq![hex_digit(b as int / 16), hex_digit(b as int % 16)]
}

/// Each byte of `s` as two lower-case hexadecimal digits, in order.
pub open spec fn hex_encode(s: Seq<u8>) -> Seq<u8>
    decreases s.len(),
{
    if s.len() == 0 {
        Seq::empty()
    } else {
        hex_encode(s.drop_last()) + hex_byte(s.last())
    }
}

/// The four bytes of `v`, least significant first.
pub open spec fn le_bytes(v: u32) -> Seq<u8> {
    seq![
        (v % 256) as u8,
        (v / 256 % 256) as u8,
        (v / 65536 % 256) as u8,
        (v / 16777216 % 256) as u8,
    ]
}

/// `n` in lower-case hexadecimal without leading zeros (`{:x}`).
pub open spec fn hex_min(n: nat) -> Seq<u8>
    decreases n,
{
    if n < 16 {
        seq![hex_digit(n as int)]
    } else {
        hex_min(n / 16).push(hex_digit((n % 16) as int))
    }
}

/// The value of a hexadecimal digit of either case, or -1.
pub open spec fn digit_value(c: u8) -> int {
    if 48 <= c <= 57 {
        c - 48
    } else if 97 <= c <= 102 {
        c - 87
    } else if 65 <= c <= 70 {
        c - 55
    } else {
        -1
    }
}

/// Whether every byte of `s` is a hexadecimal digit.
pub open spec fn all_hex(s: Seq<u8>) -> bool {
    forall|i: int| 0 <= i < s.len() ==> digit_value(#[trigger] s[i]) >= 0
}

/// The number that the hexadecimal digits `s` spell.
pub open spec fn hex_value(s: Seq<u8>) -> nat
    decreases s.len(),
{
    if s.len() == 0 {
        0
    } else {
        hex_value(s.drop_last()) * 16 + digit_value(s.last()) as nat
    }
}

/// What `from_str_radix(s, 16)` gives for an unsigned type whose largest
/// value is `max`: an optional `+`, then at least one hexadecimal digit,
/// whose value must not pass `max`.
pub open spec fn radix16(s: Seq<u8>, max: nat) -> Option<nat> {
    let d = if s.len() > 0 && s[0] == 43 {
        s.drop_first()
    } else {
        s
    };
    if d.len() > 0 && all_hex(d) && hex_value(d) <= max {
        Some(hex_value(d))
    } else {
        None
    }
}

/// The modulo-256 sum of the bytes of `s`.
pub open spec fn checksum(s: Seq<u8>) -> u8
    decreases s.len(),
{
    if s.len() == 0 {
        0
    } else {
        ((checksum(s.drop_last()) + s.last()) % 256) as u8
    }
}

/// `body` framed for sending: `$`, the body, `#` and the checksum in two
/// lower-case hexadecimal digits.
pub open spec fn frame(body: Seq<u8>) -> Seq<u8> {
    seq![36u8] + body + seq![35u8] + hex_byte(checksum(body))
}

/// Whether `i` is the first position of `c` in `s`.
pub open spec fn first_at(s: Seq<u8>, c: u8, i: int) -> bool {
    &&& 0 <= i < s.len()
    &&& s[i] == c
    &&& forall|j: int| 0 <= j < i ==> s[j] != c
}

/// `s` cut at its first `c`, which is dropped; `None` where there is none.
pub open spec fn split_first(s: Seq<u8>, c: u8) -> Option<(Seq<u8>, Seq<u8>)> {
    if exists|i: int| first_at(s, c, i) {
        let i = choose|i: int| first_at(s, c, i);
        Some((s.subrange(0, i), s.subrange(i + 1, s.len() as int)))
    } else {
        None
    }
}

/// Whether `s` begins with `prefix`.
pub open spec fn starts_with(s: Seq<u8>, prefix: Seq<u8>) -> bool {
    prefix.len() <= s.len() && s.subrange(0, prefix.len() as int) == prefix
}

/// `s` without the first `n` bytes.
pub open spec fn after(s: Seq<u8>, n: int) -> Seq<u8> {
    s.subrange(n, s.len() as int)
}

/// The bytes of a string literal.
pub open spec fn lit(s: &str) -> Seq<u8> {
    s.spec_bytes()
}

pub proof fn lemma_first_unique(s: Seq<u8>, c: u8, i: int, j: int)
    requires
        first_at(s, c, i),
        first_at(s, c, j),
    ensures
        i == j,
{
    if i < j {
        assert(s[i] != c);
    } else if j < i {
        assert(s[j] != c);
    }
}

/// The split at a known first position.
pub proof fn lemma_split_first_at(s: Seq<u8>, c: u8, i: int)
    requires
        first_at(s, c, i),
    ensures
        split_first(s, c) == Some((s.subrange(0, i), s.subrange(i + 1, s.len() as int))),
{
    let k = choose|k: int| first_at(s, c, k);
    lemma_first_unique(s, c, i, k);
}

/// A longer run of digits is worth at least as much as its prefix.
pub proof fn lemma_hex_value_prefix(s: Seq<u8>, i: int)
    requires
        0 <= i <= s.len(),
        all_hex(s),
    ensures
        hex_value(s) >= hex_value(s.subrange(0, i)),
    decreases s.len(),
{
    if i == s.len() {
        assert(s.subrange(0, i) =~= s);
    } else {
        let t = s.drop_last();
        assert(all_hex(t)) by {
            assert forall|k: int| 0 <= k < t.len() implies digit_value(#[trigger] t[k]) >= 0 by {
                assert(t[k] == s[k]);
            }
        }
        lemma_hex_value_prefix(t, i);
        assert(t.subrange(0, i) =~= s.subrange(0, i));
    }
}

/// The value of one more digit.
pub proof fn lemma_hex_value_step(s: Seq<u8>, i: int)
    requires
        0 <= i < s.len(),
    ensures
        hex_value(s.subrange(0, i + 1)) == hex_value(s.subrange(0, i)) * 16 + digit_value(
            s[i],
        ) as nat,
{
    let t = s.subrange(0, i + 1);
    assert(t.drop_last() =~= s.subrange(0, i));
}

/// The checksum of one more byte.
pub proof fn lemma_checksum_step(s: Seq<u8>, i: int)
    requires
        0 <= i < s.len(),
    ensures
        checksum(s.subrange(0, i + 1)) == (checksum(s.subrange(0, i)) + s[i]) % 256,
{
    let t = s.subrange(0, i + 1);
    assert(t.drop_last() =~= s.subrange(0, i));
}

/// The digit for `n`, below 16.
pub fn hex_digit_of(n: u8) -> (r: u8)
    requires
        n < 16,
    ensures
        r == hex_digit(n as int),
{
    if n < 10 {
        48 + n
    } else {
        87 + n
    }
}

/// The value of a hexadecimal digit, if `c` is one.
pub fn digit_of(c: u8) -> (r: Option<u8>)
    ensures
        match r {
            Some(d) => digit_value(c) == d as int && d < 16,
            None => digit_value(c) < 0,
        },
{
    if 48 <= c && c <= 57 {
        Some(c - 48)
    } else if 97 <= c && c <= 102 {
        Some(c - 87)
    } else if 65 <= c && c <= 70 {
        Some(c - 55)
    } else {
        None
    }
}

/// Appends `b` as two lower-case hexadecimal digits.
pub fn push_hex_byte(out: &mut Vec<u8>, b: u8)
    ensures
        final(out)@ == old(out)@ + hex_byte(b),
{
    out.push(hex_digit_of(b / 16));
    out.push(hex_digit_of(b % 16));
    assert(final(out)@ =~= old(out)@ + hex_byte(b));
}

/// Appends each byte of `bytes` as two lower-case hexadecimal digits.
pub fn push_hex_bytes(out: &mut Vec<u8>, bytes: &[u8])
    ensures
        final(out)@ == old(out)@ + hex_encode(bytes@),
{
    let ghost start = out@;
    let mut i: usize = 0;
    while i < bytes.len()
        invariant
            0 <= i <= bytes.len(),
            out@ == start + hex_encode(bytes@.subrange(0, i as int)),
        decreases bytes.len() - i,
    {
        proof {
            let t = bytes@.subrange(0, i as int + 1);
            assert(t.drop_last() =~= bytes@.subrange(0, i as int));
        }
        push_hex_byte(out, bytes[i]);
        assert(out@ =~= start + hex_encode(bytes@.subrange(0, i as int + 1)));
        i = i + 1;
    }
    assert(bytes@.subrange(0, i as int) =~= bytes@);
}

/// The bytes of `bytes` in hexadecimal, two digits each.
pub fn hex_encode_bytes(bytes: &[u8]) -> (r: Vec<u8>)
    ensures
        r@ == hex_encode(bytes@),
{
    let mut out: Vec<u8> = Vec::new();
    push_hex_bytes(&mut out, bytes);
    assert(out@ =~= hex_encode(bytes@));
    out
}

/// The four bytes of `v`, least significant first.
pub fn u32_le_bytes(v: u32) -> (r: [u8; 4])
    ensures
        r@ == le_bytes(v),
{
    let r = [(v % 256) as u8, (v / 256 % 256) as u8, (v / 65536 % 256) as u8, (v / 16777216 % 256) as u8];
    assert(r@ =~= le_bytes(v));
    r
}

/// Appends a register value as GDB shows it: its memory bytes, least
/// significant first, in hexadecimal.
pub fn push_hex_u32_le(out: &mut Vec<u8>, v: u32)
    ensures
        final(out)@ == old(out)@ + hex_encode(le_bytes(v)),
{
    let b = u32_le_bytes(v);
    push_hex_bytes(out, &b);
}

/// Appends `n` in lower-case hexadecimal without leading zeros.
pub fn push_hex_min(out: &mut Vec<u8>, n: u64)
    ensures
        final(out)@ == old(out)@ + hex_min(n as nat),
    decreases n,
{
    if n < 16 {
        out.push(hex_digit_of(n as u8));
        assert(final(out)@ =~= old(out)@ + hex_min(n as nat));
    } else {
        push_hex_min(out, n / 16);
        out.push(hex_digit_of((n % 16) as u8));
        assert(final(out)@ =~= old(out)@ + hex_min(n as nat));
    }
}

/// Parses `s` as `from_str_radix(s, 16)` does for an unsigned type whose
/// largest value is `max`.
pub fn parse_radix16(s: &[u8], max: u64) -> (r: Option<u64>)
    ensures
        match radix16(s@, max as nat) {
            Some(v) => r == Some(v as u64),
            None => r is None,
        },
{
    let start: usize = if s.len() > 0 && s[0] == 43 {
        1
    } else {
        0
    };
    let ghost d = if s@.len() > 0 && s@[0] == 43 {
        s@.drop_first()
    } else {
        s@
    };
    assert(d =~= s@.subrange(start as int, s@.len() as int));
    assert(radix16(s@, max as nat) == (if d.len() > 0 && all_hex(d) && hex_value(d) <= max {
        Some(hex_value(d))
    } else {
        None::<nat>
    }));
    if start == s.len() {
        return None;
    }
    let mut value: u64 = 0;
    let mut i: usize = start;
    while i < s.len()
        invariant
            start <= i <= s.len(),
            d == s@.subrange(start as int, s@.len() as int),
            radix16(s@, max as nat) == (if d.len() > 0 && all_hex(d) && hex_value(d) <= max {
                Some(hex_value(d))
            } else {
                None::<nat>
            }),
            all_hex(s@.subrange(start as int, i as int)),
            value as nat == hex_value(s@.subrange(start as int, i as int)),
            value <= max,
        decreases s.len() - i,
    {
        let k = i - start;
        let digit = match digit_of(s[i]) {
            Some(v) => v,
            None => {
                assert(d[k as int] == s@[i as int]);
                assert(digit_value(d[k as int]) < 0);
                assert(!all_hex(d));
                return None;
            },
        };
        proof {
            assert(d.subrange(0, k as int) =~= s@.subrange(start as int, i as int));
            assert(d.subrange(0, k as int + 1) =~= s@.subrange(start as int, i as int + 1));
            lemma_hex_value_step(d, k as int);
        }
        let wide: u128 = value as u128 * 16 + digit as u128;
        if wide > max as u128 {
            proof {
                assert(hex_value(d.subrange(0, k as int + 1)) == wide);
                if all_hex(d) {
                    lemma_hex_value_prefix(d, k as int + 1);
                }
            }
            return None;
        }
        value = wide as u64;
        proof {
            assert forall|j: int| 0 <= j < i + 1 - start implies digit_value(
                #[trigger] s@.subrange(start as int, i as int + 1)[j],
            ) >= 0 by {
                if j < i - start {
                    assert(s@.subrange(start as int, i as int + 1)[j] == s@.subrange(
                        start as int,
                        i as int,
                    )[j]);
                }
            }
        }
        i = i + 1;
    }
    assert(d =~= s@.subrange(start as int, i as int));
    Some(value)
}

/// The first position of `c` in `s`.
pub fn find_byte(s: &[u8], c: u8) -> (r: Option<usize>)
    ensures
        match r {
            Some(i) => first_at(s@, c, i as int),
            None => forall|j: int| 0 <= j < s@.len() ==> s@[j] != c,
        },
{
    let mut i: usize = 0;
    while i < s.len()
        invariant
            0 <= i <= s.len(),
            forall|j: int| 0 <= j < i ==> s@[j] != c,
        decreases s.len() - i,
    {
        if s[i] == c {
            return Some(i);
        }
        i = i + 1;
    }
    None
}

/// `s` cut at its first `c`, which is dropped.
pub fn split_once(s: &[u8], c: u8) -> (r: Option<(&[u8], &[u8])>)
    ensures
        match split_first(s@, c) {
            Some((a, b)) => r matches Some((x, y)) && x@ == a && y@ == b,
            None => r is None,
        },
{
    match find_byte(s, c) {
        Some(i) => {
            proof {
                lemma_split_first_at(s@, c, i as int);
            }
            assert(i < s.len());
            Some(
                (
                    vstd::slice::slice_subrange(s, 0, i),
                    vstd::slice::slice_subrange(s, i + 1, s.len()),
                ),
            )
        },
        None => {
            assert(!exists|i: int| first_at(s@, c, i));
            None
        },
    }
}

/// `s` without its first `n` bytes.
pub fn tail(s: &[u8], n: usize) -> (r: &[u8])
    requires
        n <= s@.len(),
    ensures
        r@ == after(s@, n as int),
{
    vstd::slice::slice_subrange(s, n, s.len())
}

/// Whether `s` begins with `prefix`.
pub fn has_prefix(s: &[u8], prefix: &[u8]) -> (r: bool)
    ensures
        r == starts_with(s@, prefix@),
{
    if prefix.len() > s.len() {
        return false;
    }
    let mut i: usize = 0;
    while i < prefix.len()
        invariant
            prefix.len() <= s.len(),
            0 <= i <= prefix.len(),
            forall|k: int| 0 <= k < i ==> s@[k] == prefix@[k],
        decreases prefix.len() - i,
    {
        if s[i] != prefix[i] {
            assert(s@.subrange(0, prefix@.len() as int)[i as int] != prefix@[i as int]);
            return false;
        }
        i = i + 1;
    }
    assert(s@.subrange(0, prefix@.len() as int) =~= prefix@);
    true
}

/// The modulo-256 sum of the bytes of `s`.
pub fn checksum_of(s: &[u8]) -> (r: u8)
    ensures
        r == checksum(s@),
{
    let mut sum: u8 = 0;
    let mut i: usize = 0;
    while i < s.len()
        invariant
            0 <= i <= s.len(),
            sum == checksum(s@.subrange(0, i as int)),
        decreases s.len() - i,
    {
        proof {
            lemma_checksum_step(s@, i as int);
        }
        sum = sum.wrapping_add(s[i]);
        i = i + 1;
    }
    assert(s@.subrange(0, i as int) =~= s@);
    sum
}

/// `body` framed for sending.
pub fn frame_packet(body: &[u8]) -> (r: Vec<u8>)
    ensures
        r@ == frame(body@),
{
    let mut out: Vec<u8> = Vec::new();
    out.push(36);
    let mut i: usize = 0;
    while i < body.len()
        invariant
            0 <= i <= body.len(),
            out@ == seq![36u8] + body@.subrange(0, i as int),
        decreases body.len() - i,
    {
        out.push(body[i]);
        assert(out@ =~= seq![36u8] + body@.subrange(0, i as int + 1));
        i = i + 1;
    }
    assert(body@.subrange(0, i as int) =~= body@);
    out.push(35);
    push_hex_byte(&mut out, checksum_of(body));
    assert(out@ =~= frame(body@));
    out
}

/// Why bytes received from the debugger cannot be taken as a packet.
#[derive(Clone, Copy, PartialEq, Eq, Debug)]
pub enum PacketError {
    /// Neither an acknowledgment nor the `$` that starts a packet.
    NotAPacket,
    /// A whole buffer without the `#` that ends a packet body.
    Overlong,
    /// The two bytes after `#` are not a hexadecimal number.
    BadChecksumDigits,
    /// The checksum does not match the body.
    ChecksumMismatch,
    /// The body is not UTF-8.
    NotUtf8,
}

/// What the front of the receive buffer holds.
#[derive(Clone, PartialEq, Eq, Debug)]
pub enum Scanned {
    /// Nothing to take yet: the buffer is empty or holds only the start of
    /// a packet.
    Pending,
    /// A one-byte acknowledgment, to be consumed.
    Ack,
    /// A whole packet, `consumed` bytes of the buffer, with its body.
    Packet { body: Vec<u8>, consumed: usize },
    /// Bytes that break the protocol.
    Malformed(PacketError),
}

/// [Scanned] as the contracts speak of it.
pub ghost enum ScanView {
    Pending,
    Ack,
    Packet(Seq<u8>, int),
    Malformed(PacketError),
}

impl View for Scanned {
    type V = ScanView;

    open spec fn view(&self) -> ScanView {
        match self {
            Scanned::Pending => ScanView::Pending,
            Scanned::Ack => ScanView::Ack,
            Scanned::Packet { body, consumed } => ScanView::Packet(body@, *consumed as int),
            Scanned::Malformed(e) => ScanView::Malformed(*e),
        }
    }
}

/// What a buffer of received bytes, read through a buffer of `capacity`
/// bytes, holds at its front: an acknowledgment `+`, or a packet `$`,
/// body, `#` and two hexadecimal checksum digits, whose checksum must
/// match and whose body must be UTF-8. A buffer that fills its capacity
/// without a `#` is malformed; one that is only short is pending.
pub open spec fn scan(buf: Seq<u8>, capacity: nat) -> ScanView {
    if buf.len() == 0 {
        ScanView::Pending
    } else if buf[0] == 43 {
        ScanView::Ack
    } else if buf[0] != 36 {
        ScanView::Malformed(PacketError::NotAPacket)
    } else if !exists|e: int| first_at(buf, 35, e) {
        if buf.len() == capacity {
            ScanView::Malformed(PacketError::Overlong)
        } else {
            ScanView::Pending
        }
    } else {
        let e = choose|e: int| first_at(buf, 35, e);
        let body = buf.subrange(1, e);
        if e + 3 > buf.len() {
            ScanView::Pending
        } else {
            match radix16(buf.subrange(e + 1, e + 3), 255) {
                None => ScanView::Malformed(PacketError::BadChecksumDigits),
                Some(c) => if c != checksum(body) {
                    ScanView::Malformed(PacketError::ChecksumMismatch)
                } else if !vstd::utf8::valid_utf8(body) {
                    ScanView::Malformed(PacketError::NotUtf8)
                } else {
                    ScanView::Packet(body, e + 3)
                },
            }
        }
    }
}

/// Whether `bytes` are UTF-8, by `std::str::from_utf8`, which is claimed
/// to accept exactly the byte strings that vstd's `valid_utf8` describes.
#[verifier::external_body]
pub(crate) fn is_utf8(bytes: &[u8]) -> (r: bool)
    ensures
        r == vstd::utf8::valid_utf8(bytes@),
{
    std::str::from_utf8(bytes).is_ok()
}

/// Takes stock of the front of the receive buffer `buf`, read through a
/// buffer of `capacity` bytes.
pub fn scan_packet(buf: &[u8], capacity: usize) -> (r: Scanned)
    ensures
        r@ == scan(buf@, capacity as nat),
{
    if buf.len() == 0 {
        return Scanned::Pending;
    }
    if buf[0] == 43 {
        return Scanned::Ack;
    }
    if buf[0] != 36 {
        return Scanned::Malformed(PacketError::NotAPacket);
    }
    let end = match find_byte(buf, 35) {
        Some(e) => e,
        None => {
            assert(!exists|e: int| first_at(buf@, 35, e));
            if buf.len() == capacity {
                return Scanned::Malformed(PacketError::Overlong);
            }
            return Scanned::Pending;
        },
    };
    proof {
        let k = choose|e: int| first_at(buf@, 35, e);
        lemma_first_unique(buf@, 35, end as int, k);
    }
    assert(end >= 1);
    if buf.len() < 3 || end > buf.len() - 3 {
        return Scanned::Pending;
    }
    let digits = vstd::slice::slice_subrange(buf, end + 1, end + 3);
    let body = vstd::slice::slice_subrange(buf, 1, end);
    let claimed = match parse_radix16(digits, 255) {
        Some(c) => c,
        None => {
            return Scanned::Malformed(PacketError::BadChecksumDigits);
        },
    };
    if claimed != checksum_of(body) as u64 {
        return Scanned::Malformed(PacketError::ChecksumMismatch);
    }
    if !is_utf8(body) {
        return Scanned::Malformed(PacketError::NotUtf8);
    }
    Scanned::Packet { body: vstd::slice::slice_to_vec(body), consumed: end + 3 }
}

/// The digit for `n` reads back as `n`.
pub proof fn lemma_digit_round_trip(n: int)
    requires
        0 <= n < 16,
    ensures
        digit_value(hex_digit(n)) == n,
{
}

/// Two hexadecimal digits of a byte read back as the byte.
pub proof fn lemma_hex_byte_round_trip(b: u8)
    ensures
        radix16(hex_byte(b), 255) == Some(b as nat),
{
    let s = hex_byte(b);
    lemma_digit_round_trip(b as int / 16);
    lemma_digit_round_trip(b as int % 16);
    let t = s.drop_last();
    assert(t.drop_last() =~= Seq::<u8>::empty());
    assert(t.last() == hex_digit(b as int / 16));
    assert(hex_value(t) == hex_value(t.drop_last()) * 16 + digit_value(t.last()) as nat);
    assert(hex_value(t) == b as int / 16);
    assert(all_hex(s)) by {
        assert forall|i: int| 0 <= i < s.len() implies digit_value(#[trigger] s[i]) >= 0 by {
            if i == 0 {
                assert(s[i] == hex_digit(b as int / 16));
            } else {
                assert(s[i] == hex_digit(b as int % 16));
            }
        }
    }
}

/// A framed packet is read back whole, whatever follows it in the buffer:
/// the body comes back, and the frame's length is consumed.
pub proof fn law_frame_then_scan(body: Seq<u8>, rest: Seq<u8>, capacity: nat)
    requires
        forall|i: int| 0 <= i < body.len() ==> body[i] != 35,
        vstd::utf8::valid_utf8(body),
    ensures
        scan(frame(body) + rest, capacity) == ScanView::Packet(body, body.len() as int + 4),
{
    let buf = frame(body) + rest;
    let e: int = body.len() as int + 1;
    assert(buf[0] == 36);
    assert(first_at(buf, 35, e)) by {
        assert(buf[e] == 35);
        assert forall|j: int| 0 <= j < e implies buf[j] != 35 by {
            if j > 0 {
                assert(buf[j] == body[j - 1]);
            }
        }
    }
    let k = choose|k: int| first_at(buf, 35, k);
    lemma_first_unique(buf, 35, e, k);
    assert(buf.subrange(1, e) =~= body);
    assert(buf.subrange(e + 1, e + 3) =~= hex_byte(checksum(body)));
    lemma_hex_byte_round_trip(checksum(body));
}

} // verus!
