//! Minimal MPEG-4 / QuickTime container demuxer for `MPMoviePlayerController`.
//!
//! Extracts the video track's sample table plus the H.264 SPS/PPS records from
//! the `avcC` sample entry, so an in-process decoder can render the movie.
//! Box types are handled as big-endian four-character codes.
use vstd::prelude::*;

verus! {

/// `moov`
pub const BOX_MOOV: u32 = 0x6d6f_6f76;
/// `mvhd`
pub const BOX_MVHD: u32 = 0x6d76_6864;
/// `trak`
pub const BOX_TRAK: u32 = 0x7472_616b;
/// `mdia`
pub const BOX_MDIA: u32 = 0x6d64_6961;
/// `hdlr`
pub const BOX_HDLR: u32 = 0x6864_6c72;
/// `mdhd`
pub const BOX_MDHD: u32 = 0x6d64_6864;
/// `minf`
pub const BOX_MINF: u32 = 0x6d69_6e66;
/// `stbl`
pub const BOX_STBL: u32 = 0x7374_626c;
/// `stsd`
pub const BOX_STSD: u32 = 0x7374_7364;
/// `stsz`
pub const BOX_STSZ: u32 = 0x7374_737a;
/// `stsc`
pub const BOX_STSC: u32 = 0x7374_7363;
/// `stco`
pub const BOX_STCO: u32 = 0x7374_636f;
/// `co64`
pub const BOX_CO64: u32 = 0x636f_3634;
/// `stts`
pub const BOX_STTS: u32 = 0x7374_7473;
/// `avcC`
pub const BOX_AVCC: u32 = 0x6176_6343;
/// `avc1`
pub const FORMAT_AVC1: u32 = 0x6176_6331;
/// `avc3`
pub const FORMAT_AVC3: u32 = 0x6176_6333;
/// `vide`
pub const HANDLER_VIDE: u32 = 0x7669_6465;

/// One coded video sample.
#[derive(Debug, Clone)]
pub struct Sample {
    /// Absolute byte offset of the sample inside the movie file.
    pub offset: u64,
    pub size: u32,
    /// Duration in `timescale` units.
    pub duration: u32,
}

/// The big-endian 16-bit value at `o`.
pub open spec fn be16(d: Seq<u8>, o: int) -> int {
    d[o] * 256 + d[o + 1]
}

/// The big-endian 32-bit value at `o`.
pub open spec fn be32(d: Seq<u8>, o: int) -> int {
    d[o] * 0x100_0000 + d[o + 1] * 0x1_0000 + d[o + 2] * 0x100 + d[o + 3]
}

/// The big-endian 64-bit value at `o`.
pub open spec fn be64(d: Seq<u8>, o: int) -> int {
    be32(d, o) * 0x1_0000_0000 + be32(d, o + 4)
}

/// The big-endian `u32` at `off`, where four bytes are there.
pub open spec fn u32_at(d: Seq<u8>, off: int) -> Option<u32> {
    if 0 <= off && off + 4 <= d.len() {
        Some(be32(d, off) as u32)
    } else {
        None
    }
}

/// The big-endian `u64` at `off`, where eight bytes are there.
pub open spec fn u64_at(d: Seq<u8>, off: int) -> Option<u64> {
    if 0 <= off && off + 8 <= d.len() {
        Some(be64(d, off) as u64)
    } else {
        None
    }
}

/// Reads a big-endian `u32`.
pub fn read_u32(data: &[u8], off: usize) -> (r: Option<u32>)
    ensures
        r == u32_at(data@, off as int),
{
    if off > data.len() || data.len() - off < 4 {
        return None;
    }
    Some((data[off] as u32) * 0x100_0000 + (data[off + 1] as u32) * 0x1_0000 + (data[off + 2] as u32)
        * 0x100 + data[off + 3] as u32)
}

/// Reads a big-endian `u64`.
pub fn read_u64(data: &[u8], off: usize) -> (r: Option<u64>)
    ensures
        r == u64_at(data@, off as int),
{
    if off > data.len() || data.len() - off < 8 {
        return None;
    }
    let high = match read_u32(data, off) {
        Some(h) => h,
        None => {
            return None;
        },
    };
    let low = match read_u32(data, off + 4) {
        Some(l) => l,
        None => {
            return None;
        },
    };
    Some((high as u64) * 0x1_0000_0000 + low as u64)
}

/// `x - y`, or 0 where that is negative.
pub open spec fn sat_sub(x: int, y: int) -> int {
    if x >= y {
        x - y
    } else {
        0
    }
}

/// The header of the box at `pos` inside a scope ending at `end`: its size
/// field, the header length and the payload length, or `None` where the
/// header cannot be read. A size of 1 means a 64-bit size follows; a size of
/// 0 means the box runs to the end of the scope.
pub open spec fn box_header(data: Seq<u8>, pos: int, end: int) -> Option<(int, int, int)> {
    if pos < 0 || pos + 8 > data.len() {
        None
    } else {
        let size = be32(data, pos);
        if size == 1 {
            if pos + 16 > data.len() {
                None
            } else {
                Some((1, 16, sat_sub((be64(data, pos + 8) as u64 as usize) as int, 16)))
            }
        } else if size == 0 {
            Some((0, 8, end - pos - 8))
        } else {
            Some((size, 8, sat_sub(size, 8)))
        }
    }
}

/// The payload `(start, end)` of the first box of type `kind` among the
/// boxes from `pos` on inside a scope ending at `end`, or `None` where the
/// scan meets an unreadable header, a box of that type running past the
/// scope, or an open-ended box of another type first.
pub open spec fn box_find(data: Seq<u8>, pos: int, end: int, kind: u32) -> Option<(int, int)>
    decreases end - pos,
{
    if pos + 8 > end {
        None
    } else {
        match box_header(data, pos, end) {
            None => None,
            Some((size, header, payload)) => {
                if be32(data, pos + 4) == kind {
                    if pos + header + payload <= end {
                        Some((pos + header, pos + header + payload))
                    } else {
                        None
                    }
                } else if size == 0 || pos + header + payload > end {
                    None
                } else {
                    proof {
                        assert(header >= 8 && payload >= 0);
                    }
                    box_find(data, pos + header + payload, end, kind)
                }
            },
        }
    }
}

/// The box header at `pos`: size field, header length and payload length.
fn read_box_header(data: &[u8], pos: usize, end: usize) -> (r: Option<(u32, usize, usize)>)
    requires
        pos + 8 <= end,
    ensures
        match r {
            Some((size, header, payload)) => box_header(data@, pos as int, end as int) == Some(
                (size as int, header as int, payload as int),
            ),
            None => box_header(data@, pos as int, end as int) is None,
        },
{
    let size = match read_u32(data, pos) {
        Some(s) => s,
        None => {
            return None;
        },
    };
    if data.len() - pos < 8 {
        return None;
    }
    if size == 1 {
        let large = match read_u64(data, pos + 8) {
            Some(l) => l,
            None => {
                return None;
            },
        };
        let large = large as usize;
        Some((1, 16, large.saturating_sub(16)))
    } else if size == 0 {
        Some((0, 8, end - pos - 8))
    } else {
        Some((size, 8, (size as usize).saturating_sub(8)))
    }
}

/// Finds the payload `(start, end)` of the first box of type `kind` inside
/// `data[start..end]`.
pub fn find_box(data: &[u8], start: usize, end: usize, kind: u32) -> (r: Option<(usize, usize)>)
    ensures
        match r {
            Some((s, e)) => box_find(data@, start as int, end as int, kind) == Some(
                (s as int, e as int),
            ),
            None => box_find(data@, start as int, end as int, kind) is None,
        },
{
    let mut pos = start;
    while pos <= end && end - pos >= 8
        invariant
            box_find(data@, pos as int, end as int, kind) == box_find(
                data@,
                start as int,
                end as int,
                kind,
            ),
        decreases end - pos,
    {
        let (size, header, payload) = match read_box_header(data, pos, end) {
            Some(h) => h,
            None => {
                return None;
            },
        };
        let box_kind = match read_u32(data, pos + 4) {
            Some(k) => k,
            None => {
                return None;
            },
        };
        if end - pos < header || end - pos - header < payload {
            if box_kind == kind || size == 0 {
                return None;
            }
            // The next box would start past the scope.
            proof {
                let next = pos + header + payload;
                assert(box_find(data@, next, end as int, kind) is None);
            }
            return None;
        }
        let payload_end = pos + header + payload;
        if box_kind == kind {
            return Some((pos + header, payload_end));
        }
        if size == 0 {
            return None;
        }
        pos = payload_end;
    }
    None
}

/// The child boxes from `pos` on inside a scope ending at `end`, as
/// `(type, payload start, payload end)`, up to the first unreadable header
/// or box running past the scope, and up to and including an open-ended box.
pub open spec fn box_list(data: Seq<u8>, pos: int, end: int) -> Seq<(u32, int, int)>
    decreases end - pos,
{
    if pos + 8 > end {
        seq![]
    } else {
        match box_header(data, pos, end) {
            None => seq![],
            Some((size, header, payload)) => {
                if pos + header + payload > end {
                    seq![]
                } else {
                    let item = (be32(data, pos + 4) as u32, pos + header, pos + header + payload);
                    if size == 0 {
                        seq![item]
                    } else {
                        proof {
                            assert(header >= 8 && payload >= 0);
                        }
                        seq![item] + box_list(data, pos + header + payload, end)
                    }
                }
            },
        }
    }
}

/// A listed box with its bounds as integers.
pub open spec fn widen_box(x: (u32, usize, usize)) -> (u32, int, int) {
    (x.0, x.1 as int, x.2 as int)
}

/// Lists the child boxes of `data[start..end]`.
pub fn child_boxes(data: &[u8], start: usize, end: usize) -> (r: Vec<(u32, usize, usize)>)
    ensures
        r@.len() == box_list(data@, start as int, end as int).len(),
        forall|i: int|
            0 <= i < r@.len() ==> widen_box(#[trigger] r@[i]) == box_list(
                data@,
                start as int,
                end as int,
            )[i],
{
    let mut out: Vec<(u32, usize, usize)> = Vec::new();
    let ghost full = box_list(data@, start as int, end as int);
    let ghost mut listed: Seq<(u32, int, int)> = seq![];
    if start > end {
        return out;
    }
    let mut pos = start;
    loop
        invariant
            pos <= end,
            full == box_list(data@, start as int, end as int),
            listed.len() == out@.len(),
            forall|i: int| 0 <= i < out@.len() ==> widen_box(#[trigger] out@[i]) == listed[i],
            full == listed + box_list(data@, pos as int, end as int),
        decreases end - pos,
    {
        if end - pos < 8 {
            assert(full =~= listed);
            return out;
        }
        let (size, header, payload) = match read_box_header(data, pos, end) {
            Some(h) => h,
            None => {
                assert(full =~= listed);
                return out;
            },
        };
        if end - pos < header || end - pos - header < payload {
            assert(full =~= listed);
            return out;
        }
        let box_kind = match read_u32(data, pos + 4) {
            Some(k) => k,
            None => {
                return out;
            },
        };
        let payload_end = pos + header + payload;
        let ghost item = (box_kind, (pos + header) as int, payload_end as int);
        out.push((box_kind, pos + header, payload_end));
        proof {
            assert(widen_box(out@[out@.len() - 1]) == item);
            listed = listed.push(item);
        }
        if size == 0 {
            assert(full =~= listed);
            return out;
        }
        proof {
            assert(box_list(data@, pos as int, end as int) =~= seq![item] + box_list(
                data@,
                payload_end as int,
                end as int,
            ));
            assert(full =~= listed + box_list(data@, payload_end as int, end as int));
        }
        pos = payload_end;
    }
}

/// The Annex-B start code that precedes every NAL unit.
pub open spec fn start_code() -> Seq<u8> {
    seq![0u8, 0u8, 0u8, 1u8]
}

/// Appends `src[start..end]` to `out`.
fn append_range(out: &mut Vec<u8>, src: &[u8], start: usize, end: usize)
    requires
        start <= end <= src@.len(),
    ensures
        final(out)@ == old(out)@ + src@.subrange(start as int, end as int),
{
    let ghost before = out@;
    let mut i = start;
    while i < end
        invariant
            start <= i <= end <= src@.len(),
            out@ == before + src@.subrange(start as int, i as int),
        decreases end - i,
    {
        out.push(src[i]);
        i = i + 1;
        assert(out@ =~= before + src@.subrange(start as int, i as int));
    }
}

/// Appends a start code to `out`.
fn push_start_code(out: &mut Vec<u8>)
    ensures
        final(out)@ == old(out)@ + start_code(),
{
    out.push(0);
    out.push(0);
    out.push(0);
    out.push(1);
    assert(out@ =~= old(out)@ + start_code());
}

/// `n` length-prefixed parameter sets from `pos` on, each turned into a
/// start code and its bytes (a set running past the end is cut there):
/// the Annex-B bytes, the position after them, and whether all `n` were
/// there (a missing length stops the list).
pub open spec fn nal_records(d: Seq<u8>, pos: int, n: int) -> (Seq<u8>, int, bool)
    decreases n,
{
    if n <= 0 {
        (seq![], pos, true)
    } else if pos < 0 || pos + 2 > d.len() {
        (seq![], pos, false)
    } else {
        let e = if pos + 2 + be16(d, pos) < d.len() {
            pos + 2 + be16(d, pos)
        } else {
            d.len() as int
        };
        let rest = nal_records(d, e, n - 1);
        (start_code() + d.subrange(pos + 2, e) + rest.0, rest.1, rest.2)
    }
}

/// Appends `n` length-prefixed parameter sets from `pos` on to `out`.
fn collect_nal_records(data: &[u8], out: &mut Vec<u8>, pos: usize, n: usize) -> (r: (usize, bool))
    requires
        pos <= data@.len(),
    ensures
        final(out)@ == old(out)@ + nal_records(data@, pos as int, n as int).0,
        r.0 as int == nal_records(data@, pos as int, n as int).1,
        r.1 == nal_records(data@, pos as int, n as int).2,
        r.0 <= data@.len(),
{
    let ghost d = data@;
    let ghost before = out@;
    let ghost whole = nal_records(d, pos as int, n as int);
    let ghost mut collected: Seq<u8> = seq![];
    let mut at = pos;
    let mut i: usize = 0;
    while i < n
        invariant
            d == data@,
            whole == nal_records(d, pos as int, n as int),
            before == old(out)@,
            0 <= i <= n,
            at <= data@.len(),
            out@ == before + collected,
            whole.0 == collected + nal_records(d, at as int, (n - i) as int).0,
            whole.1 == nal_records(d, at as int, (n - i) as int).1,
            whole.2 == nal_records(d, at as int, (n - i) as int).2,
        decreases n - i,
    {
        if data.len() - at < 2 {
            assert(nal_records(d, at as int, (n - i) as int) == (Seq::<u8>::empty(), at as int, false));
            assert(whole.0 =~= collected);
            return (at, false);
        }
        let len = (data[at] as usize) * 256 + data[at + 1] as usize;
        let body = at + 2;
        let end = if data.len() - body > len {
            body + len
        } else {
            data.len()
        };
        push_start_code(out);
        append_range(out, data, body, end);
        proof {
            let piece = start_code() + d.subrange(body as int, end as int);
            let rest = nal_records(d, end as int, (n - i - 1) as int);
            assert(nal_records(d, at as int, (n - i) as int) == (piece + rest.0, rest.1, rest.2));
            assert(whole.0 =~= (collected + piece) + rest.0);
            collected = collected + piece;
            assert(out@ =~= before + collected);
        }
        at = end;
        i = i + 1;
    }
    assert(whole.0 =~= collected);
    (at, true)
}

/// What the `avcC` record `d` holds: its parameter sets (SPS, then PPS)
/// as Annex-B bytes and the length of the NAL length prefix in samples, or
/// `None` where the record is too short.
pub open spec fn avcc_parse(d: Seq<u8>) -> Option<(Seq<u8>, int)> {
    if d.len() < 7 {
        None
    } else {
        let nal_length_size = 1 + (d[4] & 3u8);
        let sps = nal_records(d, 6, (d[5] & 0x1fu8) as int);
        if !sps.2 || sps.1 >= d.len() {
            Some((sps.0, nal_length_size))
        } else {
            let pps = nal_records(d, sps.1 + 1, d[sps.1] as int);
            Some((sps.0 + pps.0, nal_length_size))
        }
    }
}

/// Parses the `avcC` (AVCDecoderConfigurationRecord) payload.
pub fn parse_avcc(data: &[u8]) -> (r: Option<(Vec<u8>, usize)>)
    ensures
        match r {
            Some((annexb, n)) => avcc_parse(data@) == Some((annexb@, n as int)),
            None => avcc_parse(data@) is None,
        },
{
    if data.len() < 7 {
        return None;
    }
    let nal_length_size = 1 + (data[4] & 0x03) as usize;
    let num_sps = (data[5] & 0x1f) as usize;
    let mut annexb: Vec<u8> = Vec::new();
    let (pos, complete) = collect_nal_records(data, &mut annexb, 6, num_sps);
    if !complete || pos >= data.len() {
        assert(annexb@ =~= nal_records(data@, 6, num_sps as int).0);
        return Some((annexb, nal_length_size));
    }
    let num_pps = data[pos] as usize;
    let ghost sps = annexb@;
    collect_nal_records(data, &mut annexb, pos + 1, num_pps);
    assert(annexb@ =~= nal_records(data@, 6, num_sps as int).0 + nal_records(
        data@,
        pos + 1,
        num_pps as int,
    ).0);
    Some((annexb, nal_length_size))
}

/// The NAL length read from the `k` bytes at `pos` (shifted in as a `usize`,
/// so only the low bytes of an over-long prefix count).
pub open spec fn nal_length(s: Seq<u8>, pos: int, k: int) -> usize
    decreases k,
{
    if k <= 0 {
        0
    } else {
        (nal_length(s, pos, k - 1) << 8usize) | (s[pos + k - 1] as usize)
    }
}

/// The Annex-B form of the length-prefixed NAL units from `pos` on, up to
/// an empty or truncated unit.
pub open spec fn annexb_units(s: Seq<u8>, n: int, pos: int) -> Seq<u8>
    decreases s.len() - pos,
{
    if pos < 0 || n < 0 || pos + n > s.len() {
        seq![]
    } else {
        let len = nal_length(s, pos, n) as int;
        let p = pos + n;
        if len == 0 || p + len > s.len() {
            seq![]
        } else {
            start_code() + s.subrange(p, p + len) + annexb_units(s, n, p + len)
        }
    }
}

/// The number that big-endian bytes `q` spell.
pub open spec fn be_value(q: Seq<u8>) -> int
    decreases q.len(),
{
    if q.len() == 0 {
        0
    } else {
        be_value(q.drop_last()) * 256 + q.last()
    }
}

/// At most three big-endian bytes spell less than 2^24.
proof fn lemma_be_value_bound(q: Seq<u8>)
    requires
        q.len() <= 3,
    ensures
        0 <= be_value(q),
        q.len() <= 2 ==> be_value(q) < 0x1_0000,
        q.len() <= 1 ==> be_value(q) < 0x100,
        q.len() == 0 ==> be_value(q) == 0,
        be_value(q) < 0x100_0000,
    decreases q.len(),
{
    if q.len() > 0 {
        lemma_be_value_bound(q.drop_last());
    }
}

/// A length field of up to four bytes is read as the number its bytes
/// spell.
proof fn lemma_nal_length_value(s: Seq<u8>, pos: int, k: int)
    requires
        0 <= k <= 4,
        0 <= pos,
        pos + k <= s.len(),
    ensures
        nal_length(s, pos, k) as int == be_value(s.subrange(pos, pos + k)),
    decreases k,
{
    if k > 0 {
        lemma_nal_length_value(s, pos, k - 1);
        let q = s.subrange(pos, pos + k);
        assert(q.drop_last() =~= s.subrange(pos, pos + k - 1));
        lemma_be_value_bound(q.drop_last());
        let v = nal_length(s, pos, k - 1);
        let b = s[pos + k - 1] as usize;
        assert(((v << 8usize) | b) == v * 256 + b) by (bit_vector)
            requires
                v < 0x100_0000,
                b < 0x100,
        ;
    }
}

/// The length field at `pos` depends only on its own bytes.
proof fn lemma_nal_length_shift(pre: Seq<u8>, t: Seq<u8>, j: int, k: int)
    requires
        0 <= j,
        0 <= k,
        j + k <= t.len(),
    ensures
        nal_length(pre + t, pre.len() + j, k) == nal_length(t, j, k),
    decreases k,
{
    if k > 0 {
        lemma_nal_length_shift(pre, t, j, k - 1);
        assert((pre + t)[pre.len() + j + k - 1] == t[j + k - 1]);
    }
}

/// The units from position `j` of `t` convert the same behind any prefix.
proof fn lemma_annexb_shift(pre: Seq<u8>, t: Seq<u8>, n: int, j: int)
    requires
        0 <= j,
    ensures
        annexb_units(pre + t, n, pre.len() + j) == annexb_units(t, n, j),
    decreases t.len() - j,
{
    let s = pre + t;
    let pos = pre.len() + j;
    if n < 0 || j + n > t.len() {
    } else {
        lemma_nal_length_shift(pre, t, j, n);
        let len = nal_length(t, j, n) as int;
        let p = j + n;
        if len == 0 || p + len > t.len() {
        } else {
            assert(s.subrange(pos + n, pos + n + len) =~= t.subrange(p, p + len));
            lemma_annexb_shift(pre, t, n, p + len);
        }
    }
}

/// Converting a sample whose first NAL unit is complete gives a start code
/// and that unit, then the conversion of the rest of the sample: the
/// conversion distributes over the concatenation of complete units. A unit
/// is its length in `n` (1 to 4) big-endian bytes, then that many bytes.
pub proof fn law_annexb_unit_then_rest(n: int, field: Seq<u8>, unit: Seq<u8>, rest: Seq<u8>)
    requires
        1 <= n <= 4,
        field.len() == n,
        be_value(field) == unit.len(),
        unit.len() > 0,
    ensures
        annexb_units(field + unit + rest, n, 0) == seq![0u8, 0u8, 0u8, 1u8] + unit + annexb_units(rest, n, 0),
{
    let s = field + unit + rest;
    lemma_nal_length_value(s, 0, n);
    assert(s.subrange(0, n) =~= field);
    assert(s.subrange(n, n + unit.len()) =~= unit);
    lemma_annexb_shift(field + unit, rest, n, 0);
    assert(field + unit + rest =~= (field + unit) + rest);
}

/// Converts one AVCC sample (NAL units behind `nal_length_size`-byte
/// big-endian lengths) into Annex-B form, appended to `out`.
pub fn avcc_sample_to_annexb(sample: &[u8], nal_length_size: usize, out: &mut Vec<u8>)
    ensures
        final(out)@ == old(out)@ + annexb_units(sample@, nal_length_size as int, 0),
{
    let ghost s = sample@;
    let ghost before = out@;
    let ghost whole = annexb_units(s, nal_length_size as int, 0);
    let ghost mut done: Seq<u8> = seq![];
    let mut pos: usize = 0;
    while pos <= sample.len() && sample.len() - pos >= nal_length_size
        invariant
            s == sample@,
            whole == annexb_units(s, nal_length_size as int, 0),
            before == old(out)@,
            pos <= sample@.len(),
            out@ == before + done,
            whole == done + annexb_units(s, nal_length_size as int, pos as int),
        decreases sample@.len() - pos,
    {
        let mut len: usize = 0;
        let mut i: usize = 0;
        while i < nal_length_size
            invariant
                s == sample@,
                sample@.len() <= usize::MAX,
                pos + nal_length_size <= sample@.len(),
                out@ == before + done,
                whole == done + annexb_units(s, nal_length_size as int, pos as int),
                0 <= i <= nal_length_size,
                len == nal_length(s, pos as int, i as int),
            decreases nal_length_size - i,
        {
            assert(pos + i < sample@.len());
            let byte = sample[pos + i];
            len = (len << 8) | byte as usize;
            i = i + 1;
        }
        let p = pos + nal_length_size;
        if len == 0 || len > sample.len() - p {
            assert(annexb_units(s, nal_length_size as int, pos as int) =~= Seq::<u8>::empty());
            assert(whole =~= done);
            return ;
        }
        push_start_code(out);
        append_range(out, sample, p, p + len);
        proof {
            let piece = start_code() + s.subrange(p as int, p + len);
            assert(annexb_units(s, nal_length_size as int, pos as int) == piece + annexb_units(
                s,
                nal_length_size as int,
                p + len,
            ));
            assert(whole =~= (done + piece) + annexb_units(s, nal_length_size as int, p + len));
            done = done + piece;
            assert(out@ =~= before + done);
        }
        pos = p + len;
    }
    assert(whole =~= done);
}

/// The per-sample durations of the `stts` entries from `pos` on: each
/// entry's delta repeated its count times, up to the first entry that is
/// not all there.
pub open spec fn stts_durations(d: Seq<u8>, pos: int, remaining: int) -> Seq<u32>
    decreases remaining,
{
    if remaining <= 0 || pos < 0 || pos + 8 > d.len() {
        seq![]
    } else {
        Seq::new(be32(d, pos) as nat, |k: int| be32(d, pos + 4) as u32) + stts_durations(
            d,
            pos + 8,
            remaining - 1,
        )
    }
}

/// The per-sample durations that an `stts` payload lists.
pub open spec fn stts_parse(d: Seq<u8>) -> Seq<u32> {
    if d.len() < 8 {
        seq![]
    } else {
        stts_durations(d, 8, be32(d, 4))
    }
}

/// Parses an `stts` payload into a flat list of per-sample durations.
pub fn parse_stts(data: &[u8]) -> (r: Vec<u32>)
    ensures
        r@ == stts_parse(data@),
{
    let mut durations: Vec<u32> = Vec::new();
    if data.len() < 8 {
        return durations;
    }
    let entry_count = match read_u32(data, 4) {
        Some(c) => c,
        None => 0,
    };
    let ghost d = data@;
    let ghost whole = stts_parse(d);
    let mut pos: usize = 8;
    let mut e: u32 = 0;
    while e < entry_count
        invariant
            d == data@,
            d.len() >= 8,
            whole == stts_parse(d),
            entry_count == be32(d, 4),
            0 <= e <= entry_count,
            8 <= pos <= d.len(),
            whole == durations@ + stts_durations(d, pos as int, (entry_count - e) as int),
        decreases entry_count - e,
    {
        if data.len() - pos < 8 {
            assert(stts_durations(d, pos as int, (entry_count - e) as int) =~= Seq::<u32>::empty());
            assert(whole =~= durations@);
            return durations;
        }
        let count = match read_u32(data, pos) {
            Some(c) => c,
            None => 0,
        };
        let delta = match read_u32(data, pos + 4) {
            Some(x) => x,
            None => 0,
        };
        let ghost before = durations@;
        let mut k: u32 = 0;
        while k < count
            invariant
                0 <= k <= count,
                durations@ == before + Seq::new(k as nat, |j: int| delta),
            decreases count - k,
        {
            durations.push(delta);
            k = k + 1;
            assert(durations@ =~= before + Seq::new(k as nat, |j: int| delta));
        }
        proof {
            let run = Seq::new(be32(d, pos as int) as nat, |j: int| be32(d, pos + 4) as u32);
            assert(Seq::new(count as nat, |j: int| delta) =~= run);
            assert(whole =~= (before + run) + stts_durations(
                d,
                pos + 8,
                (entry_count - e - 1) as int,
            ));
        }
        pos = pos + 8;
        e = e + 1;
    }
    assert(stts_durations(d, pos as int, 0) =~= Seq::<u32>::empty());
    assert(whole =~= durations@);
    durations
}

/// How many samples each chunk numbered `chunk_no` (from 1) holds: the
/// entry of the last `stsc` run starting at or before it, or 0.
pub open spec fn samples_per_chunk(stsc: Seq<(u32, u32)>, chunk_no: u32) -> u32
    decreases stsc.len(),
{
    if stsc.len() == 0 {
        0
    } else if stsc.last().0 <= chunk_no {
        stsc.last().1
    } else {
        samples_per_chunk(stsc.drop_last(), chunk_no)
    }
}

/// The samples of one chunk appended to `acc`: up to `k` contiguous
/// samples from `offset` on, taking sizes from the fixed size or the size
/// table and durations from the duration table (0 past its end), and
/// stopping at a missing or zero size.
pub open spec fn chunk_samples(
    acc: Seq<Sample>,
    offset: u64,
    k: int,
    item_size: u32,
    sizes: Seq<u32>,
    durations: Seq<u32>,
) -> Seq<Sample>
    decreases k,
{
    if k <= 0 {
        acc
    } else {
        let index = acc.len() as int;
        let size = if item_size != 0 {
            item_size
        } else if index < sizes.len() {
            sizes[index]
        } else {
            0
        };
        if size == 0 {
            acc
        } else {
            let duration = if index < durations.len() {
                durations[index]
            } else {
                0
            };
            chunk_samples(
                acc.push(Sample { offset, size, duration }),
                offset.wrapping_add(size as u64),
                k - 1,
                item_size,
                sizes,
                durations,
            )
        }
    }
}

/// The samples of the chunks from index `c` on, appended to `acc`.
pub open spec fn table_samples(
    acc: Seq<Sample>,
    chunk_offsets: Seq<u64>,
    c: int,
    stsc: Seq<(u32, u32)>,
    item_size: u32,
    sizes: Seq<u32>,
    durations: Seq<u32>,
) -> Seq<Sample>
    decreases chunk_offsets.len() - c,
{
    if c < 0 || c >= chunk_offsets.len() {
        acc
    } else {
        let spc = samples_per_chunk(stsc, (c + 1) as u32);
        let next = if spc == 0 {
            acc
        } else {
            chunk_samples(acc, chunk_offsets[c], spc as int, item_size, sizes, durations)
        };
        table_samples(next, chunk_offsets, c + 1, stsc, item_size, sizes, durations)
    }
}

/// Looks up how many samples the chunk numbered `chunk_no` holds.
fn lookup_samples_per_chunk(stsc: &[(u32, u32)], chunk_no: u32) -> (r: u32)
    ensures
        r == samples_per_chunk(stsc@, chunk_no),
{
    let mut i = stsc.len();
    assert(stsc@.subrange(0, i as int) =~= stsc@);
    while i > 0
        invariant
            i <= stsc@.len(),
            samples_per_chunk(stsc@, chunk_no) == samples_per_chunk(
                stsc@.subrange(0, i as int),
                chunk_no,
            ),
        decreases i,
    {
        let (first_chunk, spc) = stsc[i - 1];
        assert(stsc@.subrange(0, i as int).drop_last() =~= stsc@.subrange(0, i - 1));
        if first_chunk <= chunk_no {
            return spc;
        }
        i = i - 1;
    }
    0
}

/// Expands the sample table: chunk offsets (`stco`/`co64`), samples per
/// chunk (`stsc`), sample sizes (`stsz`) and per-sample durations
/// (`stts`). Samples within a chunk are contiguous; offsets wrap as `u64`.
pub fn build_samples(
    chunk_offsets: &[u64],
    stsc: &[(u32, u32)],
    stsz_item_size: u32,
    stsz_sizes: &[u32],
    stts_durations: &[u32],
) -> (r: Vec<Sample>)
    ensures
        r@ == table_samples(
            seq![],
            chunk_offsets@,
            0,
            stsc@,
            stsz_item_size,
            stsz_sizes@,
            stts_durations@,
        ),
{
    let ghost whole = table_samples(
        seq![],
        chunk_offsets@,
        0,
        stsc@,
        stsz_item_size,
        stsz_sizes@,
        stts_durations@,
    );
    let mut samples: Vec<Sample> = Vec::new();
    let mut chunk_idx: usize = 0;
    while chunk_idx < chunk_offsets.len()
        invariant
            whole == table_samples(
                samples@,
                chunk_offsets@,
                chunk_idx as int,
                stsc@,
                stsz_item_size,
                stsz_sizes@,
                stts_durations@,
            ),
            chunk_idx <= chunk_offsets@.len(),
        decreases chunk_offsets.len() - chunk_idx,
    {
        let chunk_no = (chunk_idx + 1) as u32;
        let samples_per_chunk = lookup_samples_per_chunk(stsc, chunk_no);
        let ghost before = samples@;
        if samples_per_chunk != 0 {
            let ghost target = chunk_samples(
                samples@,
                chunk_offsets@[chunk_idx as int],
                samples_per_chunk as int,
                stsz_item_size,
                stsz_sizes@,
                stts_durations@,
            );
            let mut offset = chunk_offsets[chunk_idx];
            let mut k: u32 = 0;
            while k < samples_per_chunk
                invariant
                    0 <= k <= samples_per_chunk,
                    target == chunk_samples(
                        samples@,
                        offset,
                        (samples_per_chunk - k) as int,
                        stsz_item_size,
                        stsz_sizes@,
                        stts_durations@,
                    ),
                decreases samples_per_chunk - k,
            {
                let index = samples.len();
                let size = if stsz_item_size != 0 {
                    stsz_item_size
                } else if index < stsz_sizes.len() {
                    stsz_sizes[index]
                } else {
                    0
                };
                if size == 0 {
                    // The chunk ends at a missing or zero size.
                    k = samples_per_chunk;
                } else {
                    let duration = if index < stts_durations.len() {
                        stts_durations[index]
                    } else {
                        0
                    };
                    samples.push(Sample { offset, size, duration });
                    offset = offset.wrapping_add(size as u64);
                    k = k + 1;
                }
            }
        }
        chunk_idx = chunk_idx + 1;
    }
    samples
}

/// The first sample entry from `pos` on (of `remaining` ones) that is an
/// H.264 (`avc1`/`avc3`) entry with a readable `avcC`: its width, height,
/// parameter sets and NAL length size. A malformed entry ends the search.
pub open spec fn stsd_entries(d: Seq<u8>, pos: int, remaining: int) -> Option<
    (u32, u32, Seq<u8>, int),
>
    decreases remaining,
{
    if remaining <= 0 {
        None
    } else if u32_at(d, pos) is None {
        None
    } else {
        let entry_size = be32(d, pos);
        if entry_size < 8 || pos + entry_size > d.len() {
            None
        } else {
            let format = be32(d, pos + 4);
            let next = stsd_entries(d, pos + entry_size, remaining - 1);
            if format == FORMAT_AVC1 || format == FORMAT_AVC3 {
                if entry_size < 8 + 16 + 4 {
                    None
                } else if u32_at(d, pos + 32) is None || u32_at(d, pos + 34) is None {
                    None
                } else {
                    let width = (be32(d, pos + 32) / 0x1_0000) as u32;
                    let height = (be32(d, pos + 34) / 0x1_0000) as u32;
                    let visual = if 70 < entry_size - 16 {
                        70
                    } else {
                        entry_size - 16
                    };
                    match box_find(d, pos + 16 + visual, pos + entry_size, BOX_AVCC) {
                        Some((s, e)) => match avcc_parse(d.subrange(s, e)) {
                            Some((annexb, nal_length_size)) => Some(
                                (width, height, annexb, nal_length_size),
                            ),
                            None => next,
                        },
                        None => next,
                    }
                }
            } else {
                next
            }
        }
    }
}

/// What an `stsd` payload gives: the first usable H.264 entry among its
/// first 16.
pub open spec fn stsd_parse(d: Seq<u8>) -> Option<(u32, u32, Seq<u8>, int)> {
    if d.len() < 8 {
        None
    } else {
        let count = be32(d, 4);
        stsd_entries(d, 8, if count < 16 {
            count
        } else {
            16
        })
    }
}

/// The bytes `s[start..end]` as a slice.
fn sub_slice(s: &[u8], start: usize, end: usize) -> (r: &[u8])
    requires
        start <= end <= s@.len(),
    ensures
        r@ == s@.subrange(start as int, end as int),
{
    vstd::slice::slice_subrange(s, start, end)
}

/// Parses an `stsd` payload: width, height, Annex-B parameter sets and NAL
/// length size of the first `avc1` (or `avc3`) entry.
pub fn parse_stsd(data: &[u8]) -> (r: Option<(u32, u32, Vec<u8>, usize)>)
    ensures
        match r {
            Some((w, h, a, n)) => stsd_parse(data@) == Some((w, h, a@, n as int)),
            None => stsd_parse(data@) is None,
        },
{
    if data.len() < 8 {
        return None;
    }
    let entry_count = match read_u32(data, 4) {
        Some(c) => c,
        None => {
            return None;
        },
    };
    let limit = if entry_count < 16 {
        entry_count
    } else {
        16
    };
    let ghost d = data@;
    let ghost whole = stsd_parse(d);
    let mut pos: usize = 8;
    let mut e: u32 = 0;
    while e < limit
        invariant
            d == data@,
            whole == stsd_parse(d),
            whole == stsd_entries(d, pos as int, (limit - e) as int),
            0 <= e <= limit,
            pos <= d.len(),
        decreases limit - e,
    {
        let entry_size = match read_u32(data, pos) {
            Some(x) => x as usize,
            None => {
                return None;
            },
        };
        if entry_size < 8 || entry_size > data.len() - pos {
            return None;
        }
        let format = match read_u32(data, pos + 4) {
            Some(f) => f,
            None => {
                return None;
            },
        };
        if format == FORMAT_AVC1 || format == FORMAT_AVC3 {
            if entry_size < 8 + 16 + 4 {
                return None;
            }
            if data.len() - pos < 38 {
                return None;
            }
            let width = match read_u32(data, pos + 32) {
                Some(x) => x / 0x1_0000,
                None => {
                    return None;
                },
            };
            let height = match read_u32(data, pos + 34) {
                Some(x) => x / 0x1_0000,
                None => {
                    return None;
                },
            };
            let visual = if 70 < entry_size - 16 {
                70
            } else {
                entry_size - 16
            };
            let children_start = pos + 16 + visual;
            let children_end = pos + entry_size;
            if let Some((s, e2)) = find_box(data, children_start, children_end, BOX_AVCC) {
                proof {
                    lemma_box_find_bounds(d, children_start as int, children_end as int, BOX_AVCC);
                }
                if let Some((annexb, nal_len)) = parse_avcc(sub_slice(data, s, e2)) {
                    return Some((width, height, annexb, nal_len));
                }
            }
        }
        pos = pos + entry_size;
        e = e + 1;
    }
    None
}

/// The payload a box search finds lies within its scope.
proof fn lemma_box_find_bounds(data: Seq<u8>, pos: int, end: int, kind: u32)
    ensures
        box_find(data, pos, end, kind) matches Some((s, e)) ==> pos <= s <= e <= end,
    decreases end - pos,
{
    if pos + 8 > end {
    } else {
        match box_header(data, pos, end) {
            None => {},
            Some((size, header, payload)) => {
                assert(header >= 8 && payload >= 0);
                if be32(data, pos + 4) != kind && size != 0 && pos + header + payload <= end {
                    lemma_box_find_bounds(data, pos + header + payload, end, kind);
                }
            },
        }
    }
}

/// `count` big-endian `u32` entries `stride` bytes apart from `off` on, up
/// to the first that is not all there (every later one lies further out,
/// so none of them is there either).
pub open spec fn u32_table(d: Seq<u8>, off: int, stride: int, count: int) -> Seq<u32>
    decreases count,
{
    if count <= 0 || u32_at(d, off) is None {
        seq![]
    } else {
        seq![u32_at(d, off).unwrap()] + u32_table(d, off + stride, stride, count - 1)
    }
}

/// `count` big-endian `u64` entries 8 bytes apart from `off` on, up to the
/// first that is not all there.
pub open spec fn u64_table(d: Seq<u8>, off: int, count: int) -> Seq<u64>
    decreases count,
{
    if count <= 0 || u64_at(d, off) is None {
        seq![]
    } else {
        seq![u64_at(d, off).unwrap()] + u64_table(d, off + 8, count - 1)
    }
}

/// `count` `stsc` entries (first chunk, samples per chunk) 12 bytes apart
/// from `off` on, up to the first that is not all there.
pub open spec fn stsc_table(d: Seq<u8>, off: int, count: int) -> Seq<(u32, u32)>
    decreases count,
{
    if count <= 0 || u32_at(d, off) is None || u32_at(d, off + 4) is None {
        seq![]
    } else {
        seq![(u32_at(d, off).unwrap(), u32_at(d, off + 4).unwrap())] + stsc_table(
            d,
            off + 12,
            count - 1,
        )
    }
}

/// Reads a table of big-endian `u32` entries.
fn read_u32_table(data: &[u8], off: usize, stride: usize, count: u32) -> (r: Vec<u32>)
    requires
        stride > 0,
    ensures
        r@ == u32_table(data@, off as int, stride as int, count as int),
{
    let ghost whole = u32_table(data@, off as int, stride as int, count as int);
    let mut out: Vec<u32> = Vec::new();
    let mut at = off;
    let mut i: u32 = 0;
    while i < count
        invariant
            stride > 0,
            whole == u32_table(data@, off as int, stride as int, count as int),
            whole == out@ + u32_table(data@, at as int, stride as int, (count - i) as int),
            0 <= i <= count,
        decreases count - i,
    {
        match read_u32(data, at) {
            Some(v) => {
                let ghost before = out@;
                out.push(v);
                assert(whole =~= out@ + u32_table(
                    data@,
                    at + stride,
                    stride as int,
                    (count - i - 1) as int,
                ));
                if at > data.len() || data.len() - at < stride {
                    // Every further entry lies past the end.
                    proof {
                        let rest = u32_table(data@, at + stride, stride as int, (count - i - 1) as int);
                        assert(rest =~= Seq::<u32>::empty());
                    }
                    assert(whole =~= out@);
                    return out;
                }
                at = at + stride;
            },
            None => {
                assert(whole =~= out@);
                return out;
            },
        }
        i = i + 1;
    }
    assert(whole =~= out@);
    out
}

/// Reads a table of big-endian `u64` entries 8 bytes apart.
fn read_u64_table(data: &[u8], off: usize, count: u32) -> (r: Vec<u64>)
    ensures
        r@ == u64_table(data@, off as int, count as int),
{
    let ghost whole = u64_table(data@, off as int, count as int);
    let mut out: Vec<u64> = Vec::new();
    let mut at = off;
    let mut i: u32 = 0;
    while i < count
        invariant
            whole == u64_table(data@, off as int, count as int),
            whole == out@ + u64_table(data@, at as int, (count - i) as int),
            0 <= i <= count,
        decreases count - i,
    {
        match read_u64(data, at) {
            Some(v) => {
                out.push(v);
                assert(whole =~= out@ + u64_table(data@, at + 8, (count - i - 1) as int));
                if data.len() - at < 16 {
                    proof {
                        let rest = u64_table(data@, at + 8, (count - i - 1) as int);
                        assert(rest =~= Seq::<u64>::empty());
                    }
                    assert(whole =~= out@);
                    return out;
                }
                at = at + 8;
            },
            None => {
                assert(whole =~= out@);
                return out;
            },
        }
        i = i + 1;
    }
    assert(whole =~= out@);
    out
}

/// Reads the `stsc` entries.
fn read_stsc_table(data: &[u8], off: usize, count: u32) -> (r: Vec<(u32, u32)>)
    ensures
        r@ == stsc_table(data@, off as int, count as int),
{
    let ghost whole = stsc_table(data@, off as int, count as int);
    let mut out: Vec<(u32, u32)> = Vec::new();
    let mut at = off;
    let mut i: u32 = 0;
    while i < count
        invariant
            whole == stsc_table(data@, off as int, count as int),
            whole == out@ + stsc_table(data@, at as int, (count - i) as int),
            0 <= i <= count,
        decreases count - i,
    {
        if at > data.len() || data.len() - at < 8 {
            assert(whole =~= out@);
            return out;
        }
        let first = read_u32(data, at);
        let spc = read_u32(data, at + 4);
        match (first, spc) {
            (Some(f), Some(n)) => {
                out.push((f, n));
                assert(whole =~= out@ + stsc_table(data@, at + 12, (count - i - 1) as int));
                if data.len() - at < 20 {
                    proof {
                        let rest = stsc_table(data@, at + 12, (count - i - 1) as int);
                        assert(rest =~= Seq::<(u32, u32)>::empty());
                    }
                    assert(whole =~= out@);
                    return out;
                }
                at = at + 12;
            },
            _ => {
                assert(whole =~= out@);
                return out;
            },
        }
        i = i + 1;
    }
    assert(whole =~= out@);
    out
}

/// The timescale and duration a `mvhd` or `mdhd` payload gives, by its
/// version.
pub open spec fn header_times(p: Seq<u8>) -> Option<(u32, u64)> {
    if p.len() == 0 {
        None
    } else if p[0] == 1 && p.len() >= 28 {
        // The 64-bit duration needs 32 bytes.
        if p.len() >= 32 {
            Some((be32(p, 20) as u32, be64(p, 24) as u64))
        } else {
            None
        }
    } else if p[0] == 0 && p.len() >= 20 {
        Some((be32(p, 12) as u32, be32(p, 16) as u64))
    } else {
        None
    }
}

/// Reads the timescale and duration of a `mvhd` or `mdhd` payload.
fn read_header_times(p: &[u8]) -> (r: Option<(u32, u64)>)
    ensures
        r == header_times(p@),
{
    if p.len() == 0 {
        return None;
    }
    let version = p[0];
    if version == 1 && p.len() >= 28 {
        let timescale = match read_u32(p, 20) {
            Some(t) => t,
            None => {
                return None;
            },
        };
        let duration = match read_u64(p, 24) {
            Some(d) => d,
            None => {
                return None;
            },
        };
        Some((timescale, duration))
    } else if version == 0 && p.len() >= 20 {
        let timescale = match read_u32(p, 12) {
            Some(t) => t,
            None => {
                return None;
            },
        };
        let duration = match read_u32(p, 16) {
            Some(d) => d,
            None => {
                return None;
            },
        };
        Some((timescale, duration as u64))
    } else {
        None
    }
}

/// The sum of `s`, wrapping as a `u32`.
pub open spec fn wrapping_total(s: Seq<u32>) -> u32
    decreases s.len(),
{
    if s.len() == 0 {
        0
    } else {
        wrapping_total(s.drop_last()).wrapping_add(s.last())
    }
}

/// Sums per-sample durations, wrapping as a `u32`.
fn total_duration(s: &[u32]) -> (r: u32)
    ensures
        r == wrapping_total(s@),
{
    let mut total: u32 = 0;
    let mut i: usize = 0;
    while i < s.len()
        invariant
            0 <= i <= s@.len(),
            total == wrapping_total(s@.subrange(0, i as int)),
        decreases s.len() - i,
    {
        assert(s@.subrange(0, i + 1).drop_last() =~= s@.subrange(0, i as int));
        total = total.wrapping_add(s[i]);
        i = i + 1;
    }
    assert(s@.subrange(0, s@.len() as int) =~= s@);
    total
}

/// A video track's decoding parameters and sample table, as a value.
pub ghost struct TrackView {
    pub width: u32,
    pub height: u32,
    pub timescale: u32,
    pub duration: u64,
    pub parameter_sets_annexb: Seq<u8>,
    pub nal_length_size: int,
    pub samples: Seq<Sample>,
}

/// The first H.264 video track of a movie file.
pub struct DemuxedVideoTrack {
    pub width: u32,
    pub height: u32,
    pub timescale: u32,
    /// Movie/track duration in `timescale` units (mvhd, then mdhd, then the
    /// sum of the sample durations).
    pub duration: u64,
    /// SPS/PPS NALs in Annex-B form (`00 00 00 01`-prefixed), from `avcC`.
    pub parameter_sets_annexb: Vec<u8>,
    /// Bytes used for NAL length prefixes inside samples (1 to 4).
    pub nal_length_size: usize,
    /// Video samples in decoding order.
    pub samples: Vec<Sample>,
}

impl DemuxedVideoTrack {
    /// The track as a value.
    pub open spec fn view_track(&self) -> TrackView {
        TrackView {
            width: self.width,
            height: self.height,
            timescale: self.timescale,
            duration: self.duration,
            parameter_sets_annexb: self.parameter_sets_annexb@,
            nal_length_size: self.nal_length_size as int,
            samples: self.samples@,
        }
    }
}

/// `o`'s value, or `d`.
pub open spec fn or_u32(o: Option<u32>, d: u32) -> u32 {
    match o {
        Some(v) => v,
        None => d,
    }
}

/// The payload of the first box of type `kind` inside `b[s..e]`.
pub open spec fn payload_of(b: Seq<u8>, s: int, e: int, kind: u32) -> Option<Seq<u8>> {
    match box_find(b, s, e, kind) {
        Some((x, y)) => Some(b.subrange(x, y)),
        None => None,
    }
}

/// The sizes an `stsz` payload gives: its fixed size and its size table.
pub open spec fn stsz_parse(p: Option<Seq<u8>>) -> (u32, Seq<u32>) {
    match p {
        Some(p) => (or_u32(u32_at(p, 4), 0), u32_table(p, 12, 4, or_u32(u32_at(p, 8), 0) as int)),
        None => (0, seq![]),
    }
}

/// The chunk offsets that `stco` (or else `co64`) gives.
pub open spec fn chunk_offsets_parse(stco: Option<Seq<u8>>, co64: Option<Seq<u8>>) -> Seq<u64> {
    match stco {
        Some(p) => u32_table(p, 8, 4, or_u32(u32_at(p, 4), 0) as int).map_values(
            |v: u32| v as u64,
        ),
        None => match co64 {
            Some(p) => u64_table(p, 8, or_u32(u32_at(p, 4), 0) as int),
            None => seq![],
        },
    }
}

/// The track that the `trak` box payload `b[s..e]` describes, where it is a
/// video track with a usable H.264 sample description; `movie` is the
/// movie's timescale and duration.
#[verifier::opaque]
pub open spec fn trak_track(b: Seq<u8>, s: int, e: int, movie: Option<(u32, u64)>) -> Option<
    TrackView,
> {
    match box_find(b, s, e, BOX_MDIA) {
        None => None,
        Some((ms, me)) => {
            let is_video = match box_find(b, ms, me, BOX_HDLR) {
                Some((hs, he)) => hs + 12 <= b.len() && be32(b, hs + 8) == HANDLER_VIDE,
                None => false,
            };
            let track_times = match payload_of(b, ms, me, BOX_MDHD) {
                Some(p) => header_times(p),
                None => None,
            };
            let stbl = match box_find(b, ms, me, BOX_MINF) {
                Some((x, y)) => box_find(b, x, y, BOX_STBL),
                None => None,
            };
            if !is_video {
                None
            } else {
                match stbl {
                    None => None,
                    Some((ss, se)) => match payload_of(b, ss, se, BOX_STSD) {
                        None => None,
                        Some(stsd) => match stsd_parse(stsd) {
                            None => None,
                            Some((width, height, annexb, nal_length_size)) => {
                                let (item_size, sizes) = stsz_parse(
                                    payload_of(b, ss, se, BOX_STSZ),
                                );
                                let stsc = match payload_of(b, ss, se, BOX_STSC) {
                                    Some(p) => stsc_table(p, 8, or_u32(u32_at(p, 4), 0) as int),
                                    None => seq![],
                                };
                                let offsets = chunk_offsets_parse(
                                    payload_of(b, ss, se, BOX_STCO),
                                    payload_of(b, ss, se, BOX_CO64),
                                );
                                let durations = match payload_of(b, ss, se, BOX_STTS) {
                                    Some(p) => stts_parse(p),
                                    None => seq![],
                                };
                                let timescale = match track_times {
                                    Some((ts, _)) => ts,
                                    None => match movie {
                                        Some((ts, _)) => ts,
                                        None => 600,
                                    },
                                };
                                let duration = match movie {
                                    Some((_, d)) => d,
                                    None => match track_times {
                                        Some((_, d)) => d,
                                        None => wrapping_total(durations) as u64,
                                    },
                                };
                                Some(
                                    TrackView {
                                        width,
                                        height,
                                        timescale,
                                        duration,
                                        parameter_sets_annexb: annexb,
                                        nal_length_size,
                                        samples: table_samples(
                                            seq![],
                                            offsets,
                                            0,
                                            stsc,
                                            item_size,
                                            sizes,
                                            durations,
                                        ),
                                    },
                                )
                            },
                        },
                    },
                }
            }
        },
    }
}

/// The track of the first `trak` box from index `i` of `boxes` on that is a
/// usable video track.
pub open spec fn first_video_track(
    b: Seq<u8>,
    boxes: Seq<(u32, int, int)>,
    i: int,
    movie: Option<(u32, u64)>,
) -> Option<TrackView>
    decreases boxes.len() - i,
{
    if i < 0 || i >= boxes.len() {
        None
    } else if boxes[i].0 == BOX_TRAK && trak_track(b, boxes[i].1, boxes[i].2, movie) is Some {
        trak_track(b, boxes[i].1, boxes[i].2, movie)
    } else {
        first_video_track(b, boxes, i + 1, movie)
    }
}

/// What demuxing the movie file `b` gives: the first usable H.264 video
/// track, where it has a size and samples and its last sample lies inside
/// the file.
pub open spec fn demux_spec(b: Seq<u8>) -> Option<TrackView> {
    match box_find(b, 0, b.len() as int, BOX_MOOV) {
        None => None,
        Some((ms, me)) => {
            let movie = match payload_of(b, ms, me, BOX_MVHD) {
                Some(p) => header_times(p),
                None => None,
            };
            finish_track(b, first_video_track(b, box_list(b, ms, me), 0, movie))
        },
    }
}

/// The boxes a listing finds lie within its scope.
proof fn lemma_box_list_bounds(data: Seq<u8>, pos: int, end: int)
    ensures
        forall|i: int|
            0 <= i < box_list(data, pos, end).len() ==> pos <= (#[trigger] box_list(
                data,
                pos,
                end,
            )[i]).1 <= box_list(data, pos, end)[i].2 <= end,
    decreases end - pos,
{
    if pos + 8 > end {
    } else {
        match box_header(data, pos, end) {
            None => {},
            Some((size, header, payload)) => {
                assert(header >= 8 && payload >= 0);
                if pos + header + payload <= end && size != 0 {
                    lemma_box_list_bounds(data, pos + header + payload, end);
                    let item = (be32(data, pos + 4) as u32, pos + header, pos + header + payload);
                    let rest = box_list(data, pos + header + payload, end);
                    assert(box_list(data, pos, end) == seq![item] + rest);
                    assert forall|i: int| 0 <= i < box_list(data, pos, end).len() implies pos
                        <= (#[trigger] box_list(data, pos, end)[i]).1 <= box_list(
                        data,
                        pos,
                        end,
                    )[i].2 <= end by {
                        if i > 0 {
                            assert(box_list(data, pos, end)[i] == rest[i - 1]);
                        }
                    }
                }
            },
        }
    }
}

/// The payload of the first box of type `kind` inside `b[s..e]`.
fn find_payload<'a>(b: &'a [u8], s: usize, e: usize, kind: u32) -> (r: Option<&'a [u8]>)
    requires
        e <= b@.len(),
    ensures
        match r {
            Some(p) => payload_of(b@, s as int, e as int, kind) == Some(p@),
            None => payload_of(b@, s as int, e as int, kind) is None,
        },
{
    match find_box(b, s, e, kind) {
        Some((x, y)) => {
            proof {
                lemma_box_find_bounds(b@, s as int, e as int, kind);
            }
            Some(sub_slice(b, x, y))
        },
        None => None,
    }
}

/// Widens chunk offsets read from `stco`.
fn widen_offsets(v: Vec<u32>) -> (r: Vec<u64>)
    ensures
        r@ == v@.map_values(|x: u32| x as u64),
{
    let mut out: Vec<u64> = Vec::new();
    let mut i: usize = 0;
    while i < v.len()
        invariant
            0 <= i <= v@.len(),
            out@ == v@.subrange(0, i as int).map_values(|x: u32| x as u64),
        decreases v.len() - i,
    {
        out.push(v[i] as u64);
        i = i + 1;
        assert(out@ =~= v@.subrange(0, i as int).map_values(|x: u32| x as u64));
    }
    assert(v@.subrange(0, v@.len() as int) =~= v@);
    out
}

/// Demuxes the `trak` box payload `bytes[s..e]`, where it is a usable
/// video track.
fn track_from_trak(bytes: &[u8], s: usize, e: usize, movie: Option<(u32, u64)>) -> (r: Option<
    DemuxedVideoTrack,
>)
    requires
        e <= bytes@.len(),
    ensures
        match r {
            Some(t) => trak_track(bytes@, s as int, e as int, movie) == Some(t.view_track()),
            None => trak_track(bytes@, s as int, e as int, movie) is None,
        },
{
    reveal(trak_track);
    let (mdia_start, mdia_end) = match find_box(bytes, s, e, BOX_MDIA) {
        Some(m) => m,
        None => {
            return None;
        },
    };
    proof {
        lemma_box_find_bounds(bytes@, s as int, e as int, BOX_MDIA);
    }
    let is_video = match find_box(bytes, mdia_start, mdia_end, BOX_HDLR) {
        Some((hs, _he)) => {
            if hs <= bytes.len() && bytes.len() - hs >= 12 {
                match read_u32(bytes, hs + 8) {
                    Some(h) => h == HANDLER_VIDE,
                    None => false,
                }
            } else {
                false
            }
        },
        None => false,
    };
    if !is_video {
        return None;
    }
    let track_times = match find_payload(bytes, mdia_start, mdia_end, BOX_MDHD) {
        Some(p) => read_header_times(p),
        None => None,
    };
    let (stbl_start, stbl_end) = match find_box(bytes, mdia_start, mdia_end, BOX_MINF) {
        Some((ms, me)) => {
            proof {
                lemma_box_find_bounds(bytes@, mdia_start as int, mdia_end as int, BOX_MINF);
            }
            match find_box(bytes, ms, me, BOX_STBL) {
                Some(st) => {
                    proof {
                        lemma_box_find_bounds(bytes@, ms as int, me as int, BOX_STBL);
                    }
                    st
                },
                None => {
                    return None;
                },
            }
        },
        None => {
            return None;
        },
    };
    let stsd = match find_payload(bytes, stbl_start, stbl_end, BOX_STSD) {
        Some(p) => p,
        None => {
            return None;
        },
    };
    let (width, height, annexb, nal_len) = match parse_stsd(stsd) {
        Some(x) => x,
        None => {
            return None;
        },
    };
    let (item_size, sizes) = match find_payload(bytes, stbl_start, stbl_end, BOX_STSZ) {
        Some(p) => {
            let item_size = match read_u32(p, 4) {
                Some(v) => v,
                None => 0,
            };
            let count = match read_u32(p, 8) {
                Some(v) => v,
                None => 0,
            };
            (item_size, read_u32_table(p, 12, 4, count))
        },
        None => (0, Vec::new()),
    };
    let stsc = match find_payload(bytes, stbl_start, stbl_end, BOX_STSC) {
        Some(p) => {
            let count = match read_u32(p, 4) {
                Some(v) => v,
                None => 0,
            };
            read_stsc_table(p, 8, count)
        },
        None => Vec::new(),
    };
    let chunk_offsets: Vec<u64> = match find_payload(bytes, stbl_start, stbl_end, BOX_STCO) {
        Some(p) => {
            let count = match read_u32(p, 4) {
                Some(v) => v,
                None => 0,
            };
            widen_offsets(read_u32_table(p, 8, 4, count))
        },
        None => match find_payload(bytes, stbl_start, stbl_end, BOX_CO64) {
            Some(p) => {
                let count = match read_u32(p, 4) {
                    Some(v) => v,
                    None => 0,
                };
                read_u64_table(p, 8, count)
            },
            None => Vec::new(),
        },
    };
    let stts_durations = match find_payload(bytes, stbl_start, stbl_end, BOX_STTS) {
        Some(p) => parse_stts(p),
        None => Vec::new(),
    };
    let timescale = match track_times {
        Some((ts, _)) => ts,
        None => match movie {
            Some((ts, _)) => ts,
            None => 600,
        },
    };
    let duration = match movie {
        Some((_, d)) => d,
        None => match track_times {
            Some((_, d)) => d,
            None => total_duration(stts_durations.as_slice()) as u64,
        },
    };
    let samples = build_samples(
        chunk_offsets.as_slice(),
        stsc.as_slice(),
        item_size,
        sizes.as_slice(),
        stts_durations.as_slice(),
    );
    Some(
        DemuxedVideoTrack {
            width,
            height,
            timescale,
            duration,
            parameter_sets_annexb: annexb,
            nal_length_size: nal_len,
            samples,
        },
    )
}

/// Demuxes the first H.264 video track from an MP4/MOV file.
pub fn demux_video_track(bytes: &[u8]) -> (r: Option<DemuxedVideoTrack>)
    ensures
        match r {
            Some(t) => demux_spec(bytes@) == Some(t.view_track()),
            None => demux_spec(bytes@) is None,
        },
{
    let end = bytes.len();
    let (moov_start, moov_end) = match find_box(bytes, 0, end, BOX_MOOV) {
        Some(m) => m,
        None => {
            return None;
        },
    };
    proof {
        lemma_box_find_bounds(bytes@, 0, end as int, BOX_MOOV);
    }
    let movie = match find_payload(bytes, moov_start, moov_end, BOX_MVHD) {
        Some(p) => read_header_times(p),
        None => None,
    };
    let boxes = child_boxes(bytes, moov_start, moov_end);
    proof {
        lemma_box_list_bounds(bytes@, moov_start as int, moov_end as int);
    }
    let ghost listed = box_list(bytes@, moov_start as int, moov_end as int);
    let mut i: usize = 0;
    while i < boxes.len()
        invariant
            listed == box_list(bytes@, moov_start as int, moov_end as int),
            boxes@.len() == listed.len(),
            forall|k: int| 0 <= k < boxes@.len() ==> widen_box(#[trigger] boxes@[k]) == listed[k],
            forall|k: int|
                0 <= k < listed.len() ==> moov_start <= (#[trigger] listed[k]).1 <= listed[k].2
                    <= moov_end,
            moov_end <= bytes@.len(),
            0 <= i <= boxes@.len(),
            demux_spec(bytes@) == finish_track(bytes@, first_video_track(bytes@, listed, i as int, movie)),
        decreases boxes.len() - i,
    {
        let (kind, s, e) = boxes[i];
        assert(widen_box(boxes@[i as int]) == listed[i as int]);
        if kind == BOX_TRAK {
            if let Some(track) = track_from_trak(bytes, s, e, movie) {
                return check_track(bytes, track);
            }
        }
        i = i + 1;
    }
    None
}

/// The demuxed track `t` of the file `b`, where it has a size and samples
/// and its last sample lies inside the file.
pub open spec fn finish_track(b: Seq<u8>, t: Option<TrackView>) -> Option<TrackView> {
    match t {
        None => None,
        Some(t) => {
            if t.width == 0 || t.height == 0 || t.samples.len() == 0 {
                None
            } else if (t.samples.last().offset as usize) as int + t.samples.last().size > b.len() {
                None
            } else {
                Some(t)
            }
        },
    }
}

/// Keeps a demuxed track only where it has a size and samples and its last
/// sample lies inside the file.
fn check_track(bytes: &[u8], track: DemuxedVideoTrack) -> (r: Option<DemuxedVideoTrack>)
    ensures
        match r {
            Some(t) => finish_track(bytes@, Some(track.view_track())) == Some(t.view_track()),
            None => finish_track(bytes@, Some(track.view_track())) is None,
        },
{
    if track.width == 0 || track.height == 0 || track.samples.len() == 0 {
        return None;
    }
    let last = track.samples.len() - 1;
    let last_offset = track.samples[last].offset as usize;
    let last_size = track.samples[last].size as usize;
    if last_offset > bytes.len() || last_size > bytes.len() - last_offset {
        return None;
    }
    Some(track)
}

} // verus!
