//! Optional video output for `MPMoviePlayerController`: the movie is
//! decoded by an `ffmpeg` on the host to raw RGBA frames, bottom row first.
//! What is asked of `ffprobe` and `ffmpeg`, and how their answers are read,
//! stands here; starting them is the caller's.
use vstd::prelude::*;

verus! {

/// The arguments given to `ffprobe` before the movie's path: the width and
/// height of the first video stream, as `width,height`.
pub fn ffprobe_args() -> (r: Vec<&'static str>)
    ensures
        r@ == seq![
            "-v",
            "error",
            "-select_streams",
            "v:0",
            "-show_entries",
            "stream=width,height",
            "-of",
            "csv=p=0",
        ],
{
    vec!["-v", "error", "-select_streams", "v:0", "-show_entries", "stream=width,height", "-of", "csv=p=0"]
}

/// The arguments given to `ffmpeg` before the movie's path: quiet, no
/// input from the terminal, in real time, and endlessly for a looping
/// movie.
pub fn ffmpeg_args_before_input(looping: bool) -> (r: Vec<&'static str>)
    ensures
        r@ == if looping {
            seq!["-loglevel", "error", "-nostdin", "-re", "-stream_loop", "-1", "-i"]
        } else {
            seq!["-loglevel", "error", "-nostdin", "-re", "-i"]
        },
{
    let mut args = vec!["-loglevel", "error", "-nostdin", "-re"];
    if looping {
        args.push("-stream_loop");
        args.push("-1");
    }
    args.push("-i");
    args
}

/// The arguments given to `ffmpeg` after the movie's path: no audio, flipped
/// vertically, as raw RGBA on standard output.
pub fn ffmpeg_args_after_input() -> (r: Vec<&'static str>)
    ensures
        r@ == seq!["-an", "-vf", "vflip", "-f", "rawvideo", "-pix_fmt", "rgba", "-"],
{
    vec!["-an", "-vf", "vflip", "-f", "rawvideo", "-pix_fmt", "rgba", "-"]
}

/// Whether `b` is ASCII white space.
pub open spec fn is_space(b: u8) -> bool {
    b == 32 || b == 9 || b == 10 || b == 11 || b == 12 || b == 13
}

/// `s` without ASCII white space at either end.
pub open spec fn trim(s: Seq<u8>) -> Seq<u8>
    decreases s.len(),
{
    if s.len() > 0 && is_space(s[0]) {
        trim(s.drop_first())
    } else if s.len() > 0 && is_space(s.last()) {
        trim(s.drop_last())
    } else {
        s
    }
}

/// The number that the decimal digits `s` spell.
pub open spec fn decimal_value(s: Seq<u8>) -> nat
    decreases s.len(),
{
    if s.len() == 0 {
        0
    } else {
        decimal_value(s.drop_last()) * 10 + (s.last() - 48) as nat
    }
}

/// Whether every byte of `s` is a decimal digit.
pub open spec fn all_digits(s: Seq<u8>) -> bool {
    forall|i: int| 0 <= i < s.len() ==> 48 <= #[trigger] s[i] <= 57
}

/// What `str::parse::<u32>` gives: an optional `+`, then at least one
/// decimal digit, whose value must fit.
pub open spec fn parse_u32(s: Seq<u8>) -> Option<u32> {
    let d = if s.len() > 0 && s[0] == 43 {
        s.drop_first()
    } else {
        s
    };
    if d.len() > 0 && all_digits(d) && decimal_value(d) <= u32::MAX {
        Some(decimal_value(d) as u32)
    } else {
        None
    }
}

/// The dimensions `ffprobe` printed: the text trimmed, cut at its first
/// comma, each side trimmed and read as a number.
pub open spec fn probe_dimensions(out: Seq<u8>) -> Option<(u32, u32)> {
    let t = trim(out);
    if exists|i: int| 0 <= i < t.len() && t[i] == 44 && forall|j: int| 0 <= j < i ==> t[j] != 44 {
        let i = choose|i: int| 0 <= i < t.len() && t[i] == 44 && forall|j: int| 0 <= j < i ==> t[j] != 44;
        match (parse_u32(trim(t.subrange(0, i))), parse_u32(trim(t.subrange(i + 1, t.len() as int)))) {
            (Some(w), Some(h)) => Some((w, h)),
            _ => None,
        }
    } else {
        None
    }
}

/// `s` without ASCII white space at either end.
fn trimmed(s: &[u8]) -> (r: &[u8])
    ensures
        r@ == trim(s@),
{
    let mut a: usize = 0;
    let mut b: usize = s.len();
    assert(s@.subrange(0, s@.len() as int) =~= s@);
    while a < b && (s[a] == 32 || s[a] == 9 || s[a] == 10 || s[a] == 11 || s[a] == 12 || s[a] == 13)
        invariant
            0 <= a <= b <= s@.len(),
            b == s@.len(),
            trim(s@.subrange(a as int, b as int)) == trim(s@),
        decreases b - a,
    {
        assert(s@.subrange(a as int, b as int).drop_first() =~= s@.subrange(a as int + 1, b as int));
        a = a + 1;
    }
    while a < b && (s[b - 1] == 32 || s[b - 1] == 9 || s[b - 1] == 10 || s[b - 1] == 11 || s[b - 1]
        == 12 || s[b - 1] == 13)
        invariant
            0 <= a <= b <= s@.len(),
            a < b ==> !is_space(s@[a as int]),
            trim(s@.subrange(a as int, b as int)) == trim(s@),
        decreases b - a,
    {
        assert(s@.subrange(a as int, b as int).drop_last() =~= s@.subrange(a as int, b as int - 1));
        b = b - 1;
    }
    vstd::slice::slice_subrange(s, a, b)
}

/// Reads `s` as `str::parse::<u32>` does.
pub fn parse_decimal_u32(s: &[u8]) -> (r: Option<u32>)
    ensures
        r == parse_u32(s@),
{
    let start: usize = if s.len() > 0 && s[0] == 43 {
        1
    } else {
        0
    };
    let ghost d = if s@.len() > 0 && s@[0] == 43 {
        s@.drop_first()
    } else {
        s@
    };
    assert(d =~= s@.subrange(start as int, s@.len() as int));
    assert(parse_u32(s@) == (if d.len() > 0 && all_digits(d) && decimal_value(d) <= u32::MAX {
        Some(decimal_value(d) as u32)
    } else {
        None::<u32>
    }));
    if start == s.len() {
        return None;
    }
    let mut value: u64 = 0;
    let mut i: usize = start;
    while i < s.len()
        invariant
            start <= i <= s.len(),
            d == s@.subrange(start as int, s@.len() as int),
            parse_u32(s@) == (if d.len() > 0 && all_digits(d) && decimal_value(d) <= u32::MAX {
                Some(decimal_value(d) as u32)
            } else {
                None::<u32>
            }),
            forall|j: int| start <= j < i ==> 48 <= #[trigger] s@[j] <= 57,
            value as nat == decimal_value(s@.subrange(start as int, i as int)),
            value <= u32::MAX,
        decreases s.len() - i,
    {
        let c = s[i];
        if c < 48 || c > 57 {
            assert(d[i - start] == c);
            return None;
        }
        proof {
            let t = s@.subrange(start as int, i as int + 1);
            assert(t.drop_last() =~= s@.subrange(start as int, i as int));
        }
        let next = value * 10 + (c - 48) as u64;
        if next > u32::MAX as u64 {
            proof {
                lemma_decimal_prefix(d, i - start + 1);
                assert(d.subrange(0, i - start + 1) =~= s@.subrange(start as int, i as int + 1));
            }
            return None;
        }
        value = next;
        i = i + 1;
    }
    assert(d =~= s@.subrange(start as int, i as int));
    Some(value as u32)
}

/// A longer run of digits is worth at least as much as its prefix.
pub proof fn lemma_decimal_prefix(s: Seq<u8>, i: int)
    requires
        0 <= i <= s.len(),
    ensures
        all_digits(s) ==> decimal_value(s) >= decimal_value(s.subrange(0, i)),
    decreases s.len(),
{
    if i == s.len() {
        assert(s.subrange(0, i) =~= s);
    } else {
        lemma_decimal_prefix(s.drop_last(), i);
        assert(s.drop_last().subrange(0, i) =~= s.subrange(0, i));
    }
}

/// Reads the `width,height` that `ffprobe` printed.
pub fn parse_probe_output(out: &[u8]) -> (r: Option<(u32, u32)>)
    ensures
        r == probe_dimensions(out@),
{
    let t = trimmed(out);
    let mut i: usize = 0;
    while i < t.len()
        invariant
            0 <= i <= t.len(),
            t@ == trim(out@),
            forall|j: int| 0 <= j < i ==> t@[j] != 44,
        decreases t.len() - i,
    {
        if t[i] == 44 {
            proof {
                let k = choose|k: int| 0 <= k < t@.len() && t@[k] == 44 && forall|j: int| 0 <= j < k ==> t@[j] != 44;
                if k < i {
                    assert(t@[k] != 44);
                } else if k > i {
                    assert(t@[i as int] != 44);
                }
            }
            let w = parse_decimal_u32(trimmed(vstd::slice::slice_subrange(t, 0, i)));
            let h = parse_decimal_u32(trimmed(vstd::slice::slice_subrange(t, i + 1, t.len())));
            return match (w, h) {
                (Some(w), Some(h)) => Some((w, h)),
                _ => None,
            };
        }
        i = i + 1;
    }
    None
}

/// The bytes of one decoded RGBA frame.
pub fn frame_size(width: u32, height: u32) -> (r: usize)
    requires
        width * height * 4 <= u32::MAX,
    ensures
        r == width * height * 4,
{
    assert(width * height * 4 <= u32::MAX);
    (width * height * 4) as usize
}

} // verus!
