//! Host presentation through WGPU: the frame handling that does not touch
//! the GPU.
use crate::text::{decimal_chars, push_decimal};
use vstd::prelude::*;
use vstd::string::StringExecFns;

verus! {

/// One line naming the presentation backend.
pub fn describe() -> (r: &'static str)
    ensures
        r@ == "WGPU host presentation backend with the existing GLES guest compatibility path"@,
{
    "WGPU host presentation backend with the existing GLES guest compatibility path"
}

/// The message for a frame of `len` bytes that is too short for `width` by
/// `height` pixels.
pub open spec fn frame_size_message(width: u32, height: u32, len: nat) -> Seq<char> {
    "invalid WGPU frame dimensions "@ + decimal_chars(width as nat) + "x"@ + decimal_chars(height as nat)
        + " with "@ + decimal_chars(len) + " bytes"@
}

/// Whether `v` holds the `height` rows of `row` bytes of `pixels` in the
/// other order: its row `y` is row `height - 1 - y` of `pixels`.
pub open spec fn rows_turned_over(v: Seq<u8>, pixels: Seq<u8>, row: int, height: int) -> bool {
    &&& v.len() == row * height
    &&& forall|y: int, x: int|
        0 <= y < height && 0 <= x < row ==> #[trigger] v[y * row + x] == pixels[(height - 1 - y) * row + x]
}

/// The bytes a frame of `width` by `height` RGBA pixels is presented with,
/// rows top-down: a bottom-up frame is turned over, a top-down one is
/// presented as it is. A frame with fewer bytes than its pixels need is
/// refused.
pub fn oriented_frame(pixels: &[u8], width: u32, height: u32, bottom_up: bool) -> (r: Result<Vec<u8>, String>)
    requires
        width * height * 4 <= usize::MAX,
        width * 4 <= usize::MAX,
    ensures
        pixels@.len() < width * height * 4 ==> (r matches Err(e) && e@ == frame_size_message(
            width,
            height,
            pixels@.len(),
        )),
        pixels@.len() >= width * height * 4 && !bottom_up ==> (r matches Ok(v) && v@ == pixels@),
        pixels@.len() >= width * height * 4 && bottom_up ==> (r matches Ok(v) && rows_turned_over(
            v@,
            pixels@,
            width * 4,
            height as int,
        )),
{
    let row_bytes = width as usize * 4;
    assert(row_bytes * height == width * height * 4) by (nonlinear_arith)
        requires
            row_bytes == width * 4,
    ;
    let expected = row_bytes * height as usize;
    if pixels.len() < expected {
        let mut message = "invalid WGPU frame dimensions ".to_owned();
        push_decimal(&mut message, width as u64);
        message.append("x");
        push_decimal(&mut message, height as u64);
        message.append(" with ");
        push_decimal(&mut message, pixels.len() as u64);
        message.append(" bytes");
        return Err(message);
    }
    let mut out: Vec<u8> = Vec::new();
    if !bottom_up {
        let mut i: usize = 0;
        while i < pixels.len()
            invariant
                i <= pixels@.len(),
                out@ == pixels@.subrange(0, i as int),
            decreases pixels.len() - i,
        {
            out.push(pixels[i]);
            i = i + 1;
            assert(out@ =~= pixels@.subrange(0, i as int));
        }
        assert(pixels@.subrange(0, i as int) =~= pixels@);
        return Ok(out);
    }
    let h = height as usize;
    let mut y: usize = 0;
    let mut base: usize = 0;
    while y < h
        invariant
            y <= h,
            h == height,
            row_bytes == width * 4,
            expected == row_bytes * h,
            expected <= pixels@.len(),
            base == y * row_bytes,
            out@.len() == base,
            forall|y2: int, x: int|
                0 <= y2 < y && 0 <= x < row_bytes ==> #[trigger] out@[y2 * row_bytes + x] == pixels@[(h - 1 - y2)
                    * row_bytes + x],
        decreases h - y,
    {
        assert((y + 1) * row_bytes <= h * row_bytes) by (nonlinear_arith)
            requires
                y < h,
        ;
        assert((h - 1 - y) * row_bytes + row_bytes <= h * row_bytes) by (nonlinear_arith)
            requires
                y < h,
        ;
        let source = (h - y - 1) * row_bytes;
        let ghost before = out@;
        let mut x: usize = 0;
        while x < row_bytes
            invariant
                x <= row_bytes,
                source == (h - 1 - y) * row_bytes,
                source + row_bytes <= expected,
                expected <= pixels@.len(),
                base == y * row_bytes,
                out@.len() == base + x,
                before.len() == base,
                forall|i: int| 0 <= i < base ==> #[trigger] out@[i] == before[i],
                forall|x2: int| 0 <= x2 < x ==> #[trigger] out@[base + x2] == pixels@[source + x2],
            decreases row_bytes - x,
        {
            out.push(pixels[source + x]);
            x = x + 1;
        }
        proof {
            assert forall|y2: int, x2: int|
                0 <= y2 < y + 1 && 0 <= x2 < row_bytes implies #[trigger] out@[y2 * row_bytes + x2] == pixels@[(h
                    - 1 - y2) * row_bytes + x2] by {
                if y2 < y {
                    assert(y2 * row_bytes + x2 < y * row_bytes) by (nonlinear_arith)
                        requires
                            y2 < y,
                            x2 < row_bytes,
                            0 <= x2,
                    ;
                    assert(out@[y2 * row_bytes + x2] == before[y2 * row_bytes + x2]);
                } else {
                    assert(y2 * row_bytes == base);
                    assert(out@[base + x2] == pixels@[source + x2]);
                }
            }
        }
        assert(base + row_bytes == (y + 1) * row_bytes) by (nonlinear_arith)
            requires
                base == y * row_bytes,
        ;
        y = y + 1;
        base = base + row_bytes;
        assert(base == y * row_bytes) by (nonlinear_arith)
            requires
                base == (y - 1) * row_bytes + row_bytes,
        ;
    }
    proof {
        let row = width * 4;
        assert(out@.len() == row * height) by (nonlinear_arith)
            requires
                out@.len() == y * row_bytes,
                y == h,
                h == height,
                row_bytes == row,
        ;
        assert forall|y2: int, x: int| 0 <= y2 < height && 0 <= x < row implies #[trigger] out@[y2 * row + x]
            == pixels@[(height - 1 - y2) * row + x] by {
            assert(out@[y2 * row_bytes + x] == pixels@[(h - 1 - y2) * row_bytes + x]);
        }
    }
    Ok(out)
}

} // verus!
