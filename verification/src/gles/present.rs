//! Frame presentation: the frame counter behind the FPS display, and the
//! on-screen HUD settings.
use vstd::prelude::*;

verus! {

/// One second in nanoseconds.
pub const NANOS_PER_SECOND: u64 = 1_000_000_000;

/// Counts presented frames over one-second windows.
#[derive(Clone, Copy, Debug, PartialEq, Eq)]
pub struct FpsCounter {
    /// Start of the current window, in nanoseconds.
    pub time_ns: u64,
    /// Frames counted in the current window.
    pub frames: u32,
}

impl FpsCounter {
    /// A counter whose first window starts at `now_ns`.
    pub fn start(now_ns: u64) -> (r: Self)
        ensures
            r == (FpsCounter { time_ns: now_ns, frames: 0 }),
    {
        FpsCounter { time_ns: now_ns, frames: 0 }
    }

    /// Counts a frame presented at `now_ns`. Where a second or more has
    /// passed since the window started, the window closes: its frame count
    /// and length are returned (for the frame rate to be shown) and a new
    /// window starts at `now_ns`.
    pub fn count_frame(&mut self, now_ns: u64) -> (r: Option<(u32, u64)>)
        ensures
            ({
                let frames = old(self).frames.wrapping_add(1);
                let elapsed = now_ns.saturating_sub(old(self).time_ns);
                if elapsed >= NANOS_PER_SECOND {
                    r == Some((frames, elapsed)) && *final(self) == (FpsCounter {
                        time_ns: now_ns,
                        frames: 0,
                    })
                } else {
                    r is None && *final(self) == (FpsCounter { frames, ..*old(self) })
                }
            }),
    {
        self.frames = self.frames.wrapping_add(1);
        let elapsed = now_ns.saturating_sub(self.time_ns);
        if elapsed >= NANOS_PER_SECOND {
            let frames = self.frames;
            self.time_ns = now_ns;
            self.frames = 0;
            Some((frames, elapsed))
        } else {
            None
        }
    }
}

/// The settings of the on-screen HUD.
#[derive(Clone, Debug)]
pub struct HudState {
    /// Whether the FPS overlay is shown.
    pub onscreen_fps_enabled: bool,
    /// The architecture label shown in the HUD.
    pub architecture: String,
    /// The text last composed for the HUD (empty before any).
    pub text: String,
}

impl HudState {
    /// No overlay, no label, no text.
    pub fn new() -> (r: Self)
        ensures
            !r.onscreen_fps_enabled,
            r.architecture@ == Seq::<char>::empty(),
            r.text@ == Seq::<char>::empty(),
    {
        HudState { onscreen_fps_enabled: false, architecture: String::new(), text: String::new() }
    }
}

/// Shows or hides the on-screen FPS overlay.
pub fn set_onscreen_fps_enabled(hud: &mut HudState, enabled: bool)
    ensures
        final(hud).onscreen_fps_enabled == enabled,
        final(hud).architecture@ == old(hud).architecture@,
        final(hud).text@ == old(hud).text@,
{
    hud.onscreen_fps_enabled = enabled;
}

/// Keeps `text` as the text the HUD shows.
pub fn set_onscreen_hud_text(hud: &mut HudState, text: &str)
    ensures
        final(hud).onscreen_fps_enabled == old(hud).onscreen_fps_enabled,
        final(hud).architecture@ == old(hud).architecture@,
        final(hud).text@ == text@,
{
    hud.text = text.to_owned();
}

/// The text the HUD shows, if it is shown: the overlay must be enabled, by
/// the flag or by the environment (`env_enabled`), and some text composed.
pub open spec fn hud_text_shown(enabled: bool, env_enabled: bool, text: Seq<char>) -> Option<Seq<char>> {
    if (enabled || env_enabled) && text.len() > 0 {
        Some(text)
    } else {
        None
    }
}

/// The text the on-screen HUD shows now, if any; `env_enabled` says
/// whether the environment asks for the overlay.
pub fn onscreen_hud_text(hud: &HudState, env_enabled: bool) -> (r: Option<String>)
    ensures
        match hud_text_shown(hud.onscreen_fps_enabled, env_enabled, hud.text@) {
            Some(t) => r matches Some(s) && s@ == t,
            None => r is None,
        },
{
    if !(hud.onscreen_fps_enabled || env_enabled) {
        return None;
    }
    if hud.text.as_str().is_empty() {
        None
    } else {
        Some(hud.text.clone())
    }
}

/// The last call of `set_onscreen_fps_enabled` decides whether the HUD
/// shows its text: after `set_onscreen_fps_enabled(false)` (and with the
/// environment not asking for it) no text is shown; after
/// `set_onscreen_fps_enabled(true)` the composed text is shown exactly when
/// it is not empty.
pub proof fn law_last_enable_wins(text: Seq<char>, enabled: bool)
    ensures
        hud_text_shown(false, false, text) is None,
        hud_text_shown(true, false, text) == (if text.len() > 0 { Some(text) } else { None::<Seq<char>> }),
        hud_text_shown(enabled, false, text) is Some <==> enabled && text.len() > 0,
{
}

/// Sets the architecture label shown in the HUD.
pub fn set_onscreen_hud_architecture(hud: &mut HudState, architecture: &str)
    ensures
        final(hud).onscreen_fps_enabled == old(hud).onscreen_fps_enabled,
        final(hud).architecture@ == architecture@,
        final(hud).text@ == old(hud).text@,
{
    hud.architecture = architecture.to_owned();
}

/// The label the HUD shows for the architecture: the one set, or
/// `ARM32/ARM64` where none is.
pub fn hud_architecture_label(hud: &HudState) -> (r: &str)
    ensures
        r@ == (if hud.architecture@.len() == 0 {
            "ARM32/ARM64"@
        } else {
            hud.architecture@
        }),
{
    if hud.architecture.as_str().is_empty() {
        "ARM32/ARM64"
    } else {
        hud.architecture.as_str()
    }
}

/// The characters the on-screen HUD can draw, in the order of its glyph
/// bitmaps.
pub open spec fn glyph_chars() -> Seq<char> {
    seq!['0', '1', '2', '3', '4', '5', '6', '7', '8', '9', ':', '.', 'F', 'P', 'S', 'C', 'U', 'G', 'R', 'A', 'M', 'B', '%']
}

/// The glyph of `ch`: its position among the characters the HUD draws.
pub fn glyph_index(ch: char) -> (r: Option<usize>)
    ensures
        match r {
            Some(i) => i < glyph_chars().len() && glyph_chars()[i as int] == ch && forall|j: int|
                0 <= j < i ==> glyph_chars()[j] != ch,
            None => forall|j: int| 0 <= j < glyph_chars().len() ==> glyph_chars()[j] != ch,
        },
{
    let chars = vec!['0', '1', '2', '3', '4', '5', '6', '7', '8', '9', ':', '.', 'F', 'P', 'S', 'C', 'U', 'G', 'R', 'A', 'M', 'B', '%'];
    assert(chars@ =~= glyph_chars());
    let mut i: usize = 0;
    while i < chars.len()
        invariant
            0 <= i <= chars@.len(),
            chars@ == glyph_chars(),
            forall|j: int| 0 <= j < i ==> glyph_chars()[j] != ch,
        decreases chars.len() - i,
    {
        if chars[i] == ch {
            return Some(i);
        }
        i = i + 1;
    }
    None
}

/// The glyph of `ch`, as the spec functions speak of it: its first
/// position among the characters the HUD draws.
pub open spec fn glyph_of(ch: char) -> Option<int> {
    if exists|i: int| 0 <= i < glyph_chars().len() && glyph_chars()[i] == ch {
        Some(
            choose|i: int|
                0 <= i < glyph_chars().len() && glyph_chars()[i] == ch && forall|j: int|
                    0 <= j < i ==> glyph_chars()[j] != ch,
        )
    } else {
        None
    }
}

/// The rows of the 8x8 bitmap of each glyph, the leftmost pixel in the top
/// bit.
pub open spec fn glyph_bitmap(g: int) -> Seq<u8> {
    if g == 0 {
        seq![0x3C, 0x66, 0x6E, 0x7E, 0x76, 0x66, 0x3C, 0x00]
    } else if g == 1 {
        seq![0x18, 0x38, 0x18, 0x18, 0x18, 0x18, 0x7E, 0x00]
    } else if g == 2 {
        seq![0x3C, 0x66, 0x06, 0x0C, 0x18, 0x30, 0x7E, 0x00]
    } else if g == 3 {
        seq![0x3C, 0x66, 0x06, 0x1C, 0x06, 0x66, 0x3C, 0x00]
    } else if g == 4 {
        seq![0x0C, 0x1C, 0x3C, 0x6C, 0x7E, 0x0C, 0x1E, 0x00]
    } else if g == 5 {
        seq![0x7E, 0x60, 0x7C, 0x06, 0x06, 0x66, 0x3C, 0x00]
    } else if g == 6 {
        seq![0x3C, 0x66, 0x60, 0x7C, 0x66, 0x66, 0x3C, 0x00]
    } else if g == 7 {
        seq![0x7E, 0x66, 0x0C, 0x18, 0x18, 0x18, 0x18, 0x00]
    } else if g == 8 {
        seq![0x3C, 0x66, 0x66, 0x3C, 0x66, 0x66, 0x3C, 0x00]
    } else if g == 9 {
        seq![0x3C, 0x66, 0x66, 0x3E, 0x06, 0x66, 0x3C, 0x00]
    } else if g == 10 {
        seq![0x00, 0x18, 0x18, 0x00, 0x00, 0x18, 0x18, 0x00]
    } else if g == 11 {
        seq![0x00, 0x00, 0x00, 0x00, 0x00, 0x18, 0x18, 0x00]
    } else if g == 12 {
        seq![0x7E, 0x60, 0x60, 0x7C, 0x60, 0x60, 0x60, 0x00]
    } else if g == 13 {
        seq![0x7C, 0x66, 0x66, 0x7C, 0x60, 0x60, 0x60, 0x00]
    } else if g == 14 {
        seq![0x3C, 0x66, 0x30, 0x1C, 0x06, 0x66, 0x3C, 0x00]
    } else if g == 15 {
        seq![0x3C, 0x66, 0x60, 0x60, 0x60, 0x66, 0x3C, 0x00]
    } else if g == 16 {
        seq![0x66, 0x66, 0x66, 0x66, 0x66, 0x66, 0x3C, 0x00]
    } else if g == 17 {
        seq![0x3C, 0x66, 0x60, 0x6E, 0x66, 0x66, 0x3E, 0x00]
    } else if g == 18 {
        seq![0x7C, 0x66, 0x66, 0x7C, 0x6C, 0x66, 0x66, 0x00]
    } else if g == 19 {
        seq![0x18, 0x3C, 0x66, 0x66, 0x7E, 0x66, 0x66, 0x00]
    } else if g == 20 {
        seq![0x63, 0x77, 0x7F, 0x6B, 0x63, 0x63, 0x63, 0x00]
    } else if g == 21 {
        seq![0x7C, 0x66, 0x66, 0x7C, 0x66, 0x66, 0x7C, 0x00]
    } else {
        seq![0x62, 0x64, 0x08, 0x10, 0x26, 0x46, 0x00, 0x00]
    }
}

fn glyph_bitmap_exec(g: usize) -> (r: Vec<u8>)
    ensures
        r@ == glyph_bitmap(g as int),
{
    if g == 0 {
        vec![0x3C, 0x66, 0x6E, 0x7E, 0x76, 0x66, 0x3C, 0x00]
    } else if g == 1 {
        vec![0x18, 0x38, 0x18, 0x18, 0x18, 0x18, 0x7E, 0x00]
    } else if g == 2 {
        vec![0x3C, 0x66, 0x06, 0x0C, 0x18, 0x30, 0x7E, 0x00]
    } else if g == 3 {
        vec![0x3C, 0x66, 0x06, 0x1C, 0x06, 0x66, 0x3C, 0x00]
    } else if g == 4 {
        vec![0x0C, 0x1C, 0x3C, 0x6C, 0x7E, 0x0C, 0x1E, 0x00]
    } else if g == 5 {
        vec![0x7E, 0x60, 0x7C, 0x06, 0x06, 0x66, 0x3C, 0x00]
    } else if g == 6 {
        vec![0x3C, 0x66, 0x60, 0x7C, 0x66, 0x66, 0x3C, 0x00]
    } else if g == 7 {
        vec![0x7E, 0x66, 0x0C, 0x18, 0x18, 0x18, 0x18, 0x00]
    } else if g == 8 {
        vec![0x3C, 0x66, 0x66, 0x3C, 0x66, 0x66, 0x3C, 0x00]
    } else if g == 9 {
        vec![0x3C, 0x66, 0x66, 0x3E, 0x06, 0x66, 0x3C, 0x00]
    } else if g == 10 {
        vec![0x00, 0x18, 0x18, 0x00, 0x00, 0x18, 0x18, 0x00]
    } else if g == 11 {
        vec![0x00, 0x00, 0x00, 0x00, 0x00, 0x18, 0x18, 0x00]
    } else if g == 12 {
        vec![0x7E, 0x60, 0x60, 0x7C, 0x60, 0x60, 0x60, 0x00]
    } else if g == 13 {
        vec![0x7C, 0x66, 0x66, 0x7C, 0x60, 0x60, 0x60, 0x00]
    } else if g == 14 {
        vec![0x3C, 0x66, 0x30, 0x1C, 0x06, 0x66, 0x3C, 0x00]
    } else if g == 15 {
        vec![0x3C, 0x66, 0x60, 0x60, 0x60, 0x66, 0x3C, 0x00]
    } else if g == 16 {
        vec![0x66, 0x66, 0x66, 0x66, 0x66, 0x66, 0x3C, 0x00]
    } else if g == 17 {
        vec![0x3C, 0x66, 0x60, 0x6E, 0x66, 0x66, 0x3E, 0x00]
    } else if g == 18 {
        vec![0x7C, 0x66, 0x66, 0x7C, 0x6C, 0x66, 0x66, 0x00]
    } else if g == 19 {
        vec![0x18, 0x3C, 0x66, 0x66, 0x7E, 0x66, 0x66, 0x00]
    } else if g == 20 {
        vec![0x63, 0x77, 0x7F, 0x6B, 0x63, 0x63, 0x63, 0x00]
    } else if g == 21 {
        vec![0x7C, 0x66, 0x66, 0x7C, 0x66, 0x66, 0x7C, 0x00]
    } else {
        vec![0x62, 0x64, 0x08, 0x10, 0x26, 0x46, 0x00, 0x00]
    }
}

/// Whether pixel `gx` (0 on the left) of a glyph row is set.
pub open spec fn glyph_bit(row: u8, gx: u32) -> bool {
    row & (1u8 << (7u32 - gx)) != 0
}

/// The size of a glyph pixel on the screen, for a screen `width` pixels
/// wide: six screen pixels per 320 of width, at least six.
pub open spec fn hud_scale(width: u32) -> int {
    (if width / 320 >= 1 {
        width / 320
    } else {
        1
    }) * 6
}

/// How far the pen moves past `ch`: a glyph's width and two pixels, or
/// half a glyph's width for a character without a glyph; it stops at the
/// largest `u32`.
pub open spec fn pen_after(x: int, ch: char, scale: int) -> int {
    let step = if glyph_of(ch) is Some {
        8 * scale + 2
    } else {
        (8 * scale) / 2
    };
    if x + step > u32::MAX {
        u32::MAX as int
    } else {
        x + step
    }
}

/// The squares (their top-left corners) that the first `n` pixels of glyph
/// `g`, row by row, paint when the glyph stands at `x`.
pub open spec fn glyph_cells(g: int, x: int, scale: int, n: nat) -> Seq<(int, int)>
    decreases n,
{
    if n == 0 {
        seq![]
    } else {
        let m = (n - 1) as nat;
        let before = glyph_cells(g, x, scale, m);
        if glyph_bit(glyph_bitmap(g)[(m / 8) as int], (m % 8) as u32) {
            before.push((x + (m % 8) * scale, 8 + (m / 8) * scale))
        } else {
            before
        }
    }
}

/// The squares that `text` paints with the pen at `x`: each character's
/// glyph, the pen moving on after each, until it reaches `width`.
pub open spec fn text_cells(text: Seq<char>, x: int, width: int, scale: int) -> Seq<(int, int)>
    decreases text.len(),
{
    if text.len() == 0 {
        seq![]
    } else {
        let here = match glyph_of(text[0]) {
            Some(g) => glyph_cells(g, x, scale, 64),
            None => seq![],
        };
        let next = pen_after(x, text[0], scale);
        if next >= width {
            here
        } else {
            here + text_cells(text.subrange(1, text.len() as int), next, width, scale)
        }
    }
}

/// Whether screen pixel (`px`, `py`) lies in one of the `scale`-sized
/// squares at `cells`.
pub open spec fn covered(cells: Seq<(int, int)>, scale: int, px: int, py: int) -> bool {
    exists|k: int|
        0 <= k < cells.len() && #[trigger] cells[k].0 <= px < cells[k].0 + scale && cells[k].1 <= py
            < cells[k].1 + scale
}

/// Whether byte `b` of an RGBA frame `width` by `height` pixels belongs to
/// a pixel in one of the squares at `cells`.
pub open spec fn painted(b: int, width: u32, height: u32, cells: Seq<(int, int)>, scale: int) -> bool {
    &&& b < width * height * 4
    &&& covered(cells, scale, (b / 4) % (width as int), (b / 4) / (width as int))
}

/// The square of `scale` pixels at (`x0`, `y0`), as `painted` takes it.
proof fn lemma_covered_push(cells: Seq<(int, int)>, c: (int, int), scale: int, px: int, py: int)
    ensures
        covered(cells.push(c), scale, px, py) == (covered(cells, scale, px, py) || (c.0 <= px < c.0 + scale
            && c.1 <= py < c.1 + scale)),
{
    let n = cells.push(c);
    if covered(cells, scale, px, py) {
        let k = choose|k: int|
            0 <= k < cells.len() && #[trigger] cells[k].0 <= px < cells[k].0 + scale && cells[k].1 <= py
                < cells[k].1 + scale;
        assert(n[k] == cells[k]);
    }
    if c.0 <= px < c.0 + scale && c.1 <= py < c.1 + scale {
        assert(n[cells.len() as int] == c);
    }
    if covered(n, scale, px, py) {
        let k = choose|k: int|
            0 <= k < n.len() && #[trigger] n[k].0 <= px < n[k].0 + scale && n[k].1 <= py < n[k].1 + scale;
        if k < cells.len() {
            assert(n[k] == cells[k]);
        }
    }
}

proof fn lemma_covered_concat(a: Seq<(int, int)>, b: Seq<(int, int)>, scale: int, px: int, py: int)
    ensures
        covered(a + b, scale, px, py) == (covered(a, scale, px, py) || covered(b, scale, px, py)),
{
    let n = a + b;
    if covered(a, scale, px, py) {
        let k = choose|k: int|
            0 <= k < a.len() && #[trigger] a[k].0 <= px < a[k].0 + scale && a[k].1 <= py < a[k].1 + scale;
        assert(n[k] == a[k]);
    }
    if covered(b, scale, px, py) {
        let k = choose|k: int|
            0 <= k < b.len() && #[trigger] b[k].0 <= px < b[k].0 + scale && b[k].1 <= py < b[k].1 + scale;
        assert(n[a.len() + k] == b[k]);
    }
    if covered(n, scale, px, py) {
        let k = choose|k: int|
            0 <= k < n.len() && #[trigger] n[k].0 <= px < n[k].0 + scale && n[k].1 <= py < n[k].1 + scale;
        if k < a.len() {
            assert(n[k] == a[k]);
        } else {
            assert(n[k] == b[k - a.len()]);
        }
    }
}

/// The pixel that byte `b` of a frame `width` pixels wide belongs to.
proof fn lemma_pixel_of_byte(b: int, width: int, px: int, py: int)
    requires
        0 <= b,
        0 < width,
        0 <= px < width,
        0 <= py,
    ensures
        (py * width + px) * 4 <= b < (py * width + px) * 4 + 4 <==> ((b / 4) % width == px && (b / 4) / width
            == py),
{
    let p = b / 4;
    assert(0 <= p);
    vstd::arithmetic::div_mod::lemma_fundamental_div_mod(b, 4);
    vstd::arithmetic::div_mod::lemma_fundamental_div_mod(p, width);
    vstd::arithmetic::div_mod::lemma_mod_bound(p, width);
    if (p % width == px && p / width == py) {
        assert(p == py * width + px) by (nonlinear_arith)
            requires
                p == width * (p / width) + p % width,
                p % width == px,
                p / width == py,
        ;
    }
    if (py * width + px) * 4 <= b < (py * width + px) * 4 + 4 {
        assert(p == py * width + px);
        vstd::arithmetic::div_mod::lemma_fundamental_div_mod_converse(p, width, py, px);
    }
}

/// The column of the pixel that byte `b` of a frame `width` pixels wide
/// belongs to.
pub open spec fn pixel_x(b: int, width: u32) -> int {
    (b / 4) % (width as int)
}

/// The row of the pixel that byte `b` belongs to.
pub open spec fn pixel_y(b: int, width: u32) -> int {
    (b / 4) / (width as int)
}

/// Whether byte `b` of the frame lies in the square of `scale` pixels at
/// (`x0`, `y0`), in its rows above `y0 + rows` or in row `y0 + rows` left
/// of `x0 + cols`.
pub open spec fn in_square_part(b: int, width: u32, height: u32, x0: int, y0: int, scale: int, rows: int, cols: int) -> bool {
    &&& b < width * height * 4
    &&& x0 <= pixel_x(b, width) < x0 + scale
    &&& y0 <= pixel_y(b, width)
    &&& (pixel_y(b, width) < y0 + rows || (pixel_y(b, width) == y0 + rows && pixel_x(b, width) < x0 + cols))
}

/// Paints the square of `scale` pixels at (`x0`, `y0`) white, as far as it
/// lies in the frame.
fn fill_square(pixels: &mut [u8], width: u32, height: u32, x0: u32, y0: u32, scale: u32)
    requires
        width * height * 4 <= old(pixels)@.len(),
        width * height * 4 <= u32::MAX,
        x0 + scale <= u32::MAX,
        y0 + scale <= u32::MAX,
    ensures
        final(pixels)@.len() == old(pixels)@.len(),
        forall|b: int|
            0 <= b < old(pixels)@.len() ==> #[trigger] final(pixels)@[b] == if in_square_part(
                b,
                width,
                height,
                x0 as int,
                y0 as int,
                scale as int,
                scale as int,
                0,
            ) {
                255u8
            } else {
                old(pixels)@[b]
            },
{
    let ghost start = pixels@;
    let mut py: u32 = 0;
    while py < scale
        invariant
            py <= scale,
            start == old(pixels)@,
            pixels@.len() == start.len(),
            width * height * 4 <= start.len(),
            width * height * 4 <= u32::MAX,
            x0 + scale <= u32::MAX,
            y0 + scale <= u32::MAX,
            forall|b: int|
                0 <= b < start.len() ==> #[trigger] pixels@[b] == if in_square_part(
                    b,
                    width,
                    height,
                    x0 as int,
                    y0 as int,
                    scale as int,
                    py as int,
                    0,
                ) {
                    255u8
                } else {
                    start[b]
                },
        decreases scale - py,
    {
        let mut px: u32 = 0;
        while px < scale
            invariant
                px <= scale,
                py < scale,
                start == old(pixels)@,
                pixels@.len() == start.len(),
                width * height * 4 <= start.len(),
                width * height * 4 <= u32::MAX,
                x0 + scale <= u32::MAX,
                y0 + scale <= u32::MAX,
                forall|b: int|
                    0 <= b < start.len() ==> #[trigger] pixels@[b] == if in_square_part(
                        b,
                        width,
                        height,
                        x0 as int,
                        y0 as int,
                        scale as int,
                        py as int,
                        px as int,
                    ) {
                        255u8
                    } else {
                        start[b]
                    },
            decreases scale - px,
        {
            let out_x = x0 + px;
            let out_y = y0 + py;
            let ghost before = pixels@;
            if out_x < width && out_y < height {
                assert((out_y * width + out_x) * 4 + 4 <= width * height * 4) by (nonlinear_arith)
                    requires
                        out_x < width,
                        out_y < height,
                ;
                let offset = ((out_y * width + out_x) * 4) as usize;
                pixels[offset] = 255;
                pixels[offset + 1] = 255;
                pixels[offset + 2] = 255;
                pixels[offset + 3] = 255;
                assert forall|b: int| 0 <= b < start.len() implies #[trigger] pixels@[b] == if in_square_part(
                    b,
                    width,
                    height,
                    x0 as int,
                    y0 as int,
                    scale as int,
                    py as int,
                    px + 1,
                ) {
                    255u8
                } else {
                    start[b]
                } by {
                    lemma_pixel_of_byte(b, width as int, out_x as int, out_y as int);
                    if offset <= b < offset + 4 {
                        assert(b < width * height * 4);
                    } else {
                        assert(pixels@[b] == before[b]);
                    }
                }
            } else {
                assert forall|b: int| 0 <= b < start.len() implies #[trigger] pixels@[b] == if in_square_part(
                    b,
                    width,
                    height,
                    x0 as int,
                    y0 as int,
                    scale as int,
                    py as int,
                    px + 1,
                ) {
                    255u8
                } else {
                    start[b]
                } by {
                    if b < width * height * 4 {
                        assert(width > 0);
                        vstd::arithmetic::div_mod::lemma_mod_bound(b / 4, width as int);
                        assert((b / 4) / (width as int) < height) by (nonlinear_arith)
                            requires
                                0 <= b < width * height * 4,
                                width > 0,
                        ;
                    }
                }
            }
            px = px + 1;
        }
        assert forall|b: int| 0 <= b < start.len() implies #[trigger] pixels@[b] == if in_square_part(
            b,
            width,
            height,
            x0 as int,
            y0 as int,
            scale as int,
            py + 1,
            0,
        ) {
            255u8
        } else {
            start[b]
        } by {
            if b < width * height * 4 {
                vstd::arithmetic::div_mod::lemma_mod_bound(b / 4, width as int);
            }
        }
        py = py + 1;
    }
}

/// Whether `i` is the first position of `ch` among the glyph characters.
proof fn lemma_glyph_of(ch: char, i: int)
    requires
        0 <= i < glyph_chars().len(),
        glyph_chars()[i] == ch,
        forall|j: int| 0 <= j < i ==> glyph_chars()[j] != ch,
    ensures
        glyph_of(ch) == Some(i),
{
    let k = choose|k: int|
        0 <= k < glyph_chars().len() && glyph_chars()[k] == ch && forall|j: int|
            0 <= j < k ==> glyph_chars()[j] != ch;
    if k < i {
        assert(glyph_chars()[k] != ch);
    } else if k > i {
        assert(glyph_chars()[i] != ch);
    }
}

/// Whether byte `b` lies in one of the squares at `cells`, as
/// `in_square_part` and `painted` take it.
proof fn lemma_paint_square(
    b: int,
    width: u32,
    height: u32,
    cells: Seq<(int, int)>,
    x0: int,
    y0: int,
    scale: int,
)
    requires
        0 <= b,
        scale >= 0,
    ensures
        painted(b, width, height, cells.push((x0, y0)), scale) == (painted(b, width, height, cells, scale)
            || in_square_part(b, width, height, x0, y0, scale, scale, 0)),
{
    lemma_covered_push(cells, (x0, y0), scale, pixel_x(b, width), pixel_y(b, width));
}

/// Paints glyph `g` with its top-left corner at (`x`, 8), each of its
/// pixels a square of `scale` screen pixels.
fn draw_glyph(pixels: &mut [u8], width: u32, height: u32, g: usize, x: u32, scale: u32)
    requires
        width * height * 4 <= old(pixels)@.len(),
        width * height * 4 <= u32::MAX,
        x + 8 * scale <= u32::MAX,
        8 + 8 * scale <= u32::MAX,
    ensures
        final(pixels)@.len() == old(pixels)@.len(),
        forall|b: int|
            0 <= b < old(pixels)@.len() ==> #[trigger] final(pixels)@[b] == if painted(
                b,
                width,
                height,
                glyph_cells(g as int, x as int, scale as int, 64),
                scale as int,
            ) {
                255u8
            } else {
                old(pixels)@[b]
            },
{
    let ghost start = pixels@;
    let bitmap = glyph_bitmap_exec(g);
    assert(glyph_bitmap(g as int).len() == 8);
    let mut n: u32 = 0;
    while n < 64
        invariant
            n <= 64,
            start == old(pixels)@,
            pixels@.len() == start.len(),
            bitmap@ == glyph_bitmap(g as int),
            bitmap@.len() == 8,
            width * height * 4 <= start.len(),
            width * height * 4 <= u32::MAX,
            x + 8 * scale <= u32::MAX,
            8 + 8 * scale <= u32::MAX,
            forall|b: int|
                0 <= b < start.len() ==> #[trigger] pixels@[b] == if painted(
                    b,
                    width,
                    height,
                    glyph_cells(g as int, x as int, scale as int, n as nat),
                    scale as int,
                ) {
                    255u8
                } else {
                    start[b]
                },
        decreases 64 - n,
    {
        let gy = n / 8;
        let gx = n % 8;
        assert(gx * scale + scale <= 8 * scale && gy * scale + scale <= 8 * scale) by (nonlinear_arith)
            requires
                gx < 8,
                gy < 8,
        ;
        let row = bitmap[gy as usize];
        if row & (1u8 << (7 - gx)) != 0 {
            let ghost before = pixels@;
            let x0 = x + gx * scale;
            let y0 = 8 + gy * scale;
            fill_square(pixels, width, height, x0, y0, scale);
            assert forall|b: int| 0 <= b < start.len() implies #[trigger] pixels@[b] == if painted(
                b,
                width,
                height,
                glyph_cells(g as int, x as int, scale as int, (n + 1) as nat),
                scale as int,
            ) {
                255u8
            } else {
                start[b]
            } by {
                assert(before[b] == if painted(
                    b,
                    width,
                    height,
                    glyph_cells(g as int, x as int, scale as int, n as nat),
                    scale as int,
                ) {
                    255u8
                } else {
                    start[b]
                });
                lemma_paint_square(
                    b,
                    width,
                    height,
                    glyph_cells(g as int, x as int, scale as int, n as nat),
                    x0 as int,
                    y0 as int,
                    scale as int,
                );
            }
        }
        n = n + 1;
    }
}

/// The byte at `b` of a frame after the HUD text `text` is drawn over it.
pub open spec fn hud_byte(before: Seq<u8>, b: int, text: Option<Seq<char>>, width: u32, height: u32) -> u8 {
    match text {
        Some(t) => if painted(b, width, height, text_cells(t, 8, width as int, hud_scale(width)), hud_scale(width)) {
            255u8
        } else {
            before[b]
        },
        None => before[b],
    }
}

/// Draws the HUD text `text` (`None` where the HUD is off) in white over an
/// RGBA frame of `width` by `height` pixels: from the top-left corner at
/// (8, 8) on, each glyph pixel a square six screen pixels wide per 320 of
/// width (at least six), two pixels between glyphs and half a glyph's width
/// for a character without a glyph, stopping once the pen reaches the
/// right edge.
pub fn overlay_software_hud(pixels: &mut [u8], width: u32, height: u32, text: Option<&str>)
    requires
        width * height * 4 <= old(pixels)@.len(),
        width * height * 4 <= u32::MAX,
    ensures
        final(pixels)@.len() == old(pixels)@.len(),
        forall|b: int|
            0 <= b < old(pixels)@.len() ==> #[trigger] final(pixels)@[b] == hud_byte(
                old(pixels)@,
                b,
                match text {
                    Some(t) => Some(t@),
                    None => None,
                },
                width,
                height,
            ),
{
    let text = match text {
        Some(t) => t,
        None => {
            return;
        },
    };
    if height == 0 {
        assert(width * height * 4 == 0);
        return;
    }
    assert(width <= 0x4000_0000) by (nonlinear_arith)
        requires
            height >= 1,
            width * height * 4 <= u32::MAX,
    ;
    let ghost start = pixels@;
    let scale: u32 = (if width / 320 >= 1 {
        width / 320
    } else {
        1
    }) * 6;
    assert(scale == hud_scale(width));
    assert(scale <= 20_132_664);
    let glyph_width = 8 * scale;
    let ghost total = text_cells(text@, 8, width as int, scale as int);
    let ghost mut done: Seq<(int, int)> = seq![];
    let n = text.unicode_len();
    let mut x: u32 = 8;
    let mut k: usize = 0;
    let mut stopped = false;
    assert(text@.subrange(0, n as int) =~= text@);
    assert(done + total =~= total);
    while k < n && !stopped
        invariant
            k <= n,
            n == text@.len(),
            scale == hud_scale(width),
            scale <= 20_132_664,
            glyph_width == 8 * scale,
            width <= 0x4000_0000,
            !stopped ==> (x <= 8 || x < width),
            total == text_cells(text@, 8, width as int, scale as int),
            stopped ==> done == total,
            !stopped ==> total == done + text_cells(text@.subrange(k as int, n as int), x as int, width as int, scale as int),
            start == old(pixels)@,
            pixels@.len() == start.len(),
            width * height * 4 <= start.len(),
            width * height * 4 <= u32::MAX,
            forall|b: int|
                0 <= b < start.len() ==> #[trigger] pixels@[b] == if painted(b, width, height, done, scale as int) {
                    255u8
                } else {
                    start[b]
                },
        decreases n - k,
    {
        let ghost rest = text@.subrange(k as int, n as int);
        let c = text.get_char(k);
        let ghost old_x = x;
        let ghost done_before = done;
        proof {
            assert(rest[0] == c);
            assert(rest.subrange(1, rest.len() as int) =~= text@.subrange(k + 1, n as int));
        }
        let ghost here = match glyph_of(c) {
            Some(g) => glyph_cells(g, x as int, scale as int, 64),
            None => seq![],
        };
        match glyph_index(c) {
            Some(i) => {
                proof {
                    lemma_glyph_of(c, i as int);
                }
                let ghost before = pixels@;
                draw_glyph(pixels, width, height, i, x, scale);
                proof {
                    assert forall|b: int| 0 <= b < start.len() implies #[trigger] pixels@[b] == if painted(
                        b,
                        width,
                        height,
                        done + here,
                        scale as int,
                    ) {
                        255u8
                    } else {
                        start[b]
                    } by {
                        assert(before[b] == if painted(b, width, height, done, scale as int) {
                            255u8
                        } else {
                            start[b]
                        });
                        lemma_covered_concat(done, here, scale as int, pixel_x(b, width), pixel_y(b, width));
                    }
                    done = done + here;
                }
                x = x.saturating_add(glyph_width + 2);
            },
            None => {
                proof {
                    assert(done + here =~= done);
                    done = done + here;
                }
                x = x.saturating_add(glyph_width / 2);
            },
        }
        proof {
            assert(x as int == pen_after(old_x as int, c, scale as int));
            let tail = text_cells(text@.subrange(k + 1, n as int), x as int, width as int, scale as int);
            assert(text_cells(rest, old_x as int, width as int, scale as int) == if x >= width {
                here
            } else {
                here + tail
            });
            if x < width {
                assert(done_before + (here + tail) =~= done + tail);
            }
        }
        if x >= width {
            stopped = true;
        }
        k = k + 1;
    }
    proof {
        if !stopped {
            assert(text@.subrange(k as int, n as int) =~= Seq::<char>::empty());
            assert(done + seq![] =~= done);
        }
    }
}

} // verus!
