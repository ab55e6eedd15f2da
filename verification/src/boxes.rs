//! Box-drawing lines drawn as whole-pixel rectangles, so that lines meet the
//! neighbouring cells exactly whatever the font: straight lines, junctions
//! and half lines with light and heavy arms, dashed lines, and double lines.
//! Sizes are physical pixels; the window converts them to its own units.
use vstd::prelude::*;

verus! {

/// The largest cell side, in physical pixels, that the drawings handle.
pub const MAX_CELL_PIXELS: i64 = 65536;

/// A rectangle in physical pixels from the cell's top left corner.
#[derive(Clone, Copy, Debug, PartialEq, Eq, Structural)]
pub struct PixelRect {
    pub x: i64,
    pub y: i64,
    pub width: i64,
    pub height: i64,
}

/// A rectangle as four integers: left, top, width, height.
pub type RectView = (int, int, int, int);

pub open spec fn rect_view(r: PixelRect) -> RectView {
    (r.x as int, r.y as int, r.width as int, r.height as int)
}

pub open spec fn rects_view(s: Seq<PixelRect>) -> Seq<RectView> {
    s.map_values(|r: PixelRect| rect_view(r))
}

/// A cell of `w` by `h` pixels whose light strokes are `t` pixels thick.
pub open spec fn cell_ok(w: int, h: int, t: int) -> bool {
    1 <= w <= MAX_CELL_PIXELS && 1 <= h <= MAX_CELL_PIXELS && 1 <= t <= MAX_CELL_PIXELS
}

pub open spec fn max_of(a: int, b: int) -> int {
    if a >= b {
        a
    } else {
        b
    }
}

pub open spec fn min_of(a: int, b: int) -> int {
    if a <= b {
        a
    } else {
        b
    }
}

/// The part of a rectangle inside the cell, if it is not empty.
pub open spec fn clipped(w: int, h: int, x: int, y: int, width: int, height: int) -> Seq<RectView> {
    if width <= 0 || height <= 0 {
        Seq::empty()
    } else {
        let left = max_of(x, 0);
        let top = max_of(y, 0);
        let right = min_of(x + width, w);
        let bottom = min_of(y + height, h);
        if right > left && bottom > top {
            seq![(left, top, right - left, bottom - top)]
        } else {
            Seq::empty()
        }
    }
}

/// A horizontal stroke of `len` pixels from `x`, centred on row `y`.
pub open spec fn h_line(w: int, h: int, x: int, y: int, len: int, stroke: int) -> Seq<RectView> {
    if stroke <= 0 || len <= 0 {
        Seq::empty()
    } else {
        clipped(w, h, x, y - stroke / 2, len, stroke)
    }
}

/// A vertical stroke of `len` pixels from `y`, centred on column `x`.
pub open spec fn v_line(w: int, h: int, x: int, y: int, len: int, stroke: int) -> Seq<RectView> {
    if stroke <= 0 || len <= 0 {
        Seq::empty()
    } else {
        clipped(w, h, x - stroke / 2, y, stroke, len)
    }
}

/// A rectangle lies inside the cell and covers at least one pixel.
pub open spec fn within_cell(r: RectView, w: int, h: int) -> bool {
    0 <= r.0 && 0 <= r.1 && 0 < r.2 && 0 < r.3 && r.0 + r.2 <= w && r.1 + r.3 <= h
}

pub open spec fn all_within(s: Seq<RectView>, w: int, h: int) -> bool {
    forall|i: int| 0 <= i < s.len() ==> within_cell(#[trigger] s[i], w, h)
}

proof fn lemma_lines_within(w: int, h: int)
    ensures
        forall|x: int, y: int, width: int, height: int| all_within(#[trigger] clipped(w, h, x, y, width, height), w, h),
        forall|x: int, y: int, len: int, stroke: int| all_within(#[trigger] h_line(w, h, x, y, len, stroke), w, h),
        forall|x: int, y: int, len: int, stroke: int| all_within(#[trigger] v_line(w, h, x, y, len, stroke), w, h),
{
}

proof fn lemma_join_within(a: Seq<RectView>, b: Seq<RectView>, w: int, h: int)
    requires
        all_within(a, w, h),
        all_within(b, w, h),
    ensures
        all_within(a + b, w, h),
{
    assert forall|i: int| 0 <= i < (a + b).len() implies within_cell(#[trigger] (a + b)[i], w, h) by {
        if i < a.len() {
            assert((a + b)[i] == a[i]);
        } else {
            assert((a + b)[i] == b[i - a.len()]);
        }
    }
}

/// The weight of the left arm (0 none, 1 light, 2 heavy) of the line
/// characters U+2500–U+254B and then U+2574–U+257F, in code order.
pub const LEFT_ARM: [u8; 88] = [
    1, 2, 0, 0, 0, 0, 0, 0, 0, 0, 0, 0, 0, 0, 0, 0, 1, 2, 1, 2, 0, 0,
    0, 0, 1, 2, 1, 2, 0, 0, 0, 0, 0, 0, 0, 0, 1, 2, 1, 1, 1, 2, 2, 2,
    1, 2, 1, 2, 1, 2, 1, 2, 1, 2, 1, 2, 1, 2, 1, 2, 1, 2, 1, 2, 1, 1,
    1, 2, 1, 2, 1, 2, 2, 2, 1, 2, 1, 0, 0, 0, 2, 0, 0, 0, 1, 0, 2, 0,
];

/// The weight of the right arm, in the order of `LEFT_ARM`.
pub const RIGHT_ARM: [u8; 88] = [
    1, 2, 0, 0, 0, 0, 0, 0, 0, 0, 0, 0, 1, 2, 1, 2, 0, 0, 0, 0, 1, 2,
    1, 2, 0, 0, 0, 0, 1, 2, 1, 1, 1, 2, 2, 2, 0, 0, 0, 0, 0, 0, 0, 0,
    1, 1, 2, 2, 1, 1, 2, 2, 1, 1, 2, 2, 1, 1, 2, 2, 1, 1, 2, 2, 1, 1,
    1, 1, 2, 1, 2, 2, 2, 1, 2, 2, 0, 0, 1, 0, 0, 0, 2, 0, 2, 0, 1, 0,
];

/// The weight of the upper arm, in the order of `LEFT_ARM`.
pub const UP_ARM: [u8; 88] = [
    0, 0, 1, 2, 0, 0, 0, 0, 0, 0, 0, 0, 0, 0, 0, 0, 0, 0, 0, 0, 1, 1,
    2, 2, 1, 1, 2, 2, 1, 1, 2, 1, 2, 2, 1, 2, 1, 1, 2, 1, 2, 2, 1, 2,
    0, 0, 0, 0, 0, 0, 0, 0, 1, 1, 1, 1, 2, 2, 2, 2, 1, 1, 1, 1, 2, 1,
    2, 2, 2, 1, 1, 2, 1, 2, 2, 2, 0, 1, 0, 0, 0, 2, 0, 0, 0, 1, 0, 2,
];

/// The weight of the lower arm, in the order of `LEFT_ARM`.
pub const DOWN_ARM: [u8; 88] = [
    0, 0, 1, 2, 0, 0, 0, 0, 0, 0, 0, 0, 1, 1, 2, 2, 1, 1, 2, 2, 0, 0,
    0, 0, 0, 0, 0, 0, 1, 1, 1, 2, 2, 1, 2, 2, 1, 1, 1, 2, 2, 1, 2, 2,
    1, 1, 1, 1, 2, 2, 2, 2, 0, 0, 0, 0, 0, 0, 0, 0, 1, 1, 1, 1, 1, 2,
    2, 1, 1, 2, 2, 1, 2, 2, 2, 2, 0, 0, 0, 1, 0, 0, 0, 2, 0, 2, 0, 1,
];

/// A character drawn as straight light or heavy lines: U+2500–U+2503,
/// U+250C–U+254B and U+2574–U+257F.
pub open spec fn line_code(code: u32) -> bool {
    (0x2500 <= code <= 0x2503) || (0x250C <= code <= 0x254B) || (0x2574 <= code <= 0x257F)
}

/// Where a line character's arms are listed in the arm tables.
pub open spec fn arm_index(code: u32) -> int {
    if code <= 0x254B {
        code - 0x2500
    } else {
        code - 0x2574 + 76
    }
}

/// A line through the whole cell, light or heavy.
pub open spec fn full_line(w: int, h: int, t: int, horizontal: bool, heavy: bool) -> Seq<RectView> {
    let stroke = if heavy {
        2 * t
    } else {
        t
    };
    if horizontal {
        h_line(w, h, 0, h / 2, w, stroke)
    } else {
        v_line(w, h, w / 2, 0, h, stroke)
    }
}

/// Two arms along one axis: the same weight makes one stroke through the
/// cell; different weights overlap by a pixel where they meet, when the
/// crossing strokes leave no room between them.
pub open spec fn two_arms(
    horizontal: bool,
    w: int,
    h: int,
    center: int,
    extent: int,
    first: int,
    second: int,
    first_end: int,
    second_start: int,
) -> Seq<RectView> {
    let line = |from: int, len: int, stroke: int|
        if horizontal {
            h_line(w, h, from, center, len, stroke)
        } else {
            v_line(w, h, center, from, len, stroke)
        };
    if first <= 0 && second <= 0 {
        Seq::empty()
    } else if first == second {
        line(0, extent, first)
    } else if first_end + 1 >= second_start {
        line(0, first_end + 1, first) + line(max_of(second_start - 1, 0), extent, second)
    } else {
        line(0, first_end, first) + line(second_start, extent, second)
    }
}

/// The rectangles of a line character: its arms, light or heavy, meeting at
/// the cell's centre.
pub open spec fn line_rects(code: u32, w: int, h: int, t: int) -> Seq<RectView> {
    if code <= 0x2503 {
        full_line(w, h, t, code <= 0x2501, code % 2 == 1)
    } else {
        let i = arm_index(code);
        let left = LEFT_ARM[i] * t;
        let right = RIGHT_ARM[i] * t;
        let up = UP_ARM[i] * t;
        let down = DOWN_ARM[i] * t;
        let x = w / 2;
        let y = h / 2;
        let up_left = x - up / 2;
        let down_left = x - down / 2;
        let left_top = y - left / 2;
        let right_top = y - right / 2;
        two_arms(
            true,
            w,
            h,
            y,
            w,
            left,
            right,
            max_of(up_left + up, down_left + down),
            min_of(up_left, down_left),
        ) + two_arms(
            false,
            w,
            h,
            x,
            h,
            up,
            down,
            max_of(left_top + left, right_top + right),
            min_of(left_top, right_top),
        )
    }
}

/// Values the drawing arithmetic stays within.
pub open spec fn coord_ok(v: int) -> bool {
    -33554432 <= v <= 33554432
}

/// Values a clipped rectangle may start from.
pub open spec fn clip_ok(v: int) -> bool {
    -67108864 <= v <= 67108864
}

fn push_clipped(out: &mut Vec<PixelRect>, w: i64, h: i64, x: i64, y: i64, width: i64, height: i64)
    requires
        1 <= w <= MAX_CELL_PIXELS,
        1 <= h <= MAX_CELL_PIXELS,
        clip_ok(x as int),
        clip_ok(y as int),
        clip_ok(width as int),
        clip_ok(height as int),
    ensures
        rects_view(final(out)@) == rects_view(old(out)@) + clipped(w as int, h as int, x as int, y as int, width as int, height as int),
{
    let ghost before = rects_view(out@);
    if width <= 0 || height <= 0 {
        proof {
            assert(before + clipped(w as int, h as int, x as int, y as int, width as int, height as int) =~= before);
        }
        return;
    }
    let left = if x >= 0 {
        x
    } else {
        0
    };
    let top = if y >= 0 {
        y
    } else {
        0
    };
    let right = if x + width <= w {
        x + width
    } else {
        w
    };
    let bottom = if y + height <= h {
        y + height
    } else {
        h
    };
    if right > left && bottom > top {
        out.push(PixelRect { x: left, y: top, width: right - left, height: bottom - top });
    }
    proof {
        assert(rects_view(out@) =~= before + clipped(w as int, h as int, x as int, y as int, width as int, height as int));
    }
}

fn push_h_line(out: &mut Vec<PixelRect>, w: i64, h: i64, x: i64, y: i64, len: i64, stroke: i64)
    requires
        1 <= w <= MAX_CELL_PIXELS,
        1 <= h <= MAX_CELL_PIXELS,
        coord_ok(x as int),
        coord_ok(y as int),
        coord_ok(len as int),
        0 <= stroke <= 33554432,
    ensures
        rects_view(final(out)@) == rects_view(old(out)@) + h_line(w as int, h as int, x as int, y as int, len as int, stroke as int),
{
    if stroke <= 0 || len <= 0 {
        proof {
            assert(rects_view(out@) + h_line(w as int, h as int, x as int, y as int, len as int, stroke as int) =~= rects_view(out@));
        }
        return;
    }
    push_clipped(out, w, h, x, y - stroke / 2, len, stroke);
}

fn push_v_line(out: &mut Vec<PixelRect>, w: i64, h: i64, x: i64, y: i64, len: i64, stroke: i64)
    requires
        1 <= w <= MAX_CELL_PIXELS,
        1 <= h <= MAX_CELL_PIXELS,
        coord_ok(x as int),
        coord_ok(y as int),
        coord_ok(len as int),
        0 <= stroke <= 33554432,
    ensures
        rects_view(final(out)@) == rects_view(old(out)@) + v_line(w as int, h as int, x as int, y as int, len as int, stroke as int),
{
    if stroke <= 0 || len <= 0 {
        proof {
            assert(rects_view(out@) + v_line(w as int, h as int, x as int, y as int, len as int, stroke as int) =~= rects_view(out@));
        }
        return;
    }
    push_clipped(out, w, h, x - stroke / 2, y, stroke, len);
}

fn push_line(out: &mut Vec<PixelRect>, horizontal: bool, w: i64, h: i64, center: i64, from: i64, len: i64, stroke: i64)
    requires
        1 <= w <= MAX_CELL_PIXELS,
        1 <= h <= MAX_CELL_PIXELS,
        coord_ok(center as int),
        coord_ok(from as int),
        coord_ok(len as int),
        0 <= stroke <= 33554432,
    ensures
        rects_view(final(out)@) == rects_view(old(out)@) + (if horizontal {
            h_line(w as int, h as int, from as int, center as int, len as int, stroke as int)
        } else {
            v_line(w as int, h as int, center as int, from as int, len as int, stroke as int)
        }),
{
    if horizontal {
        push_h_line(out, w, h, from, center, len, stroke);
    } else {
        push_v_line(out, w, h, center, from, len, stroke);
    }
}

fn push_two_arms(
    out: &mut Vec<PixelRect>,
    horizontal: bool,
    w: i64,
    h: i64,
    center: i64,
    extent: i64,
    first: i64,
    second: i64,
    first_end: i64,
    second_start: i64,
)
    requires
        1 <= w <= MAX_CELL_PIXELS,
        1 <= h <= MAX_CELL_PIXELS,
        0 <= center <= MAX_CELL_PIXELS,
        1 <= extent <= MAX_CELL_PIXELS,
        0 <= first <= 16777216,
        0 <= second <= 16777216,
        -16777216 <= first_end <= 16777216,
        -16777216 <= second_start <= 16777216,
    ensures
        rects_view(final(out)@) == rects_view(old(out)@) + two_arms(
            horizontal,
            w as int,
            h as int,
            center as int,
            extent as int,
            first as int,
            second as int,
            first_end as int,
            second_start as int,
        ),
{
    let ghost before = rects_view(out@);
    if first <= 0 && second <= 0 {
        proof {
            assert(before + Seq::<RectView>::empty() =~= before);
        }
        return;
    }
    if first == second {
        push_line(out, horizontal, w, h, center, 0, extent, first);
        return;
    }
    if first_end + 1 >= second_start {
        let start = if second_start - 1 >= 0 {
            second_start - 1
        } else {
            0
        };
        push_line(out, horizontal, w, h, center, 0, first_end + 1, first);
        let ghost mid = rects_view(out@);
        push_line(out, horizontal, w, h, center, start, extent, second);
        proof {
            assert(rects_view(out@) =~= before + two_arms(
                horizontal,
                w as int,
                h as int,
                center as int,
                extent as int,
                first as int,
                second as int,
                first_end as int,
                second_start as int,
            ));
        }
    } else {
        push_line(out, horizontal, w, h, center, 0, first_end, first);
        push_line(out, horizontal, w, h, center, second_start, extent, second);
        proof {
            assert(rects_view(out@) =~= before + two_arms(
                horizontal,
                w as int,
                h as int,
                center as int,
                extent as int,
                first as int,
                second as int,
                first_end as int,
                second_start as int,
            ));
        }
    }
}

/// The stroke of an arm of this weight.
fn arm_stroke(weight: u8, t: i64) -> (r: i64)
    requires
        1 <= t <= MAX_CELL_PIXELS,
    ensures
        r == weight * t,
        0 <= r <= 16711680,
{
    let a = weight as i64;
    proof {
        assert(0 <= a * t <= 255 * 65536) by (nonlinear_arith)
            requires
                0 <= a <= 255,
                1 <= t <= 65536,
        ;
    }
    a * t
}

/// The rectangles of a line character.
fn line_drawing(code: u32, w: i64, h: i64, t: i64) -> (r: Vec<PixelRect>)
    requires
        cell_ok(w as int, h as int, t as int),
        line_code(code),
    ensures
        rects_view(r@) == line_rects(code, w as int, h as int, t as int),
{
    let mut out: Vec<PixelRect> = Vec::new();
    if code <= 0x2503 {
        let stroke = if code % 2 == 1 {
            2 * t
        } else {
            t
        };
        if code <= 0x2501 {
            push_h_line(&mut out, w, h, 0, h / 2, w, stroke);
        } else {
            push_v_line(&mut out, w, h, w / 2, 0, h, stroke);
        }
        proof {
            assert(rects_view(out@) =~= line_rects(code, w as int, h as int, t as int));
        }
        return out;
    }
    let i: usize = if code <= 0x254B {
        (code - 0x2500) as usize
    } else {
        (code - 0x2574 + 76) as usize
    };
    let left = arm_stroke(LEFT_ARM[i], t);
    let right = arm_stroke(RIGHT_ARM[i], t);
    let up = arm_stroke(UP_ARM[i], t);
    let down = arm_stroke(DOWN_ARM[i], t);
    let x = w / 2;
    let y = h / 2;
    let up_left = x - up / 2;
    let down_left = x - down / 2;
    let left_top = y - left / 2;
    let right_top = y - right / 2;
    let first_end = if up_left + up >= down_left + down {
        up_left + up
    } else {
        down_left + down
    };
    let second_start = if up_left <= down_left {
        up_left
    } else {
        down_left
    };
    push_two_arms(&mut out, true, w, h, y, w, left, right, first_end, second_start);
    let ghost mid = rects_view(out@);
    let top_end = if left_top + left >= right_top + right {
        left_top + left
    } else {
        right_top + right
    };
    let bottom_start = if left_top <= right_top {
        left_top
    } else {
        right_top
    };
    push_two_arms(&mut out, false, w, h, x, h, up, down, top_end, bottom_start);
    proof {
        assert(rects_view(out@) =~= line_rects(code, w as int, h as int, t as int));
    }
    out
}

/// A dashed line character: U+2504–U+250B and U+254C–U+254F.
pub open spec fn dash_code(code: u32) -> bool {
    (0x2504 <= code <= 0x250B) || (0x254C <= code <= 0x254F)
}

/// Whether a dashed line is heavy.
pub open spec fn heavy_dash(code: u32) -> bool {
    code == 0x2505 || code == 0x2507 || code == 0x2509 || code == 0x250B || code == 0x254D || code == 0x254F
}

/// Whether a dashed line runs across, and how many gaps break it.
pub open spec fn dash_layout(code: u32) -> (bool, int) {
    if code == 0x2504 || code == 0x2505 {
        (true, 2)
    } else if code == 0x2506 || code == 0x2507 {
        (false, 2)
    } else if code == 0x2508 || code == 0x2509 {
        (true, 3)
    } else if code == 0x250A || code == 0x250B {
        (false, 3)
    } else if code == 0x254C || code == 0x254D {
        (true, 1)
    } else {
        (false, 1)
    }
}

/// The first `n` dashes of a dashed line: dash `k` starts at
/// `k * (dash + gap)`, no further than the line's extent.
pub open spec fn dash_run(
    w: int,
    h: int,
    horizontal: bool,
    extent: int,
    gap: int,
    dash: int,
    stroke: int,
    n: nat,
) -> Seq<RectView>
    decreases n,
{
    if n == 0 {
        Seq::empty()
    } else {
        let k = n - 1;
        let start = min_of(k * (dash + gap), extent);
        dash_run(w, h, horizontal, extent, gap, dash, stroke, (n - 1) as nat) + if horizontal {
            h_line(w, h, start, h / 2, dash, stroke)
        } else {
            v_line(w, h, w / 2, start, dash, stroke)
        }
    }
}

/// The gap between dashes: an eighth of the extent, at least a pixel.
pub open spec fn dash_gap(extent: int) -> int {
    max_of(extent / 8, 1)
}

/// The length of a dash: what is left of the extent shared by the dashes,
/// at least a pixel.
pub open spec fn dash_len(extent: int, gaps: int) -> int {
    let rest = extent - dash_gap(extent) * gaps;
    if rest > 0 {
        max_of(rest / (gaps + 1), 1)
    } else {
        1
    }
}

/// The rectangles of a dashed line character.
pub open spec fn dash_rects(code: u32, w: int, h: int, t: int) -> Seq<RectView> {
    let stroke = if heavy_dash(code) {
        2 * t
    } else {
        t
    };
    let (horizontal, gaps) = dash_layout(code);
    let extent = if horizontal {
        w
    } else {
        h
    };
    dash_run(w, h, horizontal, extent, dash_gap(extent), dash_len(extent, gaps), stroke, (gaps + 1) as nat)
}

/// The rectangles of a dashed line character.
fn dashes(code: u32, w: i64, h: i64, t: i64) -> (r: Vec<PixelRect>)
    requires
        cell_ok(w as int, h as int, t as int),
        dash_code(code),
    ensures
        rects_view(r@) == dash_rects(code, w as int, h as int, t as int),
{
    let heavy = code == 0x2505 || code == 0x2507 || code == 0x2509 || code == 0x250B || code == 0x254D || code
        == 0x254F;
    let stroke = if heavy {
        2 * t
    } else {
        t
    };
    let (horizontal, gaps): (bool, i64) = if code == 0x2504 || code == 0x2505 {
        (true, 2)
    } else if code == 0x2506 || code == 0x2507 {
        (false, 2)
    } else if code == 0x2508 || code == 0x2509 {
        (true, 3)
    } else if code == 0x250A || code == 0x250B {
        (false, 3)
    } else if code == 0x254C || code == 0x254D {
        (true, 1)
    } else {
        (false, 1)
    };
    let extent = if horizontal {
        w
    } else {
        h
    };
    let gap = if extent / 8 >= 1 {
        extent / 8
    } else {
        1
    };
    proof {
        assert(0 <= gap * gaps <= 3 * 65536) by (nonlinear_arith)
            requires
                1 <= gap <= 65536,
                1 <= gaps <= 3,
        ;
    }
    let rest = extent - gap * gaps;
    let dash = if rest > 0 {
        if rest / (gaps + 1) >= 1 {
            rest / (gaps + 1)
        } else {
            1
        }
    } else {
        1
    };
    let mut out: Vec<PixelRect> = Vec::new();
    let mut k: i64 = 0;
    while k <= gaps
        invariant
            1 <= gaps <= 3,
            0 <= k <= gaps + 1,
            cell_ok(w as int, h as int, t as int),
            extent == (if horizontal {
                w
            } else {
                h
            }),
            1 <= gap <= extent,
            1 <= dash <= extent,
            stroke == (if heavy_dash(code) {
                2 * t
            } else {
                t as int
            }),
            rects_view(out@) == dash_run(
                w as int,
                h as int,
                horizontal,
                extent as int,
                gap as int,
                dash as int,
                stroke as int,
                k as nat,
            ),
        decreases gaps + 1 - k,
    {
        proof {
            assert(0 <= k * (dash + gap) <= 4 * 131072) by (nonlinear_arith)
                requires
                    0 <= k <= 4,
                    2 <= dash + gap <= 131072,
            ;
        }
        let start = if k * (dash + gap) <= extent {
            k * (dash + gap)
        } else {
            extent
        };
        if horizontal {
            push_h_line(&mut out, w, h, start, h / 2, dash, stroke);
        } else {
            push_v_line(&mut out, w, h, w / 2, start, dash, stroke);
        }
        k += 1;
    }
    proof {
        assert(gap == dash_gap(extent as int));
        assert(dash == dash_len(extent as int, gaps as int));
        assert(dash_layout(code) == (horizontal, gaps as int));
    }
    out
}

/// A double line character: U+2550–U+256C.
pub open spec fn double_code(code: u32) -> bool {
    0x2550 <= code <= 0x256C
}

/// Double line characters whose vertical arms are a single centre line.
pub open spec fn single_vertical(code: u32) -> bool {
    code == 0x2552 || code == 0x2555 || code == 0x2558 || code == 0x255B || code == 0x255E || code == 0x2561
        || code == 0x2564 || code == 0x2567 || code == 0x256A
}

/// Double line characters whose horizontal arms are a single centre line.
pub open spec fn single_horizontal(code: u32) -> bool {
    code == 0x2553 || code == 0x2556 || code == 0x2559 || code == 0x255C || code == 0x255F || code == 0x2562
        || code == 0x2565 || code == 0x2568 || code == 0x256B
}

/// The two parallel lines of a double line around `center`: one pixel
/// outside the light stroke on each side, within the cell; or the centre
/// twice for a single line.
pub open spec fn parallels(single: bool, center: int, t: int, extent: int) -> (int, int) {
    if single {
        (center, center)
    } else {
        let low = center - t / 2;
        (max_of(low - 1, 0), min_of(low + t + 1, extent))
    }
}

/// The lengths of the upper and lower strokes reaching in from the left
/// edge, given the centre column and the right edges of the left and right
/// vertical lines.
pub open spec fn double_left(code: u32, xc: int, left_end: int, right_end: int) -> (int, int) {
    if code == 0x2550 || code == 0x256B {
        (xc, xc)
    } else if 0x2555 <= code <= 0x2557 {
        (right_end, left_end)
    } else if 0x255B <= code <= 0x255D {
        (left_end, right_end)
    } else if (0x2561 <= code <= 0x2563) || code == 0x256A || code == 0x256C {
        (left_end, left_end)
    } else if 0x2564 <= code <= 0x2568 {
        (xc, left_end)
    } else if code == 0x2569 {
        (left_end, xc)
    } else {
        (0, 0)
    }
}

/// Where the upper and lower strokes reaching out to the right edge start,
/// and their length, given the left edges of the vertical lines.
pub open spec fn double_right(code: u32, xc: int, w: int, left_start: int, right_start: int) -> (int, int, int) {
    if code == 0x2550 || code == 0x2565 || code == 0x256B {
        (xc, xc, w)
    } else if (0x2552 <= code <= 0x2554) || code == 0x2568 {
        (left_start, right_start, w)
    } else if 0x2558 <= code <= 0x255A {
        (right_start, left_start, w)
    } else if (0x255E <= code <= 0x2560) || code == 0x256A || code == 0x256C {
        (right_start, right_start, w)
    } else if code == 0x2564 || code == 0x2566 {
        (xc, right_start, w)
    } else if code == 0x2567 || code == 0x2569 {
        (right_start, xc, w)
    } else {
        (0, 0, 0)
    }
}

/// The lengths of the left and right strokes reaching down from the top
/// edge, given the centre row and the bottom edges of the two horizontal
/// lines.
pub open spec fn double_top(code: u32, yc: int, top_end: int, bottom_end: int) -> (int, int) {
    if code == 0x2551 || code == 0x256A {
        (yc, yc)
    } else if (0x2558 <= code <= 0x255C) || code == 0x2568 {
        (bottom_end, top_end)
    } else if code == 0x255D {
        (top_end, bottom_end)
    } else if 0x255E <= code <= 0x2560 {
        (yc, top_end)
    } else if 0x2561 <= code <= 0x2563 {
        (top_end, yc)
    } else if code == 0x2567 || code == 0x2569 || code == 0x256B || code == 0x256C {
        (top_end, top_end)
    } else {
        (0, 0)
    }
}

/// Where the left and right strokes reaching down to the bottom edge start,
/// and their length, given the top edges of the horizontal lines.
pub open spec fn double_bottom(code: u32, yc: int, h: int, top_start: int, bottom_start: int) -> (int, int, int) {
    if code == 0x2551 || code == 0x256A {
        (yc, yc, h)
    } else if 0x2552 <= code <= 0x2554 {
        (top_start, bottom_start, h)
    } else if 0x2555 <= code <= 0x2557 {
        (bottom_start, top_start, h)
    } else if 0x255E <= code <= 0x2560 {
        (yc, bottom_start, h)
    } else if 0x2561 <= code <= 0x2563 {
        (bottom_start, yc, h)
    } else if (0x2564 <= code <= 0x2566) || code == 0x256B || code == 0x256C {
        (bottom_start, bottom_start, h)
    } else {
        (0, 0, 0)
    }
}

/// The rectangles of a double line character: up to two strokes per side,
/// light, joined where the lines meet.
pub open spec fn double_rects(code: u32, w: int, h: int, t: int) -> Seq<RectView> {
    let xc = w / 2;
    let yc = h / 2;
    let (vl, vr) = parallels(single_vertical(code), xc, t, w);
    let (ht, hb) = parallels(single_horizontal(code), yc, t, h);
    let (top_left, bottom_left) = double_left(code, xc, vl - t / 2 + t, vr - t / 2 + t);
    let (top_right_x, bottom_right_x, right_len) = double_right(code, xc, w, vl - t / 2, vr - t / 2);
    let (left_top, right_top) = double_top(code, yc, ht - t / 2 + t, hb - t / 2 + t);
    let (left_bottom_y, right_bottom_y, bottom_len) = double_bottom(code, yc, h, ht - t / 2, hb - t / 2);
    h_line(w, h, 0, ht, top_left, t) + h_line(w, h, 0, hb, bottom_left, t) + h_line(
        w,
        h,
        top_right_x,
        ht,
        right_len,
        t,
    ) + h_line(w, h, bottom_right_x, hb, right_len, t) + v_line(w, h, vl, 0, left_top, t) + v_line(
        w,
        h,
        vr,
        0,
        right_top,
        t,
    ) + v_line(w, h, vl, left_bottom_y, bottom_len, t) + v_line(w, h, vr, right_bottom_y, bottom_len, t)
}

fn parallels_of(single: bool, center: i64, t: i64, extent: i64) -> (r: (i64, i64))
    requires
        0 <= center <= MAX_CELL_PIXELS,
        1 <= t <= MAX_CELL_PIXELS,
        1 <= extent <= MAX_CELL_PIXELS,
    ensures
        (r.0 as int, r.1 as int) == parallels(single, center as int, t as int, extent as int),
        0 <= r.0 <= MAX_CELL_PIXELS,
        0 <= r.1 <= MAX_CELL_PIXELS,
{
    if single {
        (center, center)
    } else {
        let low = center - t / 2;
        let a = if low - 1 >= 0 {
            low - 1
        } else {
            0
        };
        let b = if low + t + 1 <= extent {
            low + t + 1
        } else {
            extent
        };
        (a, b)
    }
}

fn double_left_of(code: u32, xc: i64, left_end: i64, right_end: i64) -> (r: (i64, i64))
    ensures
        (r.0 as int, r.1 as int) == double_left(code, xc as int, left_end as int, right_end as int),
{
    if code == 0x2550 || code == 0x256B {
        (xc, xc)
    } else if 0x2555 <= code && code <= 0x2557 {
        (right_end, left_end)
    } else if 0x255B <= code && code <= 0x255D {
        (left_end, right_end)
    } else if (0x2561 <= code && code <= 0x2563) || code == 0x256A || code == 0x256C {
        (left_end, left_end)
    } else if 0x2564 <= code && code <= 0x2568 {
        (xc, left_end)
    } else if code == 0x2569 {
        (left_end, xc)
    } else {
        (0, 0)
    }
}

fn double_right_of(code: u32, xc: i64, w: i64, left_start: i64, right_start: i64) -> (r: (i64, i64, i64))
    ensures
        (r.0 as int, r.1 as int, r.2 as int) == double_right(code, xc as int, w as int, left_start as int, right_start as int),
{
    if code == 0x2550 || code == 0x2565 || code == 0x256B {
        (xc, xc, w)
    } else if (0x2552 <= code && code <= 0x2554) || code == 0x2568 {
        (left_start, right_start, w)
    } else if 0x2558 <= code && code <= 0x255A {
        (right_start, left_start, w)
    } else if (0x255E <= code && code <= 0x2560) || code == 0x256A || code == 0x256C {
        (right_start, right_start, w)
    } else if code == 0x2564 || code == 0x2566 {
        (xc, right_start, w)
    } else if code == 0x2567 || code == 0x2569 {
        (right_start, xc, w)
    } else {
        (0, 0, 0)
    }
}

fn double_top_of(code: u32, yc: i64, top_end: i64, bottom_end: i64) -> (r: (i64, i64))
    ensures
        (r.0 as int, r.1 as int) == double_top(code, yc as int, top_end as int, bottom_end as int),
{
    if code == 0x2551 || code == 0x256A {
        (yc, yc)
    } else if (0x2558 <= code && code <= 0x255C) || code == 0x2568 {
        (bottom_end, top_end)
    } else if code == 0x255D {
        (top_end, bottom_end)
    } else if 0x255E <= code && code <= 0x2560 {
        (yc, top_end)
    } else if 0x2561 <= code && code <= 0x2563 {
        (top_end, yc)
    } else if code == 0x2567 || code == 0x2569 || code == 0x256B || code == 0x256C {
        (top_end, top_end)
    } else {
        (0, 0)
    }
}

fn double_bottom_of(code: u32, yc: i64, h: i64, top_start: i64, bottom_start: i64) -> (r: (i64, i64, i64))
    ensures
        (r.0 as int, r.1 as int, r.2 as int) == double_bottom(code, yc as int, h as int, top_start as int, bottom_start as int),
{
    if code == 0x2551 || code == 0x256A {
        (yc, yc, h)
    } else if 0x2552 <= code && code <= 0x2554 {
        (top_start, bottom_start, h)
    } else if 0x2555 <= code && code <= 0x2557 {
        (bottom_start, top_start, h)
    } else if 0x255E <= code && code <= 0x2560 {
        (yc, bottom_start, h)
    } else if 0x2561 <= code && code <= 0x2563 {
        (bottom_start, yc, h)
    } else if (0x2564 <= code && code <= 0x2566) || code == 0x256B || code == 0x256C {
        (bottom_start, bottom_start, h)
    } else {
        (0, 0, 0)
    }
}

/// The rectangles of a double line character.
fn double_lines(code: u32, w: i64, h: i64, t: i64) -> (r: Vec<PixelRect>)
    requires
        cell_ok(w as int, h as int, t as int),
        double_code(code),
    ensures
        rects_view(r@) == double_rects(code, w as int, h as int, t as int),
{
    let xc = w / 2;
    let yc = h / 2;
    let sv = code == 0x2552 || code == 0x2555 || code == 0x2558 || code == 0x255B || code == 0x255E || code
        == 0x2561 || code == 0x2564 || code == 0x2567 || code == 0x256A;
    let sh = code == 0x2553 || code == 0x2556 || code == 0x2559 || code == 0x255C || code == 0x255F || code
        == 0x2562 || code == 0x2565 || code == 0x2568 || code == 0x256B;
    let (vl, vr) = parallels_of(sv, xc, t, w);
    let (ht, hb) = parallels_of(sh, yc, t, h);
    let half = t / 2;
    let (top_left, bottom_left) = double_left_of(code, xc, vl - half + t, vr - half + t);
    let (top_right_x, bottom_right_x, right_len) = double_right_of(code, xc, w, vl - half, vr - half);
    let (left_top, right_top) = double_top_of(code, yc, ht - half + t, hb - half + t);
    let (left_bottom_y, right_bottom_y, bottom_len) = double_bottom_of(code, yc, h, ht - half, hb - half);
    let mut out: Vec<PixelRect> = Vec::new();
    push_h_line(&mut out, w, h, 0, ht, top_left, t);
    push_h_line(&mut out, w, h, 0, hb, bottom_left, t);
    push_h_line(&mut out, w, h, top_right_x, ht, right_len, t);
    push_h_line(&mut out, w, h, bottom_right_x, hb, right_len, t);
    push_v_line(&mut out, w, h, vl, 0, left_top, t);
    push_v_line(&mut out, w, h, vr, 0, right_top, t);
    push_v_line(&mut out, w, h, vl, left_bottom_y, bottom_len, t);
    push_v_line(&mut out, w, h, vr, right_bottom_y, bottom_len, t);
    proof {
        assert(rects_view(out@) =~= double_rects(code, w as int, h as int, t as int));
    }
    out
}

/// The light stroke of a cell `w` pixels wide: an eighth of the width,
/// rounded, at least a pixel.
pub fn light_stroke(w: i64) -> (t: i64)
    requires
        1 <= w <= MAX_CELL_PIXELS,
    ensures
        t == max_of((w + 4) / 8, 1),
        1 <= t <= w,
{
    if (w + 4) / 8 >= 1 {
        (w + 4) / 8
    } else {
        1
    }
}

/// A character this module draws as lines.
pub open spec fn box_line_code(code: u32) -> bool {
    line_code(code) || dash_code(code) || double_code(code)
}

/// The rectangles that draw a line character.
pub open spec fn box_rects(code: u32, w: int, h: int, t: int) -> Seq<RectView> {
    if line_code(code) {
        line_rects(code, w, h, t)
    } else if dash_code(code) {
        dash_rects(code, w, h, t)
    } else if double_code(code) {
        double_rects(code, w, h, t)
    } else {
        Seq::empty()
    }
}

/// The rectangles that draw a box-drawing line character in a cell of `w`
/// by `h` physical pixels whose light strokes are `t` pixels thick; `None`
/// for other characters and for drawings that come out empty, which the
/// font renders instead.
pub fn box_lines(code: u32, w: i64, h: i64, t: i64) -> (r: Option<Vec<PixelRect>>)
    requires
        cell_ok(w as int, h as int, t as int),
    ensures
        match r {
            Some(v) => box_line_code(code) && rects_view(v@) == box_rects(code, w as int, h as int, t as int)
                && v@.len() > 0,
            None => !box_line_code(code) || box_rects(code, w as int, h as int, t as int).len() == 0,
        },
{
    let rects = if (0x2500 <= code && code <= 0x2503) || (0x250C <= code && code <= 0x254B) || (0x2574 <= code
        && code <= 0x257F) {
        line_drawing(code, w, h, t)
    } else if (0x2504 <= code && code <= 0x250B) || (0x254C <= code && code <= 0x254F) {
        dashes(code, w, h, t)
    } else if 0x2550 <= code && code <= 0x256C {
        double_lines(code, w, h, t)
    } else {
        return None;
    };
    if rects.len() == 0 {
        None
    } else {
        Some(rects)
    }
}

proof fn lemma_two_arms_within(
    horizontal: bool,
    w: int,
    h: int,
    center: int,
    extent: int,
    first: int,
    second: int,
    first_end: int,
    second_start: int,
)
    ensures
        all_within(two_arms(horizontal, w, h, center, extent, first, second, first_end, second_start), w, h),
{
    lemma_lines_within(w, h);
    let line = |from: int, len: int, stroke: int|
        if horizontal {
            h_line(w, h, from, center, len, stroke)
        } else {
            v_line(w, h, center, from, len, stroke)
        };
    assert forall|from: int, len: int, stroke: int| all_within(#[trigger] line(from, len, stroke), w, h) by {
        if horizontal {
            assert(all_within(h_line(w, h, from, center, len, stroke), w, h));
        } else {
            assert(all_within(v_line(w, h, center, from, len, stroke), w, h));
        }
    }
    if first <= 0 && second <= 0 {
    } else if first == second {
        assert(all_within(line(0, extent, first), w, h));
    } else if first_end + 1 >= second_start {
        lemma_join_within(line(0, first_end + 1, first), line(max_of(second_start - 1, 0), extent, second), w, h);
    } else {
        lemma_join_within(line(0, first_end, first), line(second_start, extent, second), w, h);
    }
}

proof fn lemma_dash_run_within(
    w: int,
    h: int,
    horizontal: bool,
    extent: int,
    gap: int,
    dash: int,
    stroke: int,
    n: nat,
)
    ensures
        all_within(dash_run(w, h, horizontal, extent, gap, dash, stroke, n), w, h),
    decreases n,
{
    if n > 0 {
        lemma_lines_within(w, h);
        lemma_dash_run_within(w, h, horizontal, extent, gap, dash, stroke, (n - 1) as nat);
        let start = min_of((n - 1) * (dash + gap), extent);
        let last = if horizontal {
            h_line(w, h, start, h / 2, dash, stroke)
        } else {
            v_line(w, h, w / 2, start, dash, stroke)
        };
        assert(all_within(last, w, h));
        lemma_join_within(dash_run(w, h, horizontal, extent, gap, dash, stroke, (n - 1) as nat), last, w, h);
    }
}

/// Every rectangle of a line drawing lies inside its cell and covers at
/// least one pixel, so a drawing never spills into the neighbouring cells.
pub proof fn law_drawings_stay_inside_the_cell(code: u32, w: int, h: int, t: int)
    requires
        cell_ok(w, h, t),
    ensures
        all_within(box_rects(code, w, h, t), w, h),
{
    lemma_lines_within(w, h);
    if line_code(code) {
        if code <= 0x2503 {
        } else {
            let i = arm_index(code);
            let left = LEFT_ARM[i] * t;
            let right = RIGHT_ARM[i] * t;
            let up = UP_ARM[i] * t;
            let down = DOWN_ARM[i] * t;
            let x = w / 2;
            let y = h / 2;
            let up_left = x - up / 2;
            let down_left = x - down / 2;
            let left_top = y - left / 2;
            let right_top = y - right / 2;
            let a = two_arms(true, w, h, y, w, left, right, max_of(up_left + up, down_left + down), min_of(up_left, down_left));
            let b = two_arms(false, w, h, x, h, up, down, max_of(left_top + left, right_top + right), min_of(left_top, right_top));
            lemma_two_arms_within(true, w, h, y, w, left, right, max_of(up_left + up, down_left + down), min_of(up_left, down_left));
            lemma_two_arms_within(false, w, h, x, h, up, down, max_of(left_top + left, right_top + right), min_of(left_top, right_top));
            lemma_join_within(a, b, w, h);
        }
    } else if dash_code(code) {
        let stroke = if heavy_dash(code) {
            2 * t
        } else {
            t
        };
        let (horizontal, gaps) = dash_layout(code);
        let extent = if horizontal {
            w
        } else {
            h
        };
        lemma_dash_run_within(w, h, horizontal, extent, dash_gap(extent), dash_len(extent, gaps), stroke, (gaps + 1) as nat);
    } else if double_code(code) {
        let xc = w / 2;
        let yc = h / 2;
        let (vl, vr) = parallels(single_vertical(code), xc, t, w);
        let (ht, hb) = parallels(single_horizontal(code), yc, t, h);
        let (top_left, bottom_left) = double_left(code, xc, vl - t / 2 + t, vr - t / 2 + t);
        let (top_right_x, bottom_right_x, right_len) = double_right(code, xc, w, vl - t / 2, vr - t / 2);
        let (left_top, right_top) = double_top(code, yc, ht - t / 2 + t, hb - t / 2 + t);
        let (left_bottom_y, right_bottom_y, bottom_len) = double_bottom(code, yc, h, ht - t / 2, hb - t / 2);
        let s1 = h_line(w, h, 0, ht, top_left, t);
        let s2 = h_line(w, h, 0, hb, bottom_left, t);
        let s3 = h_line(w, h, top_right_x, ht, right_len, t);
        let s4 = h_line(w, h, bottom_right_x, hb, right_len, t);
        let s5 = v_line(w, h, vl, 0, left_top, t);
        let s6 = v_line(w, h, vr, 0, right_top, t);
        let s7 = v_line(w, h, vl, left_bottom_y, bottom_len, t);
        let s8 = v_line(w, h, vr, right_bottom_y, bottom_len, t);
        lemma_join_within(s1, s2, w, h);
        lemma_join_within(s1 + s2, s3, w, h);
        lemma_join_within(s1 + s2 + s3, s4, w, h);
        lemma_join_within(s1 + s2 + s3 + s4, s5, w, h);
        lemma_join_within(s1 + s2 + s3 + s4 + s5, s6, w, h);
        lemma_join_within(s1 + s2 + s3 + s4 + s5 + s6, s7, w, h);
        lemma_join_within(s1 + s2 + s3 + s4 + s5 + s6 + s7, s8, w, h);
    }
}

} // verus!
