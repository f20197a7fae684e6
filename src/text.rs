//! Text placement and metrics, from the font's metrics and the laid-out lines.
use vstd::prelude::*;
use vstd::string::StringSliceAdditionalSpecFns;
use crate::context::{Context2D, Shape, ShapeView, rendered};
use crate::geometry::{COORD_MAX, Rect, in_range};
use crate::state::{Baseline, TextAlign, Paint};

verus! {

/// The width text is laid out at when none is given (100,000 pixels): wide enough
/// for one line.
pub const GALLEY: i64 = 25600000;

/// The metrics of a font, relative to the alphabetic baseline (up is negative).
#[derive(Clone, Copy, Debug, PartialEq, Eq, Structural)]
pub struct FontMetrics {
    pub ascent: i64,
    pub descent: i64,
    pub cap_height: i64,
}

/// One laid-out line: its horizontal extent, its baseline, how far it reaches
/// above and below it, and the UTF-8 byte range of the text it covers (trailing
/// whitespace left out).
#[derive(Clone, Copy, Debug, PartialEq, Eq, Structural)]
pub struct LineMetrics {
    pub left: i64,
    pub width: i64,
    pub baseline: i64,
    pub ascent: i64,
    pub descent: i64,
    pub start_index: i64,
    pub end_index: i64,
}

pub open spec fn font_valid(m: FontMetrics) -> bool {
    in_range(m.ascent as int) && in_range(m.descent as int) && 0 <= m.cap_height <= COORD_MAX
}

pub open spec fn line_valid(l: LineMetrics) -> bool {
    in_range(l.left as int) && in_range(l.width as int) && in_range(l.baseline as int) && in_range(
        l.ascent as int,
    ) && in_range(l.descent as int) && in_range(l.start_index as int) && in_range(l.end_index as int)
}

/// How far a baseline lies below the alphabetic one.
pub open spec fn baseline_offset(m: FontMetrics, b: Baseline) -> int {
    match b {
        Baseline::Top => -m.ascent,
        Baseline::Hanging => m.cap_height as int,
        Baseline::Middle => m.cap_height / 2,
        Baseline::Alphabetic => 0,
        Baseline::Ideographic => -m.descent,
        Baseline::Bottom => -m.descent,
    }
}

/// How far an alignment moves text of the given width from its anchor.
pub open spec fn alignment_offset(a: TextAlign, width: int) -> int {
    match a {
        TextAlign::Left | TextAlign::Start => 0,
        TextAlign::Center => -(width / 2),
        TextAlign::Right | TextAlign::End => -width,
    }
}

pub fn baseline_offset_exec(m: &FontMetrics, b: Baseline) -> (r: i64)
    requires
        font_valid(*m),
    ensures
        r == baseline_offset(*m, b),
{
    match b {
        Baseline::Top => -m.ascent,
        Baseline::Hanging => m.cap_height,
        Baseline::Middle => m.cap_height / 2,
        Baseline::Alphabetic => 0,
        Baseline::Ideographic => -m.descent,
        Baseline::Bottom => -m.descent,
    }
}

pub fn alignment_offset_exec(a: TextAlign, width: i64) -> (r: i64)
    requires
        0 <= width <= 4 * COORD_MAX,
    ensures
        r == alignment_offset(a, width as int),
{
    match a {
        TextAlign::Left | TextAlign::Start => 0,
        TextAlign::Center => -(width / 2),
        TextAlign::Right | TextAlign::End => -width,
    }
}

/// The run-level figures: ascent and descent below the chosen baseline, then the
/// hanging, alphabetic and ideographic baselines relative to it.
pub open spec fn run_figures(m: FontMetrics, b: Baseline) -> Seq<int> {
    let offset = baseline_offset(m, b);
    let hang = baseline_offset(m, Baseline::Hanging) - offset;
    let norm = baseline_offset(m, Baseline::Alphabetic) - offset;
    let ideo = baseline_offset(m, Baseline::Ideographic) - offset;
    let ascent = norm - m.ascent;
    let descent = m.descent - norm;
    seq![ascent, descent, ascent, descent, hang, norm, ideo]
}

/// A line's box: `(left, top, right, bottom)`, its baseline measured from the first
/// line's, moved by the alignment and the baseline offset.
pub open spec fn line_box(l: LineMetrics, origin: int, align: TextAlign, offset: int) -> (int, int, int, int) {
    let baseline = l.baseline - origin;
    let left = l.left as int;
    let right = l.width - l.left;
    let dx = alignment_offset(align, right - left);
    (left + dx, baseline - l.ascent + offset, right + dx, baseline + l.descent + offset)
}

pub open spec fn box_empty(b: (int, int, int, int)) -> bool {
    !(b.0 < b.2 && b.1 < b.3)
}

/// The smallest box holding both; an empty box adds nothing.
pub open spec fn join(a: (int, int, int, int), b: (int, int, int, int)) -> (int, int, int, int) {
    if box_empty(b) {
        a
    } else if box_empty(a) {
        b
    } else {
        (
            if a.0 < b.0 { a.0 } else { b.0 },
            if a.1 < b.1 { a.1 } else { b.1 },
            if a.2 > b.2 { a.2 } else { b.2 },
            if a.3 > b.3 { a.3 } else { b.3 },
        )
    }
}

pub open spec fn union_upto(lines: Seq<LineMetrics>, n: int, origin: int, align: TextAlign, offset: int) -> (int, int, int, int)
    decreases n,
{
    if n <= 0 {
        (0, 0, 0, 0)
    } else {
        join(union_upto(lines, n - 1, origin, align, offset), line_box(lines[n - 1], origin, align, offset))
    }
}

/// Whether a byte starts a code point in UTF-8 (it is no continuation byte).
pub open spec fn is_lead(b: u8) -> bool {
    b < 0x80 || b >= 0xC0
}

/// The number of code points that start among the first `n` bytes.
pub open spec fn lead_count(bytes: Seq<u8>, n: int) -> int
    decreases n,
{
    if n <= 0 {
        0
    } else {
        lead_count(bytes, n - 1) + if is_lead(bytes[n - 1]) { 1int } else { 0int }
    }
}

/// The code-point index of a byte offset into UTF-8 text, the offset held to the
/// text's bounds.
pub open spec fn code_point_index(bytes: Seq<u8>, byte: int) -> int {
    lead_count(
        bytes,
        if byte < 0 {
            0
        } else if byte > bytes.len() {
            bytes.len() as int
        } else {
            byte
        },
    )
}

/// Code-point indices never decrease as the byte offset grows, and never pass the
/// number of code points in the text.
pub proof fn lemma_code_point_index_monotone(bytes: Seq<u8>, a: int, b: int)
    requires
        a <= b,
    ensures
        0 <= code_point_index(bytes, a) <= code_point_index(bytes, b) <= lead_count(bytes, bytes.len() as int),
{
    let ca = if a < 0 { 0 } else if a > bytes.len() { bytes.len() as int } else { a };
    let cb = if b < 0 { 0 } else if b > bytes.len() { bytes.len() as int } else { b };
    lemma_lead_count_monotone(bytes, 0, ca);
    lemma_lead_count_monotone(bytes, ca, cb);
    lemma_lead_count_monotone(bytes, cb, bytes.len() as int);
}

proof fn lemma_lead_count_monotone(bytes: Seq<u8>, a: int, b: int)
    requires
        0 <= a <= b,
    ensures
        lead_count(bytes, a) <= lead_count(bytes, b),
        lead_count(bytes, 0) == 0,
    decreases b - a,
{
    if a < b {
        lemma_lead_count_monotone(bytes, a, b - 1);
    }
}

fn code_point_index_exec(bytes: &[u8], byte: i64) -> (r: i64)
    requires
        bytes@.len() <= COORD_MAX,
    ensures
        r == code_point_index(bytes@, byte as int),
{
    let end: usize = if byte < 0 {
        0
    } else if byte as u64 > bytes.len() as u64 {
        bytes.len()
    } else {
        byte as usize
    };
    let mut count: i64 = 0;
    let mut i: usize = 0;
    while i < end
        invariant
            0 <= i <= end,
            end <= bytes@.len(),
            bytes@.len() <= COORD_MAX,
            0 <= count <= i,
            count == lead_count(bytes@, i as int),
        decreases end - i,
    {
        if bytes[i] < 0x80 || bytes[i] >= 0xC0 {
            count = count + 1;
        }
        i = i + 1;
    }
    count
}

pub open spec fn line_row(l: LineMetrics, origin: int, align: TextAlign, offset: int, bytes: Seq<u8>) -> Seq<int> {
    let b = line_box(l, origin, align, offset);
    seq![
        b.0,
        b.1,
        b.2 - b.0,
        b.3 - b.1,
        l.baseline - origin,
        code_point_index(bytes, l.start_index as int),
        code_point_index(bytes, l.end_index as int),
    ]
}

/// The rows `measure_text` gives: one for the whole run, then one per line. Empty
/// text, or text laid out in no lines, gives the run row alone.
pub open spec fn text_metrics(bytes: Seq<u8>, m: FontMetrics, b: Baseline, align: TextAlign, lines: Seq<LineMetrics>) -> Seq<Seq<int>> {
    if lines.len() == 0 || bytes.len() == 0 {
        seq![seq![0, 0, 0, 0, 0] + run_figures(m, b)]
    } else {
        let origin = lines[0].baseline as int;
        let offset = baseline_offset(m, b);
        let u = union_upto(lines, lines.len() as int, origin, align, offset);
        seq![seq![u.2 - u.0, u.0, u.2, -u.1, u.3] + run_figures(m, b)] + Seq::new(
            lines.len(),
            |i: int| line_row(lines[i], origin, align, offset, bytes),
        )
    }
}

pub open spec fn box_bounded(b: (int, int, int, int)) -> bool {
    -16 * COORD_MAX <= b.0 <= 16 * COORD_MAX && -16 * COORD_MAX <= b.1 <= 16 * COORD_MAX && -16 * COORD_MAX
        <= b.2 <= 16 * COORD_MAX && -16 * COORD_MAX <= b.3 <= 16 * COORD_MAX
}

proof fn lemma_union_bounded(lines: Seq<LineMetrics>, n: int, origin: int, align: TextAlign, offset: int)
    requires
        0 <= n <= lines.len(),
        forall|i: int| 0 <= i < lines.len() ==> box_bounded(#[trigger] line_box(lines[i], origin, align, offset)),
    ensures
        box_bounded(union_upto(lines, n, origin, align, offset)),
    decreases n,
{
    if n > 0 {
        lemma_union_bounded(lines, n - 1, origin, align, offset);
    }
}

fn line_box_exec(l: &LineMetrics, origin: i64, align: TextAlign, offset: i64) -> (r: (i64, i64, i64, i64))
    requires
        line_valid(*l),
        in_range(origin as int),
        -2 * COORD_MAX <= offset <= 2 * COORD_MAX,
    ensures
        (r.0 as int, r.1 as int, r.2 as int, r.3 as int) == line_box(*l, origin as int, align, offset as int),
        box_bounded(line_box(*l, origin as int, align, offset as int)),
{
    let baseline = l.baseline - origin;
    let left = l.left;
    let right = l.width - l.left;
    let w = right - left;
    let dx = match align {
        TextAlign::Left | TextAlign::Start => 0,
        TextAlign::Center => if w >= 0 { -(w / 2) } else { (-w) / 2 + if (-w) % 2 == 0 { 0 } else { 1 } },
        TextAlign::Right | TextAlign::End => -w,
    };
    proof {
        if align == TextAlign::Center && w < 0 {
            let nw = -(w as int);
            assert(-(w as int / 2) == nw / 2 + if nw % 2 == 0 { 0int } else { 1int }) by (nonlinear_arith)
                requires
                    nw == -(w as int),
                    nw > 0,
            {
                let q = (w as int) / 2;
                let r = (w as int) % 2;
                let q2 = nw / 2;
                let r2 = nw % 2;
                assert(w as int == 2 * q + r && 0 <= r < 2);
                assert(nw == 2 * q2 + r2 && 0 <= r2 < 2);
            }
        }
    }
    (left + dx, baseline - l.ascent + offset, right + dx, baseline + l.descent + offset)
}

fn join_exec(a: (i64, i64, i64, i64), b: (i64, i64, i64, i64)) -> (r: (i64, i64, i64, i64))
    ensures
        (r.0 as int, r.1 as int, r.2 as int, r.3 as int) == join(
            (a.0 as int, a.1 as int, a.2 as int, a.3 as int),
            (b.0 as int, b.1 as int, b.2 as int, b.3 as int),
        ),
{
    if !(b.0 < b.2 && b.1 < b.3) {
        a
    } else if !(a.0 < a.2 && a.1 < a.3) {
        b
    } else {
        (
            if a.0 < b.0 { a.0 } else { b.0 },
            if a.1 < b.1 { a.1 } else { b.1 },
            if a.2 > b.2 { a.2 } else { b.2 },
            if a.3 > b.3 { a.3 } else { b.3 },
        )
    }
}

pub open spec fn rows_view(rows: Seq<Vec<i64>>) -> Seq<Seq<int>> {
    rows.map_values(|r: Vec<i64>| r@.map_values(|v: i64| v as int))
}

impl Context2D {
    /// The text's metrics: a row for the whole run (its width, left, right, height
    /// above and depth below the baseline, then the ascent, descent and baseline
    /// figures) and a row per line (its box, baseline and character range). Text
    /// with no lines gives the run row alone, its box all zero.
    pub fn measure_text(&self, text: &str, font: &FontMetrics, lines: &Vec<LineMetrics>) -> (r: Vec<Vec<i64>>)
        requires
            self.wf(),
            text.spec_bytes().len() <= COORD_MAX,
            font_valid(*font),
            forall|i: int| 0 <= i < lines.len() ==> line_valid(#[trigger] lines@[i]),
        ensures
            rows_view(r@) == text_metrics(text.spec_bytes(), *font, self.state.text_baseline, self.state.text_align, lines@),
            (lines.len() == 0 || text.spec_bytes().len() == 0) ==> r.len() == 1 && r@[0]@.len() == 12 && forall|i: int|
                0 <= i < 5 ==> #[trigger] r@[0]@[i] == 0,
            (lines.len() == 0 || text.spec_bytes().len() == 0) ==> r@[0]@.map_values(|v: i64| v as int).subrange(5, 12)
                == run_figures(*font, self.state.text_baseline),
    {
        let bytes = text.as_bytes();
        let b = self.state.text_baseline;
        let align = self.state.text_align;
        let offset = baseline_offset_exec(font, b);
        let hang = baseline_offset_exec(font, Baseline::Hanging) - offset;
        let norm = baseline_offset_exec(font, Baseline::Alphabetic) - offset;
        let ideo = baseline_offset_exec(font, Baseline::Ideographic) - offset;
        let ascent = norm - font.ascent;
        let descent = font.descent - norm;
        let ghost figures = run_figures(*font, b);
        if lines.len() == 0 || bytes.len() == 0 {
            let row: Vec<i64> = vec![0, 0, 0, 0, 0, ascent, descent, ascent, descent, hang, norm, ideo];
            let mut out: Vec<Vec<i64>> = Vec::new();
            out.push(row);
            proof {
                assert(out@[0]@.map_values(|v: i64| v as int) =~= seq![0int, 0, 0, 0, 0] + figures);
                assert(rows_view(out@) =~= text_metrics(bytes@, *font, b, align, lines@));
                assert(out@[0]@.map_values(|v: i64| v as int).subrange(5, 12) =~= figures);
            }
            return out;
        }
        let origin = lines[0].baseline;
        let ghost lv = lines@;
        let mut u: (i64, i64, i64, i64) = (0, 0, 0, 0);
        let mut rows: Vec<Vec<i64>> = Vec::new();
        let mut i: usize = 0;
        proof {
            assert forall|k: int| 0 <= k < lv.len() implies box_bounded(#[trigger] line_box(lv[k], origin as int, align, offset as int)) by {
                let l = lv[k];
                assert(line_valid(l));
            }
        }
        while i < lines.len()
            invariant
                0 <= i <= lines.len(),
                lv == lines@,
                forall|k: int| 0 <= k < lines.len() ==> line_valid(#[trigger] lines@[k]),
                in_range(origin as int),
                origin == lines@[0].baseline,
                offset == baseline_offset(*font, b),
                -2 * COORD_MAX <= offset <= 2 * COORD_MAX,
                (u.0 as int, u.1 as int, u.2 as int, u.3 as int) == union_upto(lv, i as int, origin as int, align, offset as int),
                rows.len() == i,
                forall|k: int| 0 <= k < i ==> (#[trigger] rows@[k])@.map_values(|v: i64| v as int) == line_row(lv[k], origin as int, align, offset as int, bytes@),
                bytes@.len() <= COORD_MAX,
            decreases lines.len() - i,
        {
            let l = &lines[i];
            let bx = line_box_exec(l, origin, align, offset);
            u = join_exec(u, bx);
            let bw = bx.2 - bx.0;
            let bh = bx.3 - bx.1;
            let bl = l.baseline - origin;
            let start = code_point_index_exec(bytes, l.start_index);
            let end = code_point_index_exec(bytes, l.end_index);
            let row: Vec<i64> = vec![bx.0, bx.1, bw, bh, bl, start, end];
            assert(row@.map_values(|v: i64| v as int) =~= line_row(lv[i as int], origin as int, align, offset as int, bytes@));
            rows.push(row);
            i = i + 1;
        }
        proof {
            lemma_union_bounded(lv, lv.len() as int, origin as int, align, offset as int);
        }
        let uw = u.2 - u.0;
        let up = -u.1;
        let first: Vec<i64> = vec![uw, u.0, u.2, up, u.3, ascent, descent, ascent, descent, hang, norm, ideo];
        let mut out: Vec<Vec<i64>> = Vec::new();
        out.push(first);
        let ghost rv = rows@;
        out.append(&mut rows);
        proof {
            let t = text_metrics(bytes@, *font, b, align, lv);
            assert(rows_view(out@).len() == t.len());
            assert forall|k: int| 0 <= k < t.len() implies rows_view(out@)[k] == t[k] by {
                if k == 0 {
                    assert(rows_view(out@)[0] =~= t[0]);
                } else {
                    assert(out@[k] == rv[k - 1]);
                }
            }
            assert(rows_view(out@) =~= t);
        }
        out
    }

    /// Draws a laid-out text picture with its anchor at `(x, y)`: moved down by the
    /// chosen baseline's offset less the layout's own alphabetic baseline, and
    /// across by the alignment within `width` (the galley width when none is given).
    pub fn draw_text(&mut self, picture: u64, x: i64, y: i64, width: Option<i64>, paint: &Paint, font: &FontMetrics, alphabetic_baseline: i64)
        requires
            old(self).wf(),
            font_valid(*font),
            in_range(x as int),
            in_range(y as int),
            in_range(alphabetic_baseline as int),
            width matches Some(w) ==> 0 <= w <= COORD_MAX,
        ensures
            final(self).wf(),
            final(self)@ == old(self)@,
            final(self).recording@.len() > old(self).recording@.len(),
            final(self).recording@.subrange(0, old(self).recording@.len() as int) == old(self).recording@,
            rendered(
                final(self).recording@.subrange(old(self).recording@.len() as int, final(self).recording@.len() as int),
                old(self)@.state,
                ShapeView::Picture {
                    picture,
                    x: (x + alignment_offset(
                        old(self).state.text_align,
                        match width {
                            Some(w) => w as int,
                            None => GALLEY as int,
                        },
                    )) as i64,
                    y: (y + baseline_offset(*font, old(self).state.text_baseline) - alphabetic_baseline) as i64,
                },
                paint@,
                old(self).state.matrix,
            ),
    {
        let w = match width {
            Some(w) => w,
            None => GALLEY,
        };
        let offset = baseline_offset_exec(font, self.state.text_baseline);
        let px = x + alignment_offset_exec(self.state.text_align, w);
        let py = y + offset - alphabetic_baseline;
        self.render_to_canvas(paint, Shape::Picture { picture, x: px, y: py });
    }
}

pub open spec fn rect_box(r: Rect) -> (int, int, int, int) {
    (r.left as int, r.top as int, r.right as int, r.bottom as int)
}

/// The union of the first `n` boxes, empty ones left out.
pub open spec fn boxes_union(boxes: Seq<Rect>, n: int) -> (int, int, int, int)
    decreases n,
{
    if n <= 0 {
        (0, 0, 0, 0)
    } else {
        join(boxes_union(boxes, n - 1), rect_box(boxes[n - 1]))
    }
}

/// The area text is recorded in: the union of its glyph boxes, grown on every
/// side by the stroke width.
pub open spec fn text_bounds_of(boxes: Seq<Rect>, stroke_width: int) -> (int, int, int, int) {
    let u = boxes_union(boxes, boxes.len() as int);
    (u.0 - stroke_width, u.1 - stroke_width, u.2 + stroke_width, u.3 + stroke_width)
}

proof fn lemma_boxes_union_valid(boxes: Seq<Rect>, n: int)
    requires
        0 <= n <= boxes.len(),
        forall|i: int| 0 <= i < boxes.len() ==> (#[trigger] boxes[i]).valid(),
    ensures
        in_range(boxes_union(boxes, n).0) && in_range(boxes_union(boxes, n).1) && in_range(boxes_union(boxes, n).2)
            && in_range(boxes_union(boxes, n).3),
    decreases n,
{
    if n > 0 {
        lemma_boxes_union_valid(boxes, n - 1);
    }
}

/// The bounds to record laid-out text in, from the boxes of its glyph runs.
pub fn text_bounds(boxes: &Vec<Rect>, stroke_width: i64) -> (r: Rect)
    requires
        forall|i: int| 0 <= i < boxes.len() ==> (#[trigger] boxes@[i]).valid(),
        0 <= stroke_width <= COORD_MAX,
    ensures
        rect_box(r) == text_bounds_of(boxes@, stroke_width as int),
{
    let mut u: (i64, i64, i64, i64) = (0, 0, 0, 0);
    let mut i: usize = 0;
    while i < boxes.len()
        invariant
            0 <= i <= boxes.len(),
            forall|k: int| 0 <= k < boxes.len() ==> (#[trigger] boxes@[k]).valid(),
            (u.0 as int, u.1 as int, u.2 as int, u.3 as int) == boxes_union(boxes@, i as int),
        decreases boxes.len() - i,
    {
        let b = boxes[i];
        u = join_exec(u, (b.left, b.top, b.right, b.bottom));
        i = i + 1;
    }
    proof {
        lemma_boxes_union_valid(boxes@, boxes@.len() as int);
    }
    Rect { left: u.0 - stroke_width, top: u.1 - stroke_width, right: u.2 + stroke_width, bottom: u.3 + stroke_width }
}

/// The text as it is laid out: without wrapping, each line break becomes a space.
pub open spec fn laid_out_bytes(bytes: Seq<u8>, wrap: bool) -> Seq<u8> {
    if wrap {
        bytes
    } else {
        bytes.map_values(|b: u8| if b == 10 { 32u8 } else { b })
    }
}

/// The UTF-8 bytes to lay out and the line limit to lay them out with: the text as
/// it is with wrapping on; with it off, line breaks turned to spaces and a single
/// line.
pub fn typeset_text(text: &str, wrap: bool) -> (r: (Vec<u8>, Option<usize>))
    ensures
        r.0@ == laid_out_bytes(text.spec_bytes(), wrap),
        r.1 == if wrap { None::<usize> } else { Some(1usize) },
{
    let bytes = text.as_bytes();
    let mut out: Vec<u8> = Vec::new();
    let mut i: usize = 0;
    while i < bytes.len()
        invariant
            0 <= i <= bytes.len(),
            bytes@ == text.spec_bytes(),
            out@ == laid_out_bytes(bytes@.subrange(0, i as int), wrap),
        decreases bytes.len() - i,
    {
        let b = bytes[i];
        let c = if !wrap && b == 10 { 32u8 } else { b };
        out.push(c);
        i = i + 1;
        assert(out@ =~= laid_out_bytes(bytes@.subrange(0, i as int), wrap));
    }
    assert(bytes@.subrange(0, bytes@.len() as int) =~= bytes@);
    (out, if wrap { None } else { Some(1) })
}

} // verus!
