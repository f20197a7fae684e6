//! The drawing context: the current state, the stack of saved states, the current
//! path, and the display list that drawing commands are recorded into.
use vstd::prelude::*;
use crate::color::{Rgba, UNIT};
use crate::filter::{FilterSpec, chain_of, spec_valid, build_filter_chain};
use crate::geometry::{Matrix, Point, Rect, in_range, local_x, local_y};
use crate::path::{Path, ContourView, FillRule, path_valid};
use crate::state::{
    State, StateView, ClipShape, ClipView, Paint, PaintView, PaintStyle, BlendMode, ImageFilter,
    ImageFilterView, Dye, default_state, state_valid, mixed, is_regional,
};

verus! {

/// What a draw command puts on the surface.
#[derive(Clone, Debug)]
pub enum Shape {
    /// A path filled or stroked with the given rule.
    Path { path: Path, rule: FillRule },
    Rect(Rect),
    /// Part `src` of a host image, scaled into `dst`.
    Image { image: u64, src: Rect, dst: Rect },
    /// Part `src` of a snapshot the context finished (by its number), scaled into
    /// `dst`.
    Drawable { picture: usize, src: Rect, dst: Rect },
    /// A recorded host picture (laid-out text), placed at its origin.
    Picture { picture: u64, x: i64, y: i64 },
}

pub ghost enum ShapeView {
    Path { path: Seq<ContourView>, rule: FillRule },
    Rect(Rect),
    Image { image: u64, src: Rect, dst: Rect },
    Drawable { picture: usize, src: Rect, dst: Rect },
    Picture { picture: u64, x: i64, y: i64 },
}

impl View for Shape {
    type V = ShapeView;

    open spec fn view(&self) -> ShapeView {
        match self {
            Shape::Path { path, rule } => ShapeView::Path { path: path@, rule: *rule },
            Shape::Drawable { picture, src, dst } => ShapeView::Drawable { picture: *picture, src: *src, dst: *dst },
            Shape::Rect(r) => ShapeView::Rect(*r),
            Shape::Image { image, src, dst } => ShapeView::Image { image: *image, src: *src, dst: *dst },
            Shape::Picture { picture, x, y } => ShapeView::Picture { picture: *picture, x: *x, y: *y },
        }
    }
}

impl Shape {
    pub fn duplicate(&self) -> (r: Shape)
        ensures
            r@ == self@,
    {
        match self {
            Shape::Path { path, rule } => Shape::Path { path: path.duplicate(), rule: *rule },
            Shape::Drawable { picture, src, dst } => Shape::Drawable { picture: *picture, src: *src, dst: *dst },
            Shape::Rect(r) => Shape::Rect(*r),
            Shape::Image { image, src, dst } => Shape::Image { image: *image, src: *src, dst: *dst },
            Shape::Picture { picture, x, y } => Shape::Picture { picture: *picture, x: *x, y: *y },
        }
    }
}

/// One entry of the display list.
#[derive(Debug)]
pub enum DrawOp {
    /// Strip the transform and clip from the surface.
    ResetSurface,
    SetMatrix { matrix: Matrix },
    /// Narrow the surface's clip to a region given in device coordinates.
    Clip { path: Path, rule: FillRule },
    /// Draw `shape` with `paint` under `matrix`, then moved by `offset` in device
    /// coordinates.
    Draw { shape: Shape, paint: Paint, matrix: Matrix, offset: Point },
    /// Draw an isolated recording as one unit with the given mode and opacity.
    Composite { layer: Vec<DrawOp>, blend: crate::state::BlendMode, alpha: i64 },
    /// Erase a rectangle to transparent.
    ClearRect { rect: Rect, matrix: Matrix },
    /// Paste raw RGBA pixels, with no transform, clip, alpha, blend or shadow.
    Blit { pixels: Vec<u8>, width: i64, height: i64, src: Rect, dst: Rect },
    /// Replay a recording the context finished earlier, by its number.
    Replay { picture: usize },
}

/// A finished recording and the bounds it was cut to.
#[derive(Debug)]
pub struct Picture {
    pub ops: Vec<DrawOp>,
    pub cull: Rect,
}

pub struct Context2D {
    pub bounds: Rect,
    pub recording: Vec<DrawOp>,
    /// Recordings finished by taking a snapshot, numbered in the order taken.
    pub pictures: Vec<Picture>,
    pub state: State,
    pub stack: Vec<State>,
    /// The current path, in device coordinates.
    pub path: Path,
}

pub ghost struct ContextView {
    pub bounds: Rect,
    pub state: StateView,
    pub stack: Seq<StateView>,
    pub path: Seq<ContourView>,
}

impl View for Context2D {
    type V = ContextView;

    open spec fn view(&self) -> ContextView {
        ContextView {
            bounds: self.bounds,
            state: self.state@,
            stack: self.stack@.map_values(|s: State| s@),
            path: self.path@,
        }
    }
}

pub open spec fn context_valid(c: ContextView) -> bool {
    &&& c.bounds.valid()
    &&& state_valid(c.state)
    &&& forall|i: int| 0 <= i < c.stack.len() ==> state_valid(#[trigger] c.stack[i])
    &&& path_valid(c.path)
    &&& c.path.len() < crate::path::PATH_MAX
}

/// `save`: the current state is pushed, unchanged.
pub open spec fn saved(c: ContextView) -> ContextView {
    ContextView { stack: c.stack.push(c.state), ..c }
}

/// `restore`: the last saved state comes back; nothing happens with none saved.
pub open spec fn restored(c: ContextView) -> ContextView {
    if c.stack.len() == 0 {
        c
    } else {
        ContextView { state: c.stack.last(), stack: c.stack.drop_last(), ..c }
    }
}

pub open spec fn saved_n(c: ContextView, n: nat) -> ContextView
    decreases n,
{
    if n == 0 {
        c
    } else {
        saved(saved_n(c, (n - 1) as nat))
    }
}

pub open spec fn restored_n(c: ContextView, n: nat) -> ContextView
    decreases n,
{
    if n == 0 {
        c
    } else {
        restored_n(restored(c), (n - 1) as nat)
    }
}

/// `ops` set the surface from state `s`: strip it, set the transform, then narrow
/// the clip to each of the state's regions in turn.
pub open spec fn surface_ops(ops: Seq<DrawOp>, s: StateView) -> bool {
    &&& ops.len() == s.clip.len() + 2
    &&& ops[0] is ResetSurface
    &&& (ops[1] matches DrawOp::SetMatrix { matrix } && matrix == s.matrix)
    &&& forall|i: int|
        0 <= i < s.clip.len() ==> (#[trigger] ops[i + 2] matches DrawOp::Clip { path, rule } && path@ == s.clip[i].path
            && rule == s.clip[i].rule)
}

/// Whether a device point survives every region of a clip.
pub open spec fn visible(clip: Seq<ClipView>, p: Point) -> bool {
    forall|i: int| 0 <= i < clip.len() ==> crate::path::fill_contains(#[trigger] clip[i].path, clip[i].rule, p)
}

impl Context2D {
    pub open spec fn wf(&self) -> bool {
        context_valid(self@)
    }

    /// A blank context of the given bounds, in the default state.
    pub fn new(bounds: Rect) -> (r: Context2D)
        requires
            bounds.valid(),
        ensures
            r.wf(),
            r@.bounds == bounds,
            r@.state == default_state(),
            r@.stack.len() == 0,
            r@.path.len() == 0,
            r.recording@.len() == 0,
            r.pictures@.len() == 0,
    {
        let r = Context2D {
            bounds,
            recording: Vec::new(),
            pictures: Vec::new(),
            state: State::new(),
            stack: Vec::new(),
            path: Path::new(),
        };
        assert(r@.stack =~= Seq::<StateView>::empty());
        r
    }

    pub fn width(&self) -> (r: i64)
        requires
            self.wf(),
        ensures
            r == self.bounds.right - self.bounds.left,
    {
        self.bounds.width()
    }

    pub fn height(&self) -> (r: i64)
        requires
            self.wf(),
        ensures
            r == self.bounds.bottom - self.bounds.top,
    {
        self.bounds.height()
    }

    /// The point of user space that the device point `(x, y)` comes from; `(x, y)`
    /// itself where the transform has no inverse; `None` where that point lies
    /// beyond the coordinate range.
    pub fn in_local_coordinates(&self, x: i64, y: i64) -> (r: Option<Point>)
        requires
            self.wf(),
            in_range(x as int),
            in_range(y as int),
        ensures
            r.is_some() == (in_range(local_x(self.state.matrix, x as int, y as int)) && in_range(
                local_y(self.state.matrix, x as int, y as int),
            )),
            r matches Some(p) ==> p.x == local_x(self.state.matrix, x as int, y as int) && p.y == local_y(
                self.state.matrix,
                x as int,
                y as int,
            ),
    {
        self.state.matrix.in_local_coordinates(x, y)
    }

    /// Records one command on the surface.
    pub fn with_canvas(&mut self, op: DrawOp)
        ensures
            final(self)@ == old(self)@,
            final(self).recording@ == old(self).recording@.push(op),
            final(self).pictures@ == old(self).pictures@,
    {
        self.recording.push(op);
    }

    /// Strips the transform and clip from the surface, leaving the state alone.
    pub fn reset_canvas(&mut self)
        ensures
            final(self)@ == old(self)@,
            final(self).recording@.len() == old(self).recording@.len() + 1,
            final(self).recording@.drop_last() == old(self).recording@,
            final(self).recording@.last() matches DrawOp::ResetSurface,
            final(self).pictures@ == old(self).pictures@,
    {
        self.with_canvas(DrawOp::ResetSurface);
        assert(self.recording@.drop_last() =~= old(self).recording@);
    }

    /// Replaces the transform with what `f` makes of it, and sets it on the surface.
    pub fn with_matrix<F: FnOnce(Matrix) -> Matrix>(&mut self, f: F)
        requires
            old(self).wf(),
            f.requires((old(self).state.matrix,)),
            forall|m: Matrix| f.ensures((old(self).state.matrix,), m) ==> m.valid(),
        ensures
            final(self).wf(),
            f.ensures((old(self).state.matrix,), final(self).state.matrix),
            final(self)@ == (ContextView { state: StateView { matrix: final(self).state.matrix, ..old(self)@.state }, ..old(self)@ }),
            final(self).recording@ == old(self).recording@.push(DrawOp::SetMatrix { matrix: final(self).state.matrix }),
    {
        let m = f(self.state.matrix);
        self.state.matrix = m;
        self.recording.push(DrawOp::SetMatrix { matrix: m });
        assert(self@.state =~= StateView { matrix: m, ..old(self)@.state });
        assert(self@.stack =~= old(self)@.stack);
    }

    /// The user-space points given as `x, y` pairs, mapped to the device; `None`
    /// where one would leave the coordinate range.
    pub fn map_points(&self, coords: &Vec<i64>) -> (r: Option<Vec<Point>>)
        requires
            self.wf(),
            coords.len() % 2 == 0,
            forall|i: int| 0 <= i < coords.len() ==> in_range(#[trigger] coords@[i] as int),
        ensures
            r.is_some() == forall|i: int|
                0 <= i < coords.len() / 2 ==> in_range(
                    crate::geometry::map_x(self.state.matrix, #[trigger] coords@[2 * i] as int, coords@[2 * i + 1] as int),
                ) && in_range(crate::geometry::map_y(self.state.matrix, coords@[2 * i] as int, coords@[2 * i + 1] as int)),
            r matches Some(v) ==> v.len() * 2 == coords.len() && forall|i: int|
                0 <= i < v.len() ==> (#[trigger] v@[i]).x == crate::geometry::map_x(
                    self.state.matrix,
                    coords@[2 * i] as int,
                    coords@[2 * i + 1] as int,
                ) && v@[i].y == crate::geometry::map_y(
                    self.state.matrix,
                    coords@[2 * i] as int,
                    coords@[2 * i + 1] as int,
                ),
    {
        let mut out: Vec<Point> = Vec::new();
        let mut i: usize = 0;
        while i + 1 < coords.len()
            invariant
                self.wf(),
                coords.len() % 2 == 0,
                i % 2 == 0,
                0 <= i <= coords.len(),
                forall|k: int| 0 <= k < coords.len() ==> in_range(#[trigger] coords@[k] as int),
                out.len() * 2 == i,
                forall|k: int|
                    0 <= k < out.len() ==> (#[trigger] out@[k]).x == crate::geometry::map_x(
                        self.state.matrix,
                        coords@[2 * k] as int,
                        coords@[2 * k + 1] as int,
                    ) && out@[k].y == crate::geometry::map_y(
                        self.state.matrix,
                        coords@[2 * k] as int,
                        coords@[2 * k + 1] as int,
                    ),
                forall|k: int|
                    0 <= k < i / 2 ==> in_range(
                        crate::geometry::map_x(self.state.matrix, #[trigger] coords@[2 * k] as int, coords@[2 * k + 1] as int),
                    ) && in_range(crate::geometry::map_y(self.state.matrix, coords@[2 * k] as int, coords@[2 * k + 1] as int)),
            decreases coords.len() - i,
        {
            let p = Point { x: coords[i], y: coords[i + 1] };
            match self.state.matrix.map_point(p) {
                Some(q) => out.push(q),
                None => {
                    proof {
                        let k = (i / 2) as int;
                        assert(2 * k == i);
                        assert(k < coords.len() / 2);
                    }
                    return None;
                },
            }
            proof {
                assert forall|k: int| 0 <= k < (i + 2) / 2 implies in_range(
                    crate::geometry::map_x(self.state.matrix, #[trigger] coords@[2 * k] as int, coords@[2 * k + 1] as int),
                ) && in_range(crate::geometry::map_y(self.state.matrix, coords@[2 * k] as int, coords@[2 * k + 1] as int)) by {
                    if k == i / 2 {
                        assert(2 * k == i);
                    }
                }
            }
            i = i + 2;
        }
        Some(out)
    }

    /// `save`: pushes a copy of the current state.
    pub fn push(&mut self)
        requires
            old(self).wf(),
        ensures
            final(self).wf(),
            final(self)@ == saved(old(self)@),
            final(self).recording@ == old(self).recording@,
            final(self).pictures@ == old(self).pictures@,
    {
        let s = self.state.duplicate();
        self.stack.push(s);
        assert(self@.stack =~= old(self)@.stack.push(old(self)@.state));
    }

    /// Sets the surface's transform and clip from the current state.
    fn reapply_state(&mut self)
        requires
            old(self).wf(),
        ensures
            final(self)@ == old(self)@,
            final(self).recording@.len() > old(self).recording@.len(),
            final(self).recording@.subrange(0, old(self).recording@.len() as int) == old(self).recording@,
            surface_ops(final(self).recording@.subrange(old(self).recording@.len() as int, final(self).recording@.len() as int), old(self)@.state),
            final(self).pictures@ == old(self).pictures@,
    {
        let ghost n = old(self).recording@.len() as int;
        self.reset_canvas();
        self.recording.push(DrawOp::SetMatrix { matrix: self.state.matrix });
        let mut i: usize = 0;
        while i < self.state.clip.len()
            invariant
                self@ == old(self)@,
                n == old(self).recording@.len(),
                0 <= i <= self.state.clip.len(),
                self.recording@.len() == n + 2 + i,
                self.recording@.subrange(0, old(self).recording@.len() as int) == old(self).recording@,
                self.recording@[n] is ResetSurface,
                self.recording@[n + 1] matches DrawOp::SetMatrix { matrix } && matrix == self.state.matrix,
                forall|k: int|
                    0 <= k < i ==> (#[trigger] self.recording@[n + 2 + k] matches DrawOp::Clip { path, rule } && path@
                        == self@.state.clip[k].path && rule == self@.state.clip[k].rule),
                self.pictures@ == old(self).pictures@,
            decreases self.state.clip.len() - i,
        {
            assert(self@.state.clip[i as int] == self.state.clip@[i as int]@);
            let op = DrawOp::Clip { path: self.state.clip[i].path.duplicate(), rule: self.state.clip[i].rule };
            let ghost before = self.recording@;
            self.recording.push(op);
            assert(self.recording@.subrange(0, old(self).recording@.len() as int) =~= before.subrange(0, old(self).recording@.len() as int));
            assert(forall|k: int| 0 <= k < n + 2 + i ==> self.recording@[k] == before[k]);
            i = i + 1;
        }
        proof {
            let added = self.recording@.subrange(n, self.recording@.len() as int);
            assert(added[0] == self.recording@[n]);
            assert(added[1] == self.recording@[n + 1]);
            assert forall|k: int| 0 <= k < self@.state.clip.len() implies (#[trigger] added[k + 2] matches DrawOp::Clip { path, rule } && path@
                == old(self)@.state.clip[k].path && rule == old(self)@.state.clip[k].rule) by {
                assert(added[k + 2] == self.recording@[n + 2 + k]);
            }
        }
    }

    /// `restore`: brings back the last saved state and sets the surface from it; does
    /// nothing with no state saved.
    pub fn pop(&mut self)
        requires
            old(self).wf(),
        ensures
            final(self).wf(),
            final(self)@ == restored(old(self)@),
            old(self)@.stack.len() == 0 ==> final(self).recording@ == old(self).recording@,
            old(self)@.stack.len() == 0 ==> final(self)@ == old(self)@,
            final(self).recording@.len() >= old(self).recording@.len(),
            final(self).recording@.subrange(0, old(self).recording@.len() as int) == old(self).recording@,
            old(self)@.stack.len() > 0 ==> surface_ops(
                final(self).recording@.subrange(old(self).recording@.len() as int, final(self).recording@.len() as int),
                final(self)@.state,
            ),
            final(self).pictures@ == old(self).pictures@,
    {
        if self.stack.len() > 0 {
            let s = self.stack.pop().unwrap();
            self.state = s;
            assert(self@.stack =~= old(self)@.stack.drop_last());
            assert(old(self)@.stack.last() == s@);
            self.reapply_state();
        }
    }

    /// Gives the context new bounds and starts it over: no drawing, no saved states,
    /// no path, the default state.
    pub fn resize(&mut self, width: i64, height: i64)
        requires
            in_range(width as int),
            in_range(height as int),
        ensures
            final(self).wf(),
            final(self)@.bounds == Rect::from_size_spec(width, height),
            final(self)@.state == default_state(),
            final(self)@.stack.len() == 0,
            final(self)@.path.len() == 0,
            final(self).recording@ == seq![DrawOp::ResetSurface],
    {
        self.bounds = Rect::from_size(width, height);
        self.path = Path::new();
        self.stack = Vec::new();
        self.state = State::new();
        self.recording = Vec::new();
        self.reset_canvas();
        assert(self.recording@ =~= seq![DrawOp::ResetSurface]);
        assert(self@.stack =~= Seq::<StateView>::empty());
    }
}

proof fn lemma_restore_after_save(c: ContextView)
    ensures
        restored(saved(c)) == c,
{
    assert(saved(c).stack.drop_last() =~= c.stack);
}

/// However many states are saved, restoring as many brings back the state and the
/// stack as they were.
pub proof fn lemma_save_restore_balanced(c: ContextView, n: nat)
    ensures
        restored_n(saved_n(c, n), n) == c,
    decreases n,
{
    if n > 0 {
        lemma_restore_after_save(saved_n(c, (n - 1) as nat));
        lemma_save_restore_balanced(c, (n - 1) as nat);
    }
}

/// Restoring with no state saved changes nothing.
pub proof fn lemma_restore_empty(c: ContextView)
    requires
        c.stack.len() == 0,
    ensures
        restored(c) == c,
{
}

/// Clipping never widens what is visible, and two clips in a row leave visible
/// exactly what lies in both regions and was visible before.
pub proof fn lemma_clip_narrows(clip: Seq<ClipView>, a: ClipView, b: ClipView, p: Point)
    ensures
        visible(clip.push(a), p) ==> visible(clip, p),
        visible(clip.push(a).push(b), p) == (visible(clip, p) && crate::path::fill_contains(a.path, a.rule, p)
            && crate::path::fill_contains(b.path, b.rule, p)),
{
    let ca = clip.push(a);
    let cab = ca.push(b);
    if visible(ca, p) {
        assert forall|i: int| 0 <= i < clip.len() implies crate::path::fill_contains(#[trigger] clip[i].path, clip[i].rule, p) by {
            assert(ca[i] == clip[i]);
        }
    }
    if visible(cab, p) {
        assert(cab[clip.len() as int] == a);
        assert(cab[clip.len() as int + 1] == b);
        assert forall|i: int| 0 <= i < clip.len() implies crate::path::fill_contains(#[trigger] clip[i].path, clip[i].rule, p) by {
            assert(cab[i] == clip[i]);
        }
    }
    if visible(clip, p) && crate::path::fill_contains(a.path, a.rule, p) && crate::path::fill_contains(b.path, b.rule, p) {
        assert forall|i: int| 0 <= i < cab.len() implies crate::path::fill_contains(#[trigger] cab[i].path, cab[i].rule, p) by {
            if i < clip.len() {
                assert(cab[i] == clip[i]);
            }
        }
    }
}

/// A shadow shows where its color is not fully transparent and it is blurred or
/// moved.
pub open spec fn shadow_visible(s: StateView) -> bool {
    s.shadow_color.a > 0 && !(s.shadow_blur == 0 && s.shadow_offset.x == 0 && s.shadow_offset.y == 0)
}

pub open spec fn shadow_paint(s: StateView, base: PaintView) -> PaintView {
    PaintView { image_filter: ImageFilterView::ShadowOnly { blur: s.shadow_blur, color: s.shadow_color }, ..base }
}

pub open spec fn stroke_paint(s: StateView) -> PaintView {
    let p = mixed(PaintView { style: PaintStyle::Stroke, ..s.paint }, s.stroke_style, s.global_alpha as int);
    if s.line_dash_list.len() == 0 {
        p
    } else {
        PaintView { dash: s.line_dash_list, dash_offset: s.line_dash_offset, ..p }
    }
}

/// `op` draws `shape` with `paint` under `matrix`, moved by `offset`.
pub open spec fn draws(op: DrawOp, shape: ShapeView, paint: PaintView, matrix: Matrix, offset: Point) -> bool {
    match op {
        DrawOp::Draw { shape: s, paint: p, matrix: m, offset: o } => s@ == shape && p@ == paint && m == matrix && o == offset,
        _ => false,
    }
}

/// The draws of one shape: its shadow first where one shows, then the shape.
pub open spec fn shape_passes(ops: Seq<DrawOp>, s: StateView, shape: ShapeView, paint: PaintView, m: Matrix) -> bool {
    if shadow_visible(s) {
        ops.len() == 2 && draws(ops[0], shape, shadow_paint(s, paint), m, s.shadow_offset)
            && draws(ops[1], shape, paint, m, Point { x: 0, y: 0 })
    } else {
        ops.len() == 1 && draws(ops[0], shape, paint, m, Point { x: 0, y: 0 })
    }
}

/// What drawing `shape` with `paint` appends to the recording: under a regional
/// mode, one isolated layer holding the shape's passes at source-over, composited
/// with the mode and the global alpha; otherwise the passes themselves.
pub open spec fn rendered(added: Seq<DrawOp>, s: StateView, shape: ShapeView, paint: PaintView, m: Matrix) -> bool {
    if is_regional(s.global_composite_operation) {
        added.len() == 1 && match added[0] {
            DrawOp::Composite { layer, blend, alpha } => blend == s.global_composite_operation && alpha
                == s.global_alpha && shape_passes(
                layer@,
                s,
                shape,
                PaintView { blend_mode: BlendMode::SrcOver, ..paint },
                m,
            ),
            _ => false,
        }
    } else {
        shape_passes(added, s, shape, paint, m)
    }
}

impl Context2D {
    /// `src` with its alpha scaled by the global alpha.
    pub fn color_with_alpha(&self, src: &Rgba) -> (r: Rgba)
        requires
            self.wf(),
        ensures
            r == crate::color::scaled_alpha(*src, self.state.global_alpha as int),
    {
        src.with_alpha(self.state.global_alpha)
    }

    pub fn paint_for_fill(&self) -> (r: Paint)
        requires
            self.wf(),
        ensures
            r@ == mixed(self.state.paint@, self.state.fill_style, self.state.global_alpha as int),
    {
        let mut paint = self.state.paint.duplicate();
        self.state.fill_style.mix_into(&mut paint, self.state.global_alpha);
        paint
    }

    pub fn paint_for_stroke(&self) -> (r: Paint)
        requires
            self.wf(),
        ensures
            r@ == stroke_paint(self.state@),
    {
        let mut paint = self.state.paint.duplicate();
        paint.style = PaintStyle::Stroke;
        self.state.stroke_style.mix_into(&mut paint, self.state.global_alpha);
        if self.state.line_dash_list.len() > 0 {
            paint.dash = crate::state::copy_vec(&self.state.line_dash_list);
            paint.dash_offset = self.state.line_dash_offset;
        }
        paint
    }

    /// The paint for a shadow pass of `base`, where a shadow shows.
    pub fn paint_for_shadow(&self, base: &Paint) -> (r: Option<Paint>)
        requires
            self.wf(),
        ensures
            r.is_some() == shadow_visible(self.state@),
            r matches Some(p) ==> p@ == shadow_paint(self.state@, base@),
    {
        let s = &self.state;
        if s.shadow_color.a > 0 && !(s.shadow_blur == 0 && s.shadow_offset.x == 0 && s.shadow_offset.y == 0) {
            let mut paint = base.duplicate();
            paint.image_filter = ImageFilter::ShadowOnly { blur: s.shadow_blur, color: s.shadow_color };
            Some(paint)
        } else {
            None
        }
    }

    fn shape_passes_into(&self, out: &mut Vec<DrawOp>, paint: &Paint, shape: &Shape, matrix: Matrix)
        requires
            self.wf(),
        ensures
            final(out)@.len() >= old(out)@.len(),
            final(out)@.subrange(0, old(out)@.len() as int) == old(out)@,
            shape_passes(final(out)@.subrange(old(out)@.len() as int, final(out)@.len() as int), self.state@, shape@, paint@, matrix),
    {
        let ghost n = old(out)@.len();
        if let Some(shadow) = self.paint_for_shadow(paint) {
            out.push(DrawOp::Draw { shape: shape.duplicate(), paint: shadow, matrix, offset: self.state.shadow_offset });
        }
        out.push(DrawOp::Draw { shape: shape.duplicate(), paint: paint.duplicate(), matrix, offset: Point::new(0, 0) });
        proof {
            let added = out@.subrange(n as int, out@.len() as int);
            if shadow_visible(self.state@) {
                assert(added[0] == out@[n as int]);
                assert(added[1] == out@[n as int + 1]);
            } else {
                assert(added[0] == out@[n as int]);
            }
            assert(out@.subrange(0, n as int) =~= old(out)@);
        }
    }

    /// Draws `shape` with `paint` through the shadow and compositing rules, under
    /// the current transform.
    pub fn render_to_canvas(&mut self, paint: &Paint, shape: Shape)
        requires
            old(self).wf(),
        ensures
            final(self).wf(),
            final(self)@ == old(self)@,
            final(self).recording@.len() > old(self).recording@.len(),
            final(self).recording@.subrange(0, old(self).recording@.len() as int) == old(self).recording@,
            rendered(
                final(self).recording@.subrange(old(self).recording@.len() as int, final(self).recording@.len() as int),
                old(self)@.state,
                shape@,
                paint@,
                old(self).state.matrix,
            ),
    {
        let m = self.state.matrix;
        self.render_under(paint, shape, m);
    }

    /// Draws `shape` with `paint` through the shadow and compositing rules, under
    /// `matrix`.
    fn render_under(&mut self, paint: &Paint, shape: Shape, matrix: Matrix)
        requires
            old(self).wf(),
        ensures
            final(self).wf(),
            final(self)@ == old(self)@,
            final(self).recording@.len() > old(self).recording@.len(),
            final(self).recording@.subrange(0, old(self).recording@.len() as int) == old(self).recording@,
            rendered(
                final(self).recording@.subrange(old(self).recording@.len() as int, final(self).recording@.len() as int),
                old(self)@.state,
                shape@,
                paint@,
                matrix,
            ),
    {
        let ghost n = self.recording@.len();
        if self.state.global_composite_operation.is_regional() {
            let mut layer_paint = paint.duplicate();
            layer_paint.blend_mode = BlendMode::SrcOver;
            let mut layer: Vec<DrawOp> = Vec::new();
            self.shape_passes_into(&mut layer, &layer_paint, &shape, matrix);
            assert(layer@.subrange(0, layer@.len() as int) =~= layer@);
            assert(layer_paint@ == PaintView { blend_mode: BlendMode::SrcOver, ..paint@ });
            let op = DrawOp::Composite {
                layer,
                blend: self.state.global_composite_operation,
                alpha: self.state.global_alpha,
            };
            self.recording.push(op);
            proof {
                let added = self.recording@.subrange(n as int, self.recording@.len() as int);
                assert(added[0] == self.recording@[n as int]);
                assert(added.len() == 1);
            }
        } else {
            let mut out = Vec::new();
            std::mem::swap(&mut out, &mut self.recording);
            self.shape_passes_into(&mut out, paint, &shape, matrix);
            std::mem::swap(&mut out, &mut self.recording);
        }
        assert(self.recording@.subrange(0, n as int) =~= old(self).recording@);
    }
}

/// Whether a recording only sets up the surface and never puts anything on it.
pub open spec fn draws_nothing(ops: Seq<DrawOp>) -> bool {
    forall|i: int|
        0 <= i < ops.len() ==> match #[trigger] ops[i] {
            DrawOp::ResetSurface | DrawOp::SetMatrix { .. } | DrawOp::Clip { .. } => true,
            _ => false,
        }
}

/// The paint an image is drawn with: the base paint at the global alpha.
pub open spec fn image_paint(s: StateView) -> PaintView {
    PaintView {
        color: crate::color::scaled_alpha(Rgba { a: 255, ..s.paint.color }, s.global_alpha as int),
        ..s.paint
    }
}

/// The point that a hit test at the device point `(x, y)` examines.
pub open spec fn hit_point(s: StateView, x: int, y: int) -> (int, int) {
    (local_x(s.matrix, x, y), local_y(s.matrix, x, y))
}

pub open spec fn hit(s: StateView, path: Seq<ContourView>, x: int, y: int, rule: Option<FillRule>, style: PaintStyle) -> bool {
    let (px, py) = hit_point(s, x, y);
    let p = Point { x: px as i64, y: py as i64 };
    in_range(px) && in_range(py) && match style {
        PaintStyle::Stroke => crate::path::stroke_contains(path, s.paint.stroke_width as int, s.paint.line_cap, p),
        PaintStyle::Fill => crate::path::fill_contains(
            path,
            match rule {
                Some(r) => r,
                None => FillRule::NonZero,
            },
            p,
        ),
    }
}

impl Context2D {
    /// Draws the current path with `paint` under the fill rule `rule`. The path is stored in device
    /// coordinates already, so it is drawn without the current transform.
    pub fn draw_path(&mut self, paint: &Paint, rule: FillRule)
        requires
            old(self).wf(),
        ensures
            final(self).wf(),
            final(self)@ == old(self)@,
            final(self).recording@.subrange(0, old(self).recording@.len() as int) == old(self).recording@,
            final(self).recording@.len() > old(self).recording@.len(),
            rendered(
                final(self).recording@.subrange(old(self).recording@.len() as int, final(self).recording@.len() as int),
                old(self)@.state,
                ShapeView::Path { path: old(self)@.path, rule },
                paint@,
                Matrix { sx: crate::geometry::MATRIX_UNIT, kx: 0, tx: 0, ky: 0, sy: crate::geometry::MATRIX_UNIT, ty: 0 },
            ),
    {
        let shape = Shape::Path { path: self.path.duplicate(), rule };
        self.render_under(paint, shape, Matrix::identity());
    }

    pub fn draw_rect(&mut self, rect: &Rect, paint: &Paint)
        requires
            old(self).wf(),
        ensures
            final(self).wf(),
            final(self)@ == old(self)@,
            final(self).recording@.subrange(0, old(self).recording@.len() as int) == old(self).recording@,
            final(self).recording@.len() > old(self).recording@.len(),
            rendered(
                final(self).recording@.subrange(old(self).recording@.len() as int, final(self).recording@.len() as int),
                old(self)@.state,
                ShapeView::Rect(*rect),
                paint@,
                old(self).state.matrix,
            ),
    {
        self.render_to_canvas(paint, Shape::Rect(*rect));
    }

    /// Erases `rect`, under the current transform, to transparent.
    pub fn clear_rect(&mut self, rect: &Rect)
        requires
            old(self).wf(),
        ensures
            final(self).wf(),
            final(self)@ == old(self)@,
            final(self).recording@.len() == old(self).recording@.len() + 1,
            final(self).recording@.drop_last() == old(self).recording@,
            final(self).recording@.last() matches DrawOp::ClearRect { rect: r, matrix: m } && r == *rect && m
                == old(self).state.matrix,
    {
        let op = DrawOp::ClearRect { rect: *rect, matrix: self.state.matrix };
        self.with_canvas(op);
        assert(self.recording@.drop_last() =~= old(self).recording@);
    }

    /// Draws part `src` of an image into `dst` with the base paint at the global
    /// alpha; nothing without an image.
    pub fn draw_image(&mut self, img: Option<u64>, src_rect: &Rect, dst_rect: &Rect)
        requires
            old(self).wf(),
        ensures
            final(self).wf(),
            final(self)@ == old(self)@,
            img is None ==> final(self).recording@ == old(self).recording@,
            img matches Some(i) ==> final(self).recording@.subrange(0, old(self).recording@.len() as int)
                == old(self).recording@ && final(self).recording@.len() > old(self).recording@.len() && rendered(
                final(self).recording@.subrange(old(self).recording@.len() as int, final(self).recording@.len() as int),
                old(self)@.state,
                ShapeView::Image { image: i, src: *src_rect, dst: *dst_rect },
                image_paint(old(self)@.state),
                old(self).state.matrix,
            ),
    {
        let mut canvas_paint = self.state.paint.duplicate();
        let c = canvas_paint.color;
        canvas_paint.color = Rgba { a: 255, ..c }.with_alpha(self.state.global_alpha);
        if let Some(image) = img {
            self.render_to_canvas(&canvas_paint, Shape::Image { image, src: *src_rect, dst: *dst_rect });
        }
    }

    /// Draws part `src` of a snapshot (numbered as `get_drawable` returns it) into
    /// `dst`, with its shadow where one shows, but no blend mode or layer.
    pub fn draw_drawable(&mut self, drobble: Option<usize>, src_rect: &Rect, dst_rect: &Rect)
        requires
            old(self).wf(),
        ensures
            final(self).wf(),
            final(self)@ == old(self)@,
            drobble is None ==> final(self).recording@ == old(self).recording@,
            drobble matches Some(d) ==> final(self).recording@.subrange(0, old(self).recording@.len() as int)
                == old(self).recording@ && shape_passes(
                final(self).recording@.subrange(old(self).recording@.len() as int, final(self).recording@.len() as int),
                old(self)@.state,
                ShapeView::Drawable { picture: d, src: *src_rect, dst: *dst_rect },
                PaintView {
                    color: crate::color::scaled_alpha(Rgba { r: 0, g: 0, b: 0, a: 255 }, old(self)@.state.global_alpha as int),
                    ..old(self)@.state.paint
                },
                old(self).state.matrix,
            ),
    {
        let mut paint = self.state.paint.duplicate();
        paint.color = self.color_with_alpha(&Rgba::black());
        if let Some(d) = drobble {
            let shape = Shape::Drawable { picture: d, src: *src_rect, dst: *dst_rect };
            let m = self.state.matrix;
            let mut out = Vec::new();
            std::mem::swap(&mut out, &mut self.recording);
            self.shape_passes_into(&mut out, &paint, &shape, m);
            std::mem::swap(&mut out, &mut self.recording);
        }
    }

    /// Narrows the clip to `path` (given under the current transform), or to the
    /// current path where none is given. Returns false, changing nothing, where the
    /// given path would leave the coordinate range once transformed.
    pub fn clip_path(&mut self, path: Option<Path>, rule: FillRule) -> (r: bool)
        requires
            old(self).wf(),
            path matches Some(p) ==> path_valid(p@),
        ensures
            final(self).wf(),
            !r ==> final(self)@ == old(self)@ && final(self).recording@ == old(self).recording@,
            path is None ==> r,
            r ==> final(self)@ == (ContextView {
                state: StateView { clip: old(self)@.state.clip.push(final(self)@.state.clip.last()), ..old(self)@.state },
                ..old(self)@
            }),
            r ==> final(self)@.state.clip.last().rule == rule,
            r ==> match path {
                Some(p) => final(self)@.state.clip.last().path == crate::path::transformed(p@, old(self).state.matrix),
                None => final(self)@.state.clip.last().path == old(self)@.path,
            },
            r ==> final(self).recording@.len() == old(self).recording@.len() + 1,
            r ==> final(self).recording@.drop_last() == old(self).recording@,
            r ==> (final(self).recording@.last() matches DrawOp::Clip { path: q, rule: k } && q@ == final(self)@.state.clip.last().path
                && k == rule),
            r == match path {
                Some(p) => crate::path::transform_fits(p@, old(self).state.matrix),
                None => true,
            },
    {
        let region = match path {
            Some(p) => match p.transform(&self.state.matrix) {
                Some(q) => q,
                None => {
                    return false;
                },
            },
            None => self.path.duplicate(),
        };
        let ghost region_view = region@;
        let op = DrawOp::Clip { path: region.duplicate(), rule };
        self.state.clip.push(ClipShape { path: region, rule });
        self.recording.push(op);
        assert(self.recording@.drop_last() =~= old(self).recording@);
        assert(self@.state.clip =~= old(self)@.state.clip.push(ClipView { path: region_view, rule }));
        assert(self@.state =~= StateView { clip: old(self)@.state.clip.push(ClipView { path: region_view, rule }), ..old(self)@.state });
        true
    }

    /// Whether the device point `(x, y)` hits `path` (given in user space): inside
    /// it under `rule` (non-zero by default), or, for a stroke, within half the
    /// stroke width of a segment (the outline with the paint's line cap and round
    /// joins; its dash pattern and miter limit are not taken into account). A point whose
    /// user-space position leaves the coordinate range hits nothing.
    pub fn hit_test_path(&self, path: &Path, x: i64, y: i64, rule: Option<FillRule>, style: PaintStyle) -> (r: bool)
        requires
            self.wf(),
            path_valid(path@),
            in_range(x as int),
            in_range(y as int),
        ensures
            r == hit(self.state@, path@, x as int, y as int, rule, style),
    {
        let p = match self.in_local_coordinates(x, y) {
            Some(p) => p,
            None => {
                return false;
            },
        };
        match style {
            PaintStyle::Stroke => {
                let paint = self.paint_for_stroke();
                path.stroke_contains(p, paint.stroke_width, paint.line_cap)
            },
            PaintStyle::Fill => {
                let rule = match rule {
                    Some(r) => r,
                    None => FillRule::NonZero,
                };
                path.contains(p, rule)
            },
        }
    }

    /// Starts a new, empty current path.
    pub fn begin_path(&mut self)
        requires
            old(self).wf(),
        ensures
            final(self).wf(),
            final(self)@ == (ContextView { path: Seq::empty(), ..old(self)@ }),
            final(self).recording@ == old(self).recording@,
    {
        self.path = Path::new();
    }

    /// Appends `path`, given under the current transform, to the current path in
    /// device coordinates. Returns false, changing nothing, where it would leave the
    /// coordinate range or make the path too long.
    pub fn add_path(&mut self, path: &Path) -> (r: bool)
        requires
            old(self).wf(),
            path_valid(path@),
        ensures
            final(self).wf(),
            final(self).recording@ == old(self).recording@,
            r == (old(self)@.path.len() + path@.len() < crate::path::PATH_MAX && crate::path::transform_fits(
                path@,
                old(self).state.matrix,
            )),
            !r ==> final(self)@ == old(self)@,
            r ==> final(self)@ == (ContextView {
                path: old(self)@.path + crate::path::transformed(path@, old(self).state.matrix),
                ..old(self)@
            }),
    {
        if path.contours.len() >= crate::path::PATH_MAX - self.path.contours.len() {
            return false;
        }
        match path.transform(&self.state.matrix) {
            Some(q) => {
                let ghost qv = q@;
                let mut cs = q.contours;
                let ghost before = self.path@;
                self.path.contours.append(&mut cs);
                assert(self.path@ =~= before + qv);
                true
            },
            None => false,
        }
    }
}

/// The image filter a filter list sets: none for a list with no known effect.
pub open spec fn filter_of(specs: Seq<FilterSpec>) -> ImageFilterView {
    if chain_of(specs).len() == 0 {
        ImageFilterView::Identity
    } else {
        ImageFilterView::Chain(chain_of(specs))
    }
}

impl Context2D {
    /// Finishes the recording as picture number `pictures.len()`, cut to `cull` (the
    /// bounds where none is given), and starts a new one that replays it and sets the
    /// surface's transform and clip from the state.
    pub fn get_picture(&mut self, cull: Option<Rect>) -> (r: usize)
        requires
            old(self).wf(),
        ensures
            final(self).wf(),
            final(self)@ == old(self)@,
            r == old(self).pictures@.len(),
            final(self).pictures@.len() == old(self).pictures@.len() + 1,
            final(self).pictures@.drop_last() == old(self).pictures@,
            final(self).pictures@[r as int].ops@ == old(self).recording@,
            final(self).pictures@[r as int].cull == match cull {
                Some(c) => c,
                None => old(self).bounds,
            },
            final(self).recording@.len() >= 1,
            final(self).recording@[0] matches DrawOp::Replay { picture } && picture == r,
            surface_ops(final(self).recording@.drop_first(), old(self)@.state),
    {
        let mut ops: Vec<DrawOp> = Vec::new();
        std::mem::swap(&mut ops, &mut self.recording);
        let cull = match cull {
            Some(c) => c,
            None => self.bounds,
        };
        let n = self.pictures.len();
        let ghost before = self.pictures@;
        self.pictures.push(Picture { ops, cull });
        assert(self.pictures@.drop_last() =~= before);
        self.recording.push(DrawOp::Replay { picture: n });
        let ghost pre = self.recording@;
        self.reapply_state();
        assert(self.recording@[0] == self.recording@.subrange(0, pre.len() as int)[0]);
        assert(self.recording@.drop_first() =~= self.recording@.subrange(1, self.recording@.len() as int));
        n
    }

    /// The same snapshot as `get_picture`, cut to the bounds.
    pub fn get_drawable(&mut self) -> (r: usize)
        requires
            old(self).wf(),
        ensures
            final(self).wf(),
            final(self)@ == old(self)@,
            r == old(self).pictures@.len(),
            final(self).pictures@.len() == old(self).pictures@.len() + 1,
            final(self).pictures@.drop_last() == old(self).pictures@,
            final(self).pictures@[r as int].ops@ == old(self).recording@,
            final(self).pictures@[r as int].cull == old(self).bounds,
            final(self).recording@.len() >= 1,
            final(self).recording@[0] matches DrawOp::Replay { picture } && picture == r,
            surface_ops(final(self).recording@.drop_first(), old(self)@.state),
    {
        self.get_picture(None)
    }

    /// Reads back the `width` x `height` RGBA pixels at `(x, y)` into `buffer` when
    /// the recording draws nothing, so that all of them are transparent; returns
    /// false, leaving `buffer` alone, where the recording has content for the
    /// rendering engine to rasterize. Either way the recording is snapshotted first.
    pub fn get_pixels(&mut self, buffer: &mut Vec<u8>, x: i64, y: i64, width: usize, height: usize) -> (r: bool)
        requires
            old(self).wf(),
            width * height * 4 <= usize::MAX,
        ensures
            final(self).wf(),
            final(self)@ == old(self)@,
            final(self).pictures@.len() == old(self).pictures@.len() + 1,
            final(self).pictures@.last().ops@ == old(self).recording@,
            r == draws_nothing(old(self).recording@),
            r ==> final(buffer)@ == Seq::new((width * height * 4) as nat, |i: int| 0u8),
            !r ==> final(buffer)@ == old(buffer)@,
    {
        let mut blank = true;
        let mut i: usize = 0;
        while i < self.recording.len()
            invariant
                0 <= i <= self.recording.len(),
                blank == draws_nothing(self.recording@.subrange(0, i as int)),
            decreases self.recording.len() - i,
        {
            let ok = match &self.recording[i] {
                DrawOp::ResetSurface | DrawOp::SetMatrix { .. } | DrawOp::Clip { .. } => true,
                _ => false,
            };
            proof {
                let next = self.recording@.subrange(0, i as int + 1);
                assert(next[i as int] == self.recording@[i as int]);
                if blank && ok {
                    assert forall|k: int| 0 <= k < next.len() implies match #[trigger] next[k] {
                        DrawOp::ResetSurface | DrawOp::SetMatrix { .. } | DrawOp::Clip { .. } => true,
                        _ => false,
                    } by {
                        if k < i {
                            assert(next[k] == self.recording@.subrange(0, i as int)[k]);
                        }
                    }
                }
                if !ok {
                    assert(!draws_nothing(next));
                }
                if !blank {
                    let sub = self.recording@.subrange(0, i as int);
                    let k = choose|k: int| 0 <= k < sub.len() && !match #[trigger] sub[k] {
                        DrawOp::ResetSurface | DrawOp::SetMatrix { .. } | DrawOp::Clip { .. } => true,
                        _ => false,
                    };
                    assert(next[k] == sub[k]);
                }
            }
            blank = blank && ok;
            i = i + 1;
        }
        assert(self.recording@.subrange(0, self.recording@.len() as int) =~= self.recording@);
        let ghost ops = self.recording@;
        self.get_picture(None);
        if blank {
            let n = width * height * 4;
            let mut out: Vec<u8> = Vec::new();
            let mut j: usize = 0;
            while j < n
                invariant
                    0 <= j <= n,
                    out@ == Seq::new(j as nat, |i: int| 0u8),
                decreases n - j,
            {
                out.push(0);
                j = j + 1;
                assert(out@ =~= Seq::new(j as nat, |i: int| 0u8));
            }
            *buffer = out;
        }
        blank
    }

    /// Pastes raw `width` x `height` RGBA pixels, part `src` into `dst`, erasing
    /// `dst` first, with no transform, clip, alpha, blend or shadow. Nothing happens
    /// where the buffer holds fewer than that many pixels; bytes past them are kept
    /// with the image but not read.
    pub fn blit_pixels(&mut self, buffer: &Vec<u8>, width: usize, height: usize, src_rect: &Rect, dst_rect: &Rect)
        requires
            old(self).wf(),
            width <= 0x7fff_ffff,
            height <= 0x7fff_ffff,
        ensures
            final(self).wf(),
            final(self)@ == old(self)@,
            buffer@.len() < width * height * 4 ==> final(self).recording@ == old(self).recording@,
            buffer@.len() >= width * height * 4 ==> final(self).recording@.len() > old(self).recording@.len() + 1,
            buffer@.len() >= width * height * 4 ==> (final(self).recording@[old(self).recording@.len() as int] is ResetSurface),
            buffer@.len() >= width * height * 4 ==> (final(self).recording@[old(self).recording@.len() as int + 1] matches DrawOp::Blit { pixels, width: w, height: h, src, dst }
                && pixels@ == buffer@ && w == width && h == height && src == *src_rect && dst == *dst_rect),
    {
        assert(width * height * 4 <= 0x7fff_ffff * 0x7fff_ffff * 4) by (nonlinear_arith)
            requires
                width <= 0x7fff_ffff,
                height <= 0x7fff_ffff,
        ;
        let expected: u128 = width as u128 * height as u128 * 4;
        if (buffer.len() as u128) < expected {
            return;
        }
        let ghost n = self.recording@.len();
        self.push();
        self.reset_canvas();
        let op = DrawOp::Blit {
            pixels: crate::state::copy_vec(buffer),
            width: width as i64,
            height: height as i64,
            src: *src_rect,
            dst: *dst_rect,
        };
        self.with_canvas(op);
        let ghost mid = self.recording@;
        assert(mid[n as int] is ResetSurface);
        self.pop();
        proof {
            lemma_restore_after_save(old(self)@);
            assert(self.recording@[n as int] == self.recording@.subrange(0, mid.len() as int)[n as int]);
            assert(self.recording@[n as int + 1] == self.recording@.subrange(0, mid.len() as int)[n as int + 1]);
        }
    }

    /// Sets the filter list and the text it was read from.
    pub fn set_filter(&mut self, filter_text: &str, specs: &Vec<FilterSpec>)
        requires
            old(self).wf(),
            forall|i: int| 0 <= i < specs.len() ==> spec_valid(#[trigger] specs@[i]),
        ensures
            final(self).wf(),
            final(self).recording@ == old(self).recording@,
            final(self)@ == (ContextView {
                state: StateView {
                    paint: PaintView { image_filter: filter_of(specs@), ..old(self)@.state.paint },
                    filter: filter_text@,
                    ..old(self)@.state
                },
                ..old(self)@
            }),
    {
        let chain = build_filter_chain(specs);
        if chain.len() == 0 {
            self.state.paint.image_filter = ImageFilter::Identity;
        } else {
            self.state.paint.image_filter = ImageFilter::Chain(chain);
        }
        self.state.filter = filter_text.to_owned();
        assert(self@.state.paint =~= PaintView { image_filter: filter_of(specs@), ..old(self)@.state.paint });
        assert(self@.stack =~= old(self)@.stack);
    }

    /// Sets the paint's filter quality: the image quality with smoothing on, none
    /// with it off.
    pub fn update_image_quality(&mut self)
        requires
            old(self).wf(),
        ensures
            final(self).wf(),
            final(self).recording@ == old(self).recording@,
            final(self)@ == (ContextView {
                state: StateView {
                    paint: PaintView {
                        filter_quality: if old(self).state.image_smoothing_enabled {
                            old(self).state.image_filter_quality
                        } else {
                            crate::state::FilterQuality::Off
                        },
                        ..old(self)@.state.paint
                    },
                    ..old(self)@.state
                },
                ..old(self)@
            }),
    {
        self.state.paint.filter_quality = if self.state.image_smoothing_enabled {
            self.state.image_filter_quality
        } else {
            crate::state::FilterQuality::Off
        };
        assert(self@.stack =~= old(self)@.stack);
    }

    /// Takes a font accepted by the font library: its canonical description and its
    /// variant.
    pub fn set_font(&mut self, canonical: String, variant: &str)
        requires
            old(self).wf(),
        ensures
            final(self).wf(),
            final(self).recording@ == old(self).recording@,
            final(self)@ == (ContextView {
                state: StateView { font: canonical@, font_variant: variant@, ..old(self)@.state },
                ..old(self)@
            }),
    {
        self.state.font = canonical;
        self.state.font_variant = variant.to_owned();
        assert(self@.stack =~= old(self)@.stack);
    }

    /// Sets the font variant and the OpenType features that go with it.
    pub fn set_font_variant(&mut self, variant: &str, features: &Vec<String>)
        requires
            old(self).wf(),
        ensures
            final(self).wf(),
            final(self).recording@ == old(self).recording@,
            final(self)@ == (ContextView {
                state: StateView {
                    font_variant: variant@,
                    font_features: features@.map_values(|s: String| s@),
                    ..old(self)@.state
                },
                ..old(self)@
            }),
    {
        self.state.font_variant = variant.to_owned();
        self.state.font_features = crate::state::copy_strings(features);
        assert(self@.stack =~= old(self)@.stack);
    }
}

impl Context2D {
    /// Where a gradient or pattern set at the current save depth is kept in its
    /// host-side queue: the slot at the depth, the queue cut to end just after it.
    pub fn stash_index(&self) -> (r: (usize, usize))
        requires
            self.stack.len() < usize::MAX,
        ensures
            r.0 == self.stack.len(),
            r.1 == self.stack.len() + 1,
    {
        (self.stack.len(), self.stack.len() + 1)
    }

    /// Which slot of a host-side queue of `len` entries holds the gradient or
    /// pattern in force at the current save depth: the depth's own, or the last
    /// one set below it; none in an empty queue.
    pub fn fetch_index(&self, len: usize) -> (r: Option<usize>)
        ensures
            len == 0 ==> r is None,
            len > 0 ==> r == Some(if self.stack.len() < len - 1 { self.stack.len() } else { (len - 1) as usize }),
    {
        if len == 0 {
            None
        } else if self.stack.len() < len - 1 {
            Some(self.stack.len())
        } else {
            Some(len - 1)
        }
    }
}

/// A context just resized draws nothing, so its pixels read back transparent.
pub proof fn lemma_resized_blank()
    ensures
        draws_nothing(seq![DrawOp::ResetSurface]),
{
}

} // verus!
