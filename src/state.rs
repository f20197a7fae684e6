//! Paint resolution and the drawing state saved and restored as a whole.
use vstd::prelude::*;
use crate::color::{Rgba, UNIT, is_fraction, scaled_alpha};
use crate::filter::{FilterEffect, EffectView};
use crate::geometry::{Matrix, Point};
use crate::path::{Path, ContourView, FillRule, LineCap};

verus! {

#[derive(Clone, Copy, Debug, PartialEq, Eq, Structural)]
pub enum BlendMode {
    Clear,
    Src,
    Dst,
    SrcOver,
    DstOver,
    SrcIn,
    DstIn,
    SrcOut,
    DstOut,
    SrcATop,
    DstATop,
    Xor,
    Plus,
    Modulate,
    Screen,
    Overlay,
    Darken,
    Lighten,
    ColorDodge,
    ColorBurn,
    HardLight,
    SoftLight,
    Difference,
    Exclusion,
    Multiply,
    Hue,
    Saturation,
    Color,
    Luminosity,
}

/// Modes whose effect reaches pixels outside the geometry being drawn.
pub open spec fn is_regional(m: BlendMode) -> bool {
    match m {
        BlendMode::SrcIn | BlendMode::SrcOut | BlendMode::DstIn | BlendMode::DstOut
        | BlendMode::DstATop | BlendMode::Src => true,
        _ => false,
    }
}

impl BlendMode {
    pub fn is_regional(&self) -> (r: bool)
        ensures
            r == is_regional(*self),
    {
        match self {
            BlendMode::SrcIn | BlendMode::SrcOut | BlendMode::DstIn | BlendMode::DstOut
            | BlendMode::DstATop | BlendMode::Src => true,
            _ => false,
        }
    }
}

#[derive(Clone, Copy, Debug, PartialEq, Eq, Structural)]
pub enum PaintStyle {
    Fill,
    Stroke,
}

#[derive(Clone, Copy, Debug, PartialEq, Eq, Structural)]
pub enum FilterQuality {
    Off,
    Low,
    Medium,
    High,
}

#[derive(Clone, Copy, Debug, PartialEq, Eq, Structural)]
pub enum Baseline {
    Top,
    Hanging,
    Middle,
    Alphabetic,
    Ideographic,
    Bottom,
}

#[derive(Clone, Copy, Debug, PartialEq, Eq, Structural)]
pub enum TextAlign {
    Left,
    Right,
    Center,
    Start,
    End,
}

/// A fill or stroke style: a solid color, or a handle to a gradient or pattern
/// owned by the host.
#[derive(Clone, Copy, Debug, PartialEq, Eq, Structural)]
pub enum Dye {
    Color(Rgba),
    Gradient(u64),
    Pattern(u64),
}

/// What a paint colors its pixels with besides its solid color.
#[derive(Clone, Copy, Debug, PartialEq, Eq, Structural)]
pub enum Shader {
    Solid,
    Gradient(u64),
    Pattern(u64),
}

/// The image filter a paint carries.
#[derive(Clone, Debug)]
pub enum ImageFilter {
    Identity,
    Chain(Vec<FilterEffect>),
    /// Only the blurred, colored silhouette of what is drawn.
    ShadowOnly { blur: i64, color: Rgba },
}

pub ghost enum ImageFilterView {
    Identity,
    Chain(Seq<EffectView>),
    ShadowOnly { blur: i64, color: Rgba },
}

impl View for ImageFilter {
    type V = ImageFilterView;

    open spec fn view(&self) -> ImageFilterView {
        match self {
            ImageFilter::Identity => ImageFilterView::Identity,
            ImageFilter::Chain(v) => ImageFilterView::Chain(v@.map_values(|e: FilterEffect| e@)),
            ImageFilter::ShadowOnly { blur, color } => ImageFilterView::ShadowOnly { blur: *blur, color: *color },
        }
    }
}

/// Everything a draw call is made with.
#[derive(Clone, Debug)]
pub struct Paint {
    pub style: PaintStyle,
    pub color: Rgba,
    pub shader: Shader,
    /// Opacity applied to the shader, as a fraction.
    pub shader_alpha: i64,
    pub stroke_width: i64,
    pub stroke_miter: i64,
    pub line_cap: LineCap,
    pub anti_alias: bool,
    pub blend_mode: BlendMode,
    pub filter_quality: FilterQuality,
    pub image_filter: ImageFilter,
    pub dash: Vec<i64>,
    pub dash_offset: i64,
}

pub ghost struct PaintView {
    pub style: PaintStyle,
    pub color: Rgba,
    pub shader: Shader,
    pub shader_alpha: i64,
    pub stroke_width: i64,
    pub stroke_miter: i64,
    pub line_cap: LineCap,
    pub anti_alias: bool,
    pub blend_mode: BlendMode,
    pub filter_quality: FilterQuality,
    pub image_filter: ImageFilterView,
    pub dash: Seq<i64>,
    pub dash_offset: i64,
}

impl View for Paint {
    type V = PaintView;

    open spec fn view(&self) -> PaintView {
        PaintView {
            style: self.style,
            color: self.color,
            shader: self.shader,
            shader_alpha: self.shader_alpha,
            stroke_width: self.stroke_width,
            stroke_miter: self.stroke_miter,
            line_cap: self.line_cap,
            anti_alias: self.anti_alias,
            blend_mode: self.blend_mode,
            filter_quality: self.filter_quality,
            image_filter: self.image_filter@,
            dash: self.dash@,
            dash_offset: self.dash_offset,
        }
    }
}

pub fn copy_vec<T: Copy>(v: &Vec<T>) -> (r: Vec<T>)
    ensures
        r@ == v@,
{
    let mut r: Vec<T> = Vec::new();
    let mut i: usize = 0;
    while i < v.len()
        invariant
            0 <= i <= v.len(),
            r@ == v@.subrange(0, i as int),
        decreases v.len() - i,
    {
        r.push(v[i]);
        i = i + 1;
        assert(r@ =~= v@.subrange(0, i as int));
    }
    assert(v@.subrange(0, v.len() as int) =~= v@);
    r
}

pub fn copy_strings(v: &Vec<String>) -> (r: Vec<String>)
    ensures
        r@.map_values(|s: String| s@) == v@.map_values(|s: String| s@),
{
    let mut r: Vec<String> = Vec::new();
    let mut i: usize = 0;
    while i < v.len()
        invariant
            0 <= i <= v.len(),
            r.len() == i,
            forall|k: int| 0 <= k < i ==> (#[trigger] r@[k])@ == v@[k]@,
        decreases v.len() - i,
    {
        r.push(v[i].clone());
        i = i + 1;
    }
    assert(r@.map_values(|s: String| s@) =~= v@.map_values(|s: String| s@));
    r
}

impl FilterEffect {
    pub fn duplicate(&self) -> (r: FilterEffect)
        ensures
            r@ == self@,
    {
        match self {
            FilterEffect::DropShadow { dx, dy, blur, color } => FilterEffect::DropShadow {
                dx: *dx,
                dy: *dy,
                blur: *blur,
                color: *color,
            },
            FilterEffect::Blur { sigma } => FilterEffect::Blur { sigma: *sigma },
            FilterEffect::Matrix { m } => FilterEffect::Matrix { m: copy_vec(m) },
            FilterEffect::Table { t } => FilterEffect::Table { t: copy_vec(t) },
        }
    }
}

pub fn copy_effects(v: &Vec<FilterEffect>) -> (r: Vec<FilterEffect>)
    ensures
        r@.map_values(|e: FilterEffect| e@) == v@.map_values(|e: FilterEffect| e@),
{
    let mut r: Vec<FilterEffect> = Vec::new();
    let mut i: usize = 0;
    while i < v.len()
        invariant
            0 <= i <= v.len(),
            r.len() == i,
            forall|k: int| 0 <= k < i ==> (#[trigger] r@[k])@ == v@[k]@,
        decreases v.len() - i,
    {
        r.push(v[i].duplicate());
        i = i + 1;
    }
    assert(r@.map_values(|e: FilterEffect| e@) =~= v@.map_values(|e: FilterEffect| e@));
    r
}

impl ImageFilter {
    pub fn duplicate(&self) -> (r: ImageFilter)
        ensures
            r@ == self@,
    {
        match self {
            ImageFilter::Identity => ImageFilter::Identity,
            ImageFilter::Chain(v) => ImageFilter::Chain(copy_effects(v)),
            ImageFilter::ShadowOnly { blur, color } => ImageFilter::ShadowOnly { blur: *blur, color: *color },
        }
    }
}

impl Paint {
    pub fn duplicate(&self) -> (r: Paint)
        ensures
            r@ == self@,
    {
        Paint {
            style: self.style,
            color: self.color,
            shader: self.shader,
            shader_alpha: self.shader_alpha,
            stroke_width: self.stroke_width,
            stroke_miter: self.stroke_miter,
            line_cap: self.line_cap,
            anti_alias: self.anti_alias,
            blend_mode: self.blend_mode,
            filter_quality: self.filter_quality,
            image_filter: self.image_filter.duplicate(),
            dash: copy_vec(&self.dash),
            dash_offset: self.dash_offset,
        }
    }
}

/// `paint` colored by `dye` at the fraction `alpha`: a color gets its alpha scaled, a
/// gradient or pattern becomes the shader at that opacity.
pub open spec fn mixed(paint: PaintView, dye: Dye, alpha: int) -> PaintView {
    match dye {
        Dye::Color(c) => PaintView { color: scaled_alpha(c, alpha), ..paint },
        Dye::Gradient(h) => PaintView { shader: Shader::Gradient(h), shader_alpha: alpha as i64, ..paint },
        Dye::Pattern(h) => PaintView { shader: Shader::Pattern(h), shader_alpha: alpha as i64, ..paint },
    }
}

impl Dye {
    pub fn mix_into(&self, paint: &mut Paint, alpha: i64)
        requires
            is_fraction(alpha as int),
        ensures
            final(paint)@ == mixed(old(paint)@, *self, alpha as int),
    {
        match self {
            Dye::Color(c) => {
                paint.color = c.with_alpha(alpha);
            },
            Dye::Gradient(h) => {
                paint.shader = Shader::Gradient(*h);
                paint.shader_alpha = alpha;
            },
            Dye::Pattern(h) => {
                paint.shader = Shader::Pattern(*h);
                paint.shader_alpha = alpha;
            },
        }
    }
}

/// One region the clip is narrowed to.
#[derive(Clone, Debug)]
pub struct ClipShape {
    pub path: Path,
    pub rule: FillRule,
}

pub ghost struct ClipView {
    pub path: Seq<ContourView>,
    pub rule: FillRule,
}

impl View for ClipShape {
    type V = ClipView;

    open spec fn view(&self) -> ClipView {
        ClipView { path: self.path@, rule: self.rule }
    }
}

/// The drawing attributes in force at one save depth.
#[derive(Clone, Debug)]
pub struct State {
    /// The regions the drawing is clipped to, all of them at once; none means
    /// unclipped.
    pub clip: Vec<ClipShape>,
    pub matrix: Matrix,
    pub paint: Paint,
    pub fill_style: Dye,
    pub stroke_style: Dye,
    pub shadow_blur: i64,
    pub shadow_color: Rgba,
    pub shadow_offset: Point,
    pub stroke_width: i64,
    pub line_dash_offset: i64,
    pub line_dash_list: Vec<i64>,
    /// A fraction.
    pub global_alpha: i64,
    pub global_composite_operation: BlendMode,
    pub image_filter_quality: FilterQuality,
    pub image_smoothing_enabled: bool,
    pub filter: String,
    pub font: String,
    pub font_variant: String,
    pub font_features: Vec<String>,
    pub text_align: TextAlign,
    pub text_baseline: Baseline,
    pub text_tracking: i32,
    pub text_wrap: bool,
}

pub ghost struct StateView {
    pub clip: Seq<ClipView>,
    pub matrix: Matrix,
    pub paint: PaintView,
    pub fill_style: Dye,
    pub stroke_style: Dye,
    pub shadow_blur: i64,
    pub shadow_color: Rgba,
    pub shadow_offset: Point,
    pub stroke_width: i64,
    pub line_dash_offset: i64,
    pub line_dash_list: Seq<i64>,
    pub global_alpha: i64,
    pub global_composite_operation: BlendMode,
    pub image_filter_quality: FilterQuality,
    pub image_smoothing_enabled: bool,
    pub filter: Seq<char>,
    pub font: Seq<char>,
    pub font_variant: Seq<char>,
    pub font_features: Seq<Seq<char>>,
    pub text_align: TextAlign,
    pub text_baseline: Baseline,
    pub text_tracking: i32,
    pub text_wrap: bool,
}

impl View for State {
    type V = StateView;

    open spec fn view(&self) -> StateView {
        StateView {
            clip: self.clip@.map_values(|c: ClipShape| c@),
            matrix: self.matrix,
            paint: self.paint@,
            fill_style: self.fill_style,
            stroke_style: self.stroke_style,
            shadow_blur: self.shadow_blur,
            shadow_color: self.shadow_color,
            shadow_offset: self.shadow_offset,
            stroke_width: self.stroke_width,
            line_dash_offset: self.line_dash_offset,
            line_dash_list: self.line_dash_list@,
            global_alpha: self.global_alpha,
            global_composite_operation: self.global_composite_operation,
            image_filter_quality: self.image_filter_quality,
            image_smoothing_enabled: self.image_smoothing_enabled,
            filter: self.filter@,
            font: self.font@,
            font_variant: self.font_variant@,
            font_features: self.font_features@.map_values(|s: String| s@),
            text_align: self.text_align,
            text_baseline: self.text_baseline,
            text_tracking: self.text_tracking,
            text_wrap: self.text_wrap,
        }
    }
}

/// The paint every state starts with: black, anti-aliased, filled, a one-pixel stroke with
/// butt caps and a miter limit of 10, low filter quality, drawn over what is there.
pub open spec fn default_paint() -> PaintView {
    PaintView {
        style: PaintStyle::Fill,
        color: Rgba { r: 0, g: 0, b: 0, a: 255 },
        shader: Shader::Solid,
        shader_alpha: UNIT,
        stroke_width: crate::geometry::SUBPIXELS,
        stroke_miter: 10,
        line_cap: LineCap::Butt,
        anti_alias: true,
        blend_mode: BlendMode::SrcOver,
        filter_quality: FilterQuality::Low,
        image_filter: ImageFilterView::Identity,
        dash: Seq::empty(),
        dash_offset: 0,
    }
}

pub open spec fn default_state() -> StateView {
    StateView {
        clip: Seq::empty(),
        matrix: Matrix { sx: crate::geometry::MATRIX_UNIT, kx: 0, tx: 0, ky: 0, sy: crate::geometry::MATRIX_UNIT, ty: 0 },
        paint: default_paint(),
        fill_style: Dye::Color(Rgba { r: 0, g: 0, b: 0, a: 255 }),
        stroke_style: Dye::Color(Rgba { r: 0, g: 0, b: 0, a: 255 }),
        shadow_blur: 0,
        shadow_color: Rgba { r: 0, g: 0, b: 0, a: 0 },
        shadow_offset: Point { x: 0, y: 0 },
        stroke_width: crate::geometry::SUBPIXELS,
        line_dash_offset: 0,
        line_dash_list: Seq::empty(),
        global_alpha: UNIT,
        global_composite_operation: BlendMode::SrcOver,
        image_filter_quality: FilterQuality::Low,
        image_smoothing_enabled: true,
        filter: "none"@,
        font: "10px sans-serif"@,
        font_variant: "normal"@,
        font_features: Seq::empty(),
        text_align: TextAlign::Start,
        text_baseline: Baseline::Alphabetic,
        text_tracking: 0,
        text_wrap: false,
    }
}

/// The paint and attributes a state stays within: a fractional alpha, transform
/// entries and offsets within the coordinate range, a usable stroke width, and
/// filter effects that can be applied.
pub open spec fn state_valid(s: StateView) -> bool {
    &&& is_fraction(s.global_alpha as int)
    &&& s.matrix.valid()
    &&& s.shadow_offset.valid()
    &&& 0 <= s.stroke_width <= 0x2000_0000
    &&& 0 <= s.paint.stroke_width <= 0x2000_0000
    &&& 0 <= s.shadow_blur <= 0x2000_0000
    &&& forall|i: int| 0 <= i < s.clip.len() ==> crate::path::path_valid(#[trigger] s.clip[i].path)
}

impl State {
    pub fn new() -> (s: State)
        ensures
            s@ == default_state(),
            state_valid(s@),
    {
        let s = State {
            clip: Vec::new(),
            matrix: Matrix::identity(),
            paint: Paint {
                style: PaintStyle::Fill,
                color: Rgba::black(),
                shader: Shader::Solid,
                shader_alpha: UNIT,
                stroke_width: crate::geometry::SUBPIXELS,
                stroke_miter: 10,
                line_cap: LineCap::Butt,
                anti_alias: true,
                blend_mode: BlendMode::SrcOver,
                filter_quality: FilterQuality::Low,
                image_filter: ImageFilter::Identity,
                dash: Vec::new(),
                dash_offset: 0,
            },
            fill_style: Dye::Color(Rgba::black()),
            stroke_style: Dye::Color(Rgba::black()),
            shadow_blur: 0,
            shadow_color: Rgba::transparent(),
            shadow_offset: Point::new(0, 0),
            stroke_width: crate::geometry::SUBPIXELS,
            line_dash_offset: 0,
            line_dash_list: Vec::new(),
            global_alpha: UNIT,
            global_composite_operation: BlendMode::SrcOver,
            image_filter_quality: FilterQuality::Low,
            image_smoothing_enabled: true,
            filter: "none".to_owned(),
            font: "10px sans-serif".to_owned(),
            font_variant: "normal".to_owned(),
            font_features: Vec::new(),
            text_align: TextAlign::Start,
            text_baseline: Baseline::Alphabetic,
            text_tracking: 0,
            text_wrap: false,
        };
        assert(s@.clip =~= Seq::<ClipView>::empty());
        assert(s@.font_features =~= Seq::<Seq<char>>::empty());
        assert(s@.paint =~= default_paint());
        assert(s@ =~= default_state());
        s
    }

    /// A copy equal to this state in every attribute.
    pub fn duplicate(&self) -> (r: State)
        ensures
            r@ == self@,
    {
        let mut clip: Vec<ClipShape> = Vec::new();
        let mut i: usize = 0;
        while i < self.clip.len()
            invariant
                0 <= i <= self.clip.len(),
                clip.len() == i,
                forall|k: int| 0 <= k < i ==> (#[trigger] clip@[k])@ == self.clip@[k]@,
            decreases self.clip.len() - i,
        {
            clip.push(ClipShape { path: self.clip[i].path.duplicate(), rule: self.clip[i].rule });
            i = i + 1;
        }
        let r = State {
            clip,
            matrix: self.matrix,
            paint: self.paint.duplicate(),
            fill_style: self.fill_style,
            stroke_style: self.stroke_style,
            shadow_blur: self.shadow_blur,
            shadow_color: self.shadow_color,
            shadow_offset: self.shadow_offset,
            stroke_width: self.stroke_width,
            line_dash_offset: self.line_dash_offset,
            line_dash_list: copy_vec(&self.line_dash_list),
            global_alpha: self.global_alpha,
            global_composite_operation: self.global_composite_operation,
            image_filter_quality: self.image_filter_quality,
            image_smoothing_enabled: self.image_smoothing_enabled,
            filter: self.filter.clone(),
            font: self.font.clone(),
            font_variant: self.font_variant.clone(),
            font_features: copy_strings(&self.font_features),
            text_align: self.text_align,
            text_baseline: self.text_baseline,
            text_tracking: self.text_tracking,
            text_wrap: self.text_wrap,
        };
        assert(r@.clip =~= self@.clip);
        assert(r@ =~= self@);
        r
    }
}

} // verus!
