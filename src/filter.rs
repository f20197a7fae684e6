//! The filter-effect chain: each named effect becomes a color matrix, a lookup
//! table, a blur or a drop shadow, applied in list order.
use vstd::prelude::*;
use crate::color::{Rgba, UNIT};
use crate::geometry::{div_floor, floor_div, lemma_div_exact};

verus! {

/// Largest magnitude of an effect amount, in fixed point.
pub const AMOUNT_MAX: i64 = 1099511627776;

/// One entry of a filter list.
#[derive(Clone, Debug)]
pub enum FilterSpec {
    /// `drop-shadow(dx dy blur color)`.
    Shadow { dx: i64, dy: i64, blur: i64, color: Rgba },
    /// A named effect with its amount in fixed point (`brightness(1.5)` has 15000):
    /// `blur`, `brightness`, `contrast`, `grayscale`, `invert`, `opacity`,
    /// `saturate` or `sepia`. Any other name, `hue-rotate` among them, is passed
    /// over; a hue rotation comes as `HueRotate`.
    Plain { name: String, value: i64 },
    /// `hue-rotate(angle)`, given by the angle's cosine and sine in fixed point.
    HueRotate { cos: i64, sin: i64 },
}

/// One stage of the composed image filter.
#[derive(Clone, Debug)]
pub enum FilterEffect {
    DropShadow { dx: i64, dy: i64, blur: i64, color: Rgba },
    Blur { sigma: i64 },
    /// A 4x5 row-major color matrix with fixed-point coefficients.
    Matrix { m: Vec<i64> },
    /// The same 256-entry lookup table applied to the red, green and blue channels.
    Table { t: Vec<u8> },
}

pub ghost enum EffectView {
    DropShadow { dx: int, dy: int, blur: int, color: Rgba },
    Blur { sigma: int },
    Matrix { m: Seq<int> },
    Table { t: Seq<u8> },
}

impl View for FilterEffect {
    type V = EffectView;

    open spec fn view(&self) -> EffectView {
        match self {
            FilterEffect::DropShadow { dx, dy, blur, color } => EffectView::DropShadow {
                dx: *dx as int,
                dy: *dy as int,
                blur: *blur as int,
                color: *color,
            },
            FilterEffect::Blur { sigma } => EffectView::Blur { sigma: *sigma as int },
            FilterEffect::Matrix { m } => EffectView::Matrix { m: m@.map_values(|v: i64| v as int) },
            FilterEffect::Table { t } => EffectView::Table { t: t@ },
        }
    }
}

pub open spec fn spec_valid(s: FilterSpec) -> bool {
    match s {
        FilterSpec::Plain { value, .. } => -AMOUNT_MAX <= value <= AMOUNT_MAX,
        FilterSpec::HueRotate { cos, sin } => -UNIT <= cos <= UNIT && -UNIT <= sin <= UNIT,
        FilterSpec::Shadow { .. } => true,
    }
}

pub open spec fn clamp_unit(v: int) -> int {
    if v < 0 {
        0
    } else if v > UNIT {
        UNIT as int
    } else {
        v
    }
}

pub open spec fn at_least_zero(v: int) -> int {
    if v < 0 {
        0
    } else {
        v
    }
}

/// `base + slope * amt`, all in fixed point, rounded down.
pub open spec fn coef(base: int, slope: int, amt: int) -> int {
    floor_div(base * UNIT + slope * amt, UNIT as int)
}

pub open spec fn scale_matrix(r: int, g: int, b: int, a: int) -> Seq<int> {
    seq![r, 0, 0, 0, 0, 0, g, 0, 0, 0, 0, 0, b, 0, 0, 0, 0, 0, a, 0]
}

/// The luminance-preserving blend used by `saturate` and `grayscale`.
pub open spec fn luma_matrix(amt: int) -> Seq<int> {
    seq![
        coef(2126, 7874, amt), coef(7152, -7152, amt), coef(722, -722, amt), 0, 0,
        coef(2126, -2126, amt), coef(7152, 2848, amt), coef(722, -722, amt), 0, 0,
        coef(2126, -2126, amt), coef(7152, -7152, amt), coef(722, 9278, amt), 0, 0,
        0, 0, 0, UNIT as int, 0,
    ]
}

pub open spec fn sepia_matrix(amt: int) -> Seq<int> {
    seq![
        coef(3930, 6070, amt), coef(7690, -7690, amt), coef(1890, -1890, amt), 0, 0,
        coef(3490, -3490, amt), coef(6860, 3140, amt), coef(1680, -1680, amt), 0, 0,
        coef(2720, -2720, amt), coef(5340, -5340, amt), coef(1310, 8690, amt), 0, 0,
        0, 0, 0, UNIT as int, 0,
    ]
}

/// `base + cc * cos + ss * sin`, all in fixed point, rounded down.
pub open spec fn hue_coef(base: int, cc: int, ss: int, cos: int, sin: int) -> int {
    floor_div(base * UNIT + cc * cos + ss * sin, UNIT as int)
}

pub open spec fn hue_matrix(cos: int, sin: int) -> Seq<int> {
    seq![
        hue_coef(2130, 7870, -2130, cos, sin), hue_coef(7150, -7150, -7150, cos, sin),
        hue_coef(720, -720, 9280, cos, sin), 0, 0,
        hue_coef(2130, -2130, 1430, cos, sin), hue_coef(7150, 2850, 1400, cos, sin),
        hue_coef(720, -720, -2830, cos, sin), 0, 0,
        hue_coef(2130, -2130, -7870, cos, sin), hue_coef(7150, -7150, 7150, cos, sin),
        hue_coef(720, 9280, 720, cos, sin), 0, 0,
        0, 0, 0, UNIT as int, 0,
    ]
}

/// The 8-bit channel a fixed-point value truncates to, saturating at both ends.
pub open spec fn channel_of(x: int) -> u8 {
    if x < 0 {
        0
    } else if x / (UNIT as int) > 255 {
        255
    } else {
        (x / (UNIT as int)) as u8
    }
}

/// `127 + amt * (i - 127)`.
pub open spec fn contrast_table(amt: int) -> Seq<u8> {
    Seq::new(256, |i: int| channel_of(127 * UNIT + amt * (i - 127)))
}

/// Each channel moved toward its inverse by `amt`.
pub open spec fn invert_table(amt: int) -> Seq<u8> {
    Seq::new(256, |i: int| channel_of(i * (UNIT - amt) + (255 - i) * amt))
}

/// The effect a named filter stands for; `None` for a name that is not known.
pub open spec fn plain_effect(name: Seq<char>, value: int) -> Option<EffectView> {
    if name == "blur"@ {
        Some(EffectView::Blur { sigma: value })
    } else if name == "brightness"@ {
        let amt = at_least_zero(value);
        Some(EffectView::Matrix { m: scale_matrix(amt, amt, amt, UNIT as int) })
    } else if name == "contrast"@ {
        Some(EffectView::Table { t: contrast_table(at_least_zero(value)) })
    } else if name == "grayscale"@ {
        Some(EffectView::Matrix { m: luma_matrix(UNIT - clamp_unit(value)) })
    } else if name == "invert"@ {
        Some(EffectView::Table { t: invert_table(clamp_unit(value)) })
    } else if name == "opacity"@ {
        Some(EffectView::Matrix { m: scale_matrix(UNIT as int, UNIT as int, UNIT as int, clamp_unit(value)) })
    } else if name == "saturate"@ {
        Some(EffectView::Matrix { m: luma_matrix(at_least_zero(value)) })
    } else if name == "sepia"@ {
        Some(EffectView::Matrix { m: sepia_matrix(UNIT - clamp_unit(value)) })
    } else {
        None
    }
}

pub open spec fn effect_of(s: FilterSpec) -> Option<EffectView> {
    match s {
        FilterSpec::Shadow { dx, dy, blur, color } => Some(
            EffectView::DropShadow { dx: dx as int, dy: dy as int, blur: blur as int, color },
        ),
        FilterSpec::Plain { name, value } => plain_effect(name@, value as int),
        FilterSpec::HueRotate { cos, sin } => Some(EffectView::Matrix { m: hue_matrix(cos as int, sin as int) }),
    }
}

/// The effects of a filter list, in list order, unknown names left out.
pub open spec fn chain_of(specs: Seq<FilterSpec>) -> Seq<EffectView>
    decreases specs.len(),
{
    if specs.len() == 0 {
        Seq::empty()
    } else {
        let rest = chain_of(specs.drop_last());
        match effect_of(specs.last()) {
            Some(e) => rest.push(e),
            None => rest,
        }
    }
}

pub open spec fn matrix_row(m: Seq<int>, k: int, c: Rgba) -> int {
    floor_div(
        m[5 * k] * c.r + m[5 * k + 1] * c.g + m[5 * k + 2] * c.b + m[5 * k + 3] * c.a + m[5 * k + 4] * 255,
        UNIT as int,
    )
}

pub open spec fn clamp_channel(v: int) -> u8 {
    if v < 0 {
        0
    } else if v > 255 {
        255
    } else {
        v as u8
    }
}

/// What a color effect does to one unpremultiplied color; effects that move pixels
/// (blur, shadow) leave it as it is.
pub open spec fn apply_color(e: EffectView, c: Rgba) -> Rgba {
    match e {
        EffectView::Matrix { m } => Rgba {
            r: clamp_channel(matrix_row(m, 0, c)),
            g: clamp_channel(matrix_row(m, 1, c)),
            b: clamp_channel(matrix_row(m, 2, c)),
            a: clamp_channel(matrix_row(m, 3, c)),
        },
        EffectView::Table { t } => Rgba { r: t[c.r as int], g: t[c.g as int], b: t[c.b as int], a: c.a },
        _ => c,
    }
}

proof fn lemma_coef_at_unit(base: int, slope: int)
    ensures
        coef(base, slope, UNIT as int) == base + slope,
{
    assert(base * UNIT + slope * UNIT == UNIT * (base + slope)) by (nonlinear_arith);
    lemma_div_exact(base + slope, UNIT as int);
}

proof fn lemma_scale_row(k: int)
    ensures
        floor_div(UNIT * k, UNIT as int) == k,
{
    lemma_div_exact(k, UNIT as int);
}

proof fn lemma_identity_matrix(m: Seq<int>, c: Rgba)
    requires
        m == scale_matrix(UNIT as int, UNIT as int, UNIT as int, UNIT as int),
    ensures
        apply_color(EffectView::Matrix { m }, c) == c,
{
    let u = UNIT as int;
    assert(m[0] == u && m[1] == 0 && m[2] == 0 && m[3] == 0 && m[4] == 0);
    assert(m[5] == 0 && m[6] == u && m[7] == 0 && m[8] == 0 && m[9] == 0);
    assert(m[10] == 0 && m[11] == 0 && m[12] == u && m[13] == 0 && m[14] == 0);
    assert(m[15] == 0 && m[16] == 0 && m[17] == 0 && m[18] == u && m[19] == 0);
    let (r, g, b, a) = (c.r as int, c.g as int, c.b as int, c.a as int);
    assert(u * r + 0 * g + 0 * b + 0 * a + 0 * 255 == u * r) by (nonlinear_arith);
    assert(0 * r + u * g + 0 * b + 0 * a + 0 * 255 == u * g) by (nonlinear_arith);
    assert(0 * r + 0 * g + u * b + 0 * a + 0 * 255 == u * b) by (nonlinear_arith);
    assert(0 * r + 0 * g + 0 * b + u * a + 0 * 255 == u * a) by (nonlinear_arith);
    assert(matrix_row(m, 0, c) == floor_div(UNIT * c.r, UNIT as int));
    assert(matrix_row(m, 1, c) == floor_div(UNIT * c.g, UNIT as int));
    assert(matrix_row(m, 2, c) == floor_div(UNIT * c.b, UNIT as int));
    assert(matrix_row(m, 3, c) == floor_div(UNIT * c.a, UNIT as int));
    lemma_scale_row(c.r as int);
    lemma_scale_row(c.g as int);
    lemma_scale_row(c.b as int);
    lemma_scale_row(c.a as int);
}

/// `brightness(1)`, `contrast(1)`, `opacity(1)` and `saturate(1)` leave every color
/// as it is.
pub proof fn lemma_identity_amounts(c: Rgba)
    ensures
        apply_color(plain_effect("brightness"@, UNIT as int).unwrap(), c) == c,
        apply_color(plain_effect("contrast"@, UNIT as int).unwrap(), c) == c,
        apply_color(plain_effect("opacity"@, UNIT as int).unwrap(), c) == c,
        apply_color(plain_effect("saturate"@, UNIT as int).unwrap(), c) == c,
{
    reveal_strlit("blur");
    reveal_strlit("brightness");
    reveal_strlit("contrast");
    reveal_strlit("grayscale");
    reveal_strlit("invert");
    reveal_strlit("opacity");
    reveal_strlit("saturate");
    assert("blur"@.len() == 4);
    assert("brightness"@.len() == 10);
    assert("contrast"@.len() == 8);
    assert("grayscale"@.len() == 9);
    assert("invert"@.len() == 6);
    assert("opacity"@.len() == 7);
    assert("saturate"@.len() == 8);
    assert("contrast"@[0] != "saturate"@[0]);
    lemma_identity_matrix(scale_matrix(UNIT as int, UNIT as int, UNIT as int, UNIT as int), c);
    // contrast: every table entry is its own index
    let t = contrast_table(UNIT as int);
    assert forall|i: int| 0 <= i < 256 implies t[i] == i as u8 by {
        assert(127 * UNIT + UNIT * (i - 127) == UNIT * i) by (nonlinear_arith);
        lemma_div_exact(i, UNIT as int);
        assert(UNIT * i >= 0) by (nonlinear_arith)
            requires
                i >= 0,
        ;
    }
    assert(t[c.r as int] == c.r && t[c.g as int] == c.g && t[c.b as int] == c.b);
    // saturate: the luma blend at full amount is the identity matrix
    let m = luma_matrix(UNIT as int);
    lemma_coef_at_unit(2126, 7874);
    lemma_coef_at_unit(7152, -7152);
    lemma_coef_at_unit(722, -722);
    lemma_coef_at_unit(2126, -2126);
    lemma_coef_at_unit(7152, 2848);
    lemma_coef_at_unit(722, 9278);
    assert(m =~= scale_matrix(UNIT as int, UNIT as int, UNIT as int, UNIT as int));
}

/// Largest magnitude of a matrix coefficient an effect is built with.
pub const COEF_MAX: i64 = 2199023255552;

/// A matrix has its 20 coefficients within bounds; a table has its 256 entries.
pub open spec fn effect_bounded(e: EffectView) -> bool {
    match e {
        EffectView::Matrix { m } => m.len() == 20 && forall|i: int| 0 <= i < 20 ==> -COEF_MAX <= #[trigger] m[i] <= COEF_MAX,
        EffectView::Table { t } => t.len() == 256,
        _ => true,
    }
}

fn name_is(name: &String, lit: &str) -> (r: bool)
    ensures
        r == (name@ == lit@),
{
    let l = lit.to_owned();
    name.eq(&l)
}

fn coef_exec(base: i64, slope: i64, amt: i64) -> (r: i64)
    requires
        -UNIT <= base <= UNIT,
        -UNIT <= slope <= UNIT,
        0 <= amt <= AMOUNT_MAX,
    ensures
        r == coef(base as int, slope as int, amt as int),
        -COEF_MAX <= r <= COEF_MAX,
{
    assert(-UNIT * UNIT <= base * UNIT <= UNIT * UNIT) by (nonlinear_arith)
        requires
            -UNIT <= base <= UNIT,
    ;
    assert(-UNIT * AMOUNT_MAX <= slope * amt <= UNIT * AMOUNT_MAX) by (nonlinear_arith)
        requires
            -UNIT <= slope <= UNIT,
            0 <= amt <= AMOUNT_MAX,
    ;
    let n: i64 = base * UNIT + slope * amt;
    let q = div_floor(n as i128, UNIT as i128);
    assert(-COEF_MAX <= q <= COEF_MAX) by (nonlinear_arith)
        requires
            q == (n as int) / (UNIT as int),
            -UNIT * UNIT - UNIT * AMOUNT_MAX <= n <= UNIT * UNIT + UNIT * AMOUNT_MAX,
    ;
    q as i64
}

fn hue_coef_exec(base: i64, cc: i64, ss: i64, cos: i64, sin: i64) -> (r: i64)
    requires
        -UNIT <= base <= UNIT,
        -UNIT <= cc <= UNIT,
        -UNIT <= ss <= UNIT,
        -UNIT <= cos <= UNIT,
        -UNIT <= sin <= UNIT,
    ensures
        r == hue_coef(base as int, cc as int, ss as int, cos as int, sin as int),
        -COEF_MAX <= r <= COEF_MAX,
{
    assert(-UNIT * UNIT <= base * UNIT <= UNIT * UNIT) by (nonlinear_arith)
        requires
            -UNIT <= base <= UNIT,
    ;
    assert(-UNIT * UNIT <= cc * cos <= UNIT * UNIT) by (nonlinear_arith)
        requires
            -UNIT <= cc <= UNIT,
            -UNIT <= cos <= UNIT,
    ;
    assert(-UNIT * UNIT <= ss * sin <= UNIT * UNIT) by (nonlinear_arith)
        requires
            -UNIT <= ss <= UNIT,
            -UNIT <= sin <= UNIT,
    ;
    let n: i64 = base * UNIT + cc * cos + ss * sin;
    let q = div_floor(n as i128, UNIT as i128);
    assert(-COEF_MAX <= q <= COEF_MAX) by (nonlinear_arith)
        requires
            q == (n as int) / (UNIT as int),
            -3 * UNIT * UNIT <= n <= 3 * UNIT * UNIT,
    ;
    q as i64
}

fn channel_exec(x: i64) -> (r: u8)
    ensures
        r == channel_of(x as int),
{
    if x < 0 {
        0
    } else {
        let q: u64 = x as u64 / UNIT as u64;
        if q > 255 {
            255
        } else {
            q as u8
        }
    }
}

fn scale_matrix_exec(r: i64, g: i64, b: i64, a: i64) -> (e: FilterEffect)
    requires
        -COEF_MAX <= r <= COEF_MAX,
        -COEF_MAX <= g <= COEF_MAX,
        -COEF_MAX <= b <= COEF_MAX,
        -COEF_MAX <= a <= COEF_MAX,
    ensures
        e@ == (EffectView::Matrix { m: scale_matrix(r as int, g as int, b as int, a as int) }),
        effect_bounded(e@),
{
    let m: Vec<i64> = vec![r, 0, 0, 0, 0, 0, g, 0, 0, 0, 0, 0, b, 0, 0, 0, 0, 0, a, 0];
    assert(m@.map_values(|v: i64| v as int) =~= scale_matrix(r as int, g as int, b as int, a as int));
    FilterEffect::Matrix { m }
}

fn luma_matrix_exec(amt: i64) -> (e: FilterEffect)
    requires
        0 <= amt <= AMOUNT_MAX,
    ensures
        e@ == (EffectView::Matrix { m: luma_matrix(amt as int) }),
        effect_bounded(e@),
{
    let m: Vec<i64> = vec![
        coef_exec(2126, 7874, amt), coef_exec(7152, -7152, amt), coef_exec(722, -722, amt), 0, 0,
        coef_exec(2126, -2126, amt), coef_exec(7152, 2848, amt), coef_exec(722, -722, amt), 0, 0,
        coef_exec(2126, -2126, amt), coef_exec(7152, -7152, amt), coef_exec(722, 9278, amt), 0, 0,
        0, 0, 0, UNIT, 0,
    ];
    assert(m@.map_values(|v: i64| v as int) =~= luma_matrix(amt as int));
    FilterEffect::Matrix { m }
}

fn sepia_matrix_exec(amt: i64) -> (e: FilterEffect)
    requires
        0 <= amt <= AMOUNT_MAX,
    ensures
        e@ == (EffectView::Matrix { m: sepia_matrix(amt as int) }),
        effect_bounded(e@),
{
    let m: Vec<i64> = vec![
        coef_exec(3930, 6070, amt), coef_exec(7690, -7690, amt), coef_exec(1890, -1890, amt), 0, 0,
        coef_exec(3490, -3490, amt), coef_exec(6860, 3140, amt), coef_exec(1680, -1680, amt), 0, 0,
        coef_exec(2720, -2720, amt), coef_exec(5340, -5340, amt), coef_exec(1310, 8690, amt), 0, 0,
        0, 0, 0, UNIT, 0,
    ];
    assert(m@.map_values(|v: i64| v as int) =~= sepia_matrix(amt as int));
    FilterEffect::Matrix { m }
}

fn hue_matrix_exec(cos: i64, sin: i64) -> (e: FilterEffect)
    requires
        -UNIT <= cos <= UNIT,
        -UNIT <= sin <= UNIT,
    ensures
        e@ == (EffectView::Matrix { m: hue_matrix(cos as int, sin as int) }),
        effect_bounded(e@),
{
    let m: Vec<i64> = vec![
        hue_coef_exec(2130, 7870, -2130, cos, sin), hue_coef_exec(7150, -7150, -7150, cos, sin),
        hue_coef_exec(720, -720, 9280, cos, sin), 0, 0,
        hue_coef_exec(2130, -2130, 1430, cos, sin), hue_coef_exec(7150, 2850, 1400, cos, sin),
        hue_coef_exec(720, -720, -2830, cos, sin), 0, 0,
        hue_coef_exec(2130, -2130, -7870, cos, sin), hue_coef_exec(7150, -7150, 7150, cos, sin),
        hue_coef_exec(720, 9280, 720, cos, sin), 0, 0,
        0, 0, 0, UNIT, 0,
    ];
    assert(m@.map_values(|v: i64| v as int) =~= hue_matrix(cos as int, sin as int));
    FilterEffect::Matrix { m }
}

fn contrast_table_exec(amt: i64) -> (e: FilterEffect)
    requires
        0 <= amt <= AMOUNT_MAX,
    ensures
        e@ == (EffectView::Table { t: contrast_table(amt as int) }),
        effect_bounded(e@),
{
    let mut t: Vec<u8> = Vec::new();
    let mut i: i64 = 0;
    while i < 256
        invariant
            0 <= i <= 256,
            0 <= amt <= AMOUNT_MAX,
            t@.len() == i,
            forall|k: int| 0 <= k < i ==> t@[k] == contrast_table(amt as int)[k],
        decreases 256 - i,
    {
        assert(-128 * AMOUNT_MAX <= amt * (i - 127) <= 128 * AMOUNT_MAX) by (nonlinear_arith)
            requires
                0 <= amt <= AMOUNT_MAX,
                0 <= i < 256,
        ;
        t.push(channel_exec(127 * UNIT + amt * (i - 127)));
        i = i + 1;
    }
    assert(t@ =~= contrast_table(amt as int));
    FilterEffect::Table { t }
}

fn invert_table_exec(amt: i64) -> (e: FilterEffect)
    requires
        0 <= amt <= UNIT,
    ensures
        e@ == (EffectView::Table { t: invert_table(amt as int) }),
        effect_bounded(e@),
{
    let mut t: Vec<u8> = Vec::new();
    let mut i: i64 = 0;
    while i < 256
        invariant
            0 <= i <= 256,
            0 <= amt <= UNIT,
            t@.len() == i,
            forall|k: int| 0 <= k < i ==> t@[k] == invert_table(amt as int)[k],
        decreases 256 - i,
    {
        assert(0 <= i * (UNIT - amt) <= 256 * UNIT && 0 <= (255 - i) * amt <= 256 * UNIT) by (nonlinear_arith)
            requires
                0 <= amt <= UNIT,
                0 <= i < 256,
        ;
        t.push(channel_exec(i * (UNIT - amt) + (255 - i) * amt));
        i = i + 1;
    }
    assert(t@ =~= invert_table(amt as int));
    FilterEffect::Table { t }
}

fn clamp_unit_exec(v: i64) -> (r: i64)
    ensures
        r == clamp_unit(v as int),
{
    if v < 0 {
        0
    } else if v > UNIT {
        UNIT
    } else {
        v
    }
}

/// The effect one filter entry stands for; `None` where its name is not known.
pub fn effect_for(spec: &FilterSpec) -> (r: Option<FilterEffect>)
    requires
        spec_valid(*spec),
    ensures
        r.is_some() == effect_of(*spec).is_some(),
        r matches Some(e) ==> e@ == effect_of(*spec).unwrap() && effect_bounded(e@),
{
    match spec {
        FilterSpec::Shadow { dx, dy, blur, color } => Some(
            FilterEffect::DropShadow { dx: *dx, dy: *dy, blur: *blur, color: *color },
        ),
        FilterSpec::HueRotate { cos, sin } => Some(hue_matrix_exec(*cos, *sin)),
        FilterSpec::Plain { name, value } => {
            let value = *value;
            let positive: i64 = if value < 0 { 0 } else { value };
            let unit = clamp_unit_exec(value);
            if name_is(name, "blur") {
                Some(FilterEffect::Blur { sigma: value })
            } else if name_is(name, "brightness") {
                Some(scale_matrix_exec(positive, positive, positive, UNIT))
            } else if name_is(name, "contrast") {
                Some(contrast_table_exec(positive))
            } else if name_is(name, "grayscale") {
                Some(luma_matrix_exec(UNIT - unit))
            } else if name_is(name, "invert") {
                Some(invert_table_exec(unit))
            } else if name_is(name, "opacity") {
                Some(scale_matrix_exec(UNIT, UNIT, UNIT, unit))
            } else if name_is(name, "saturate") {
                Some(luma_matrix_exec(positive))
            } else if name_is(name, "sepia") {
                Some(sepia_matrix_exec(UNIT - unit))
            } else {
                None
            }
        },
    }
}

/// The composed filter for a list of entries: their effects in list order, each
/// taking the previous one's output, entries with unknown names passed over.
pub fn build_filter_chain(specs: &Vec<FilterSpec>) -> (r: Vec<FilterEffect>)
    requires
        forall|i: int| 0 <= i < specs.len() ==> spec_valid(#[trigger] specs@[i]),
    ensures
        r@.map_values(|e: FilterEffect| e@) == chain_of(specs@),
        forall|i: int| 0 <= i < r.len() ==> effect_bounded(#[trigger] r@[i]@),
{
    let mut out: Vec<FilterEffect> = Vec::new();
    let mut i: usize = 0;
    while i < specs.len()
        invariant
            0 <= i <= specs.len(),
            forall|k: int| 0 <= k < specs.len() ==> spec_valid(#[trigger] specs@[k]),
            out@.map_values(|e: FilterEffect| e@) == chain_of(specs@.subrange(0, i as int)),
            forall|k: int| 0 <= k < out.len() ==> effect_bounded(#[trigger] out@[k]@),
        decreases specs.len() - i,
    {
        let ghost before = out@;
        assert(specs@.subrange(0, i as int + 1).drop_last() =~= specs@.subrange(0, i as int));
        assert(specs@.subrange(0, i as int + 1).last() == specs@[i as int]);
        match effect_for(&specs[i]) {
            Some(e) => {
                out.push(e);
                assert(out@.map_values(|e: FilterEffect| e@) =~= before.map_values(|e: FilterEffect| e@).push(e@));
            },
            None => {},
        }
        i = i + 1;
    }
    assert(specs@.subrange(0, specs.len() as int) =~= specs@);
    out
}

impl FilterEffect {
    /// What this effect does to one unpremultiplied color.
    pub fn apply_color(&self, c: Rgba) -> (r: Rgba)
        requires
            effect_bounded(self@),
        ensures
            r == apply_color(self@, c),
    {
        match self {
            FilterEffect::Matrix { m } => {
                proof {
                    assert(forall|i: int| 0 <= i < 20 ==> -COEF_MAX <= #[trigger] m@[i] <= COEF_MAX) by {
                        assert forall|i: int| 0 <= i < 20 implies -COEF_MAX <= #[trigger] m@[i] <= COEF_MAX by {
                            assert(self@->m[i] == m@[i] as int);
                        }
                    }
                }
                Rgba {
                    r: clamp_channel_exec(matrix_row_exec(m, 0, c)),
                    g: clamp_channel_exec(matrix_row_exec(m, 1, c)),
                    b: clamp_channel_exec(matrix_row_exec(m, 2, c)),
                    a: clamp_channel_exec(matrix_row_exec(m, 3, c)),
                }
            },
            FilterEffect::Table { t } => Rgba { r: t[c.r as usize], g: t[c.g as usize], b: t[c.b as usize], a: c.a },
            _ => c,
        }
    }
}

fn clamp_channel_exec(v: i64) -> (r: u8)
    ensures
        r == clamp_channel(v as int),
{
    if v < 0 {
        0
    } else if v > 255 {
        255
    } else {
        v as u8
    }
}

proof fn lemma_term_bound(m: i64, ch: u8)
    requires
        -COEF_MAX <= m <= COEF_MAX,
    ensures
        -COEF_MAX * 255 <= m * ch <= COEF_MAX * 255,
{
    assert(-COEF_MAX * 255 <= m * ch <= COEF_MAX * 255) by (nonlinear_arith)
        requires
            -COEF_MAX <= m <= COEF_MAX,
            0 <= ch <= 255,
    ;
}

fn matrix_row_exec(m: &Vec<i64>, k: usize, c: Rgba) -> (r: i64)
    requires
        m.len() == 20,
        k < 4,
        forall|i: int| 0 <= i < 20 ==> -COEF_MAX <= #[trigger] m@[i] <= COEF_MAX,
    ensures
        r == matrix_row(m@.map_values(|v: i64| v as int), k as int, c),
{
    let b = 5 * k;
    proof {
        lemma_term_bound(m@[b as int], c.r);
        lemma_term_bound(m@[b + 1], c.g);
        lemma_term_bound(m@[b + 2], c.b);
        lemma_term_bound(m@[b + 3], c.a);
        lemma_term_bound(m@[b + 4], 255);
    }
    let n: i64 = m[b] * c.r as i64 + m[b + 1] * c.g as i64 + m[b + 2] * c.b as i64 + m[b + 3] * c.a as i64 + m[b + 4] * 255;
    let q = div_floor(n as i128, UNIT as i128);
    assert(-COEF_MAX * 255 * 5 <= q <= COEF_MAX * 255 * 5) by (nonlinear_arith)
        requires
            q == (n as int) / (UNIT as int),
            -COEF_MAX * 255 * 5 <= n <= COEF_MAX * 255 * 5,
    ;
    q as i64
}

} // verus!
