use canvas_context::color::{Rgba, UNIT};
use canvas_context::context::{Context2D, DrawOp, Shape};
use canvas_context::filter::{build_filter_chain, effect_for, FilterEffect, FilterSpec};
use canvas_context::geometry::Rect;
use canvas_context::state::{Baseline, ImageFilter, TextAlign};
use canvas_context::text::{text_bounds, typeset_text, FontMetrics, LineMetrics};

fn plain(name: &str, value: i64) -> FilterSpec {
    FilterSpec::Plain { name: name.to_string(), value }
}

fn colors() -> Vec<Rgba> {
    vec![
        Rgba::new(0, 0, 0, 0),
        Rgba::new(255, 255, 255, 255),
        Rgba::new(12, 200, 77, 128),
        Rgba::new(255, 0, 128, 3),
    ]
}

#[test]
fn identity_amounts_keep_colors() {
    for name in ["brightness", "contrast", "opacity", "saturate"] {
        let e = effect_for(&plain(name, UNIT)).unwrap();
        for c in colors() {
            assert_eq!(e.apply_color(c), c, "{}", name);
        }
    }
}

#[test]
fn unknown_filter_names_pass_through() {
    assert!(effect_for(&plain("wobble", 5)).is_none());
    let chain = build_filter_chain(&vec![plain("wobble", 5), plain("blur", 30000), plain("nope", 1)]);
    assert_eq!(chain.len(), 1);
    assert!(matches!(chain[0], FilterEffect::Blur { sigma: 30000 }));
}

#[test]
fn chain_keeps_list_order() {
    let chain = build_filter_chain(&vec![
        FilterSpec::Shadow { dx: 1, dy: 2, blur: 4, color: Rgba::new(1, 2, 3, 4) },
        plain("invert", UNIT),
        plain("sepia", 0),
    ]);
    assert_eq!(chain.len(), 3);
    assert!(matches!(chain[0], FilterEffect::DropShadow { dx: 1, dy: 2, blur: 4, .. }));
    assert!(matches!(chain[1], FilterEffect::Table { .. }));
    assert!(matches!(chain[2], FilterEffect::Matrix { .. }));
}

#[test]
fn brightness_scales_channels() {
    let e = effect_for(&plain("brightness", 5000)).unwrap();
    assert_eq!(e.apply_color(Rgba::new(100, 201, 255, 77)), Rgba::new(50, 100, 127, 77));
    let neg = effect_for(&plain("brightness", -3)).unwrap();
    assert_eq!(neg.apply_color(Rgba::new(100, 201, 255, 77)), Rgba::new(0, 0, 0, 77));
}

#[test]
fn contrast_table_values() {
    let e = effect_for(&plain("contrast", 20000)).unwrap();
    match &e {
        FilterEffect::Table { t } => {
            assert_eq!(t.len(), 256);
            assert_eq!(t[127], 127);
            assert_eq!(t[0], 0);
            assert_eq!(t[100], 73);
            assert_eq!(t[200], 255);
        }
        _ => panic!("contrast is a table"),
    }
    let flat = effect_for(&plain("contrast", 0)).unwrap();
    assert_eq!(flat.apply_color(Rgba::new(0, 90, 255, 9)), Rgba::new(127, 127, 127, 9));
}

#[test]
fn invert_and_opacity() {
    let inv = effect_for(&plain("invert", UNIT)).unwrap();
    assert_eq!(inv.apply_color(Rgba::new(0, 100, 255, 40)), Rgba::new(255, 155, 0, 40));
    let half = effect_for(&plain("invert", 20000)).unwrap();
    assert_eq!(half.apply_color(Rgba::new(10, 10, 10, 1)), Rgba::new(245, 245, 245, 1));
    let op = effect_for(&plain("opacity", 2500)).unwrap();
    assert_eq!(op.apply_color(Rgba::new(1, 2, 3, 200)), Rgba::new(1, 2, 3, 50));
}

#[test]
fn grayscale_and_sepia() {
    let g = effect_for(&plain("grayscale", UNIT)).unwrap();
    assert_eq!(g.apply_color(Rgba::new(255, 0, 0, 255)), Rgba::new(54, 54, 54, 255));
    let none = effect_for(&plain("grayscale", 0)).unwrap();
    assert_eq!(none.apply_color(Rgba::new(1, 2, 3, 4)), Rgba::new(1, 2, 3, 4));
    let s = effect_for(&plain("sepia", UNIT)).unwrap();
    assert_eq!(s.apply_color(Rgba::new(100, 100, 100, 255)), Rgba::new(135, 120, 93, 255));
    let sat0 = effect_for(&plain("saturate", 0)).unwrap();
    assert_eq!(sat0.apply_color(Rgba::new(0, 255, 0, 255)), Rgba::new(182, 182, 182, 255));
}

#[test]
fn hue_rotate_by_nothing_is_identity() {
    let e = effect_for(&FilterSpec::HueRotate { cos: UNIT, sin: 0 }).unwrap();
    match &e {
        FilterEffect::Matrix { m } => {
            assert_eq!(m[0], UNIT);
            assert_eq!(m[1], 0);
            assert_eq!(m[6], UNIT);
            assert_eq!(m[12], UNIT);
        }
        _ => panic!("hue-rotate is a matrix"),
    }
    assert_eq!(e.apply_color(Rgba::new(9, 80, 250, 3)), Rgba::new(9, 80, 250, 3));
}

#[test]
fn set_filter_with_no_known_effect_clears_filter() {
    let mut ctx = Context2D::new(Rect::from_size(10, 10));
    ctx.set_filter("wobble(3)", &vec![plain("wobble", 3)]);
    assert_eq!(ctx.state.filter, "wobble(3)");
    assert!(matches!(ctx.state.paint.image_filter, ImageFilter::Identity));
    ctx.set_filter("opacity(50%)", &vec![plain("opacity", 5000)]);
    assert!(matches!(&ctx.state.paint.image_filter, ImageFilter::Chain(v) if v.len() == 1));
}

fn font() -> FontMetrics {
    FontMetrics { ascent: -8, descent: 2, cap_height: 6 }
}

#[test]
fn measure_empty_text() {
    let ctx = Context2D::new(Rect::from_size(10, 10));
    let rows = ctx.measure_text("", &font(), &vec![]);
    assert_eq!(rows, vec![vec![0, 0, 0, 0, 0, 8, 2, 8, 2, 6, 0, -2]]);
}

#[test]
fn measure_empty_text_other_baseline() {
    let mut ctx = Context2D::new(Rect::from_size(10, 10));
    ctx.state.text_baseline = Baseline::Top;
    let rows = ctx.measure_text("", &font(), &vec![]);
    assert_eq!(rows, vec![vec![0, 0, 0, 0, 0, 0, 10, 0, 10, -2, -8, -10]]);
}

#[test]
fn measure_two_lines() {
    let ctx = Context2D::new(Rect::from_size(10, 10));
    let lines = vec![
        LineMetrics { left: 0, width: 40, baseline: 8, ascent: 8, descent: 2, start_index: 0, end_index: 5 },
        LineMetrics { left: 0, width: 30, baseline: 20, ascent: 8, descent: 2, start_index: 6, end_index: 9 },
    ];
    let rows = ctx.measure_text("hello wor", &font(), &lines);
    assert_eq!(rows.len(), 3);
    assert_eq!(rows[0], vec![40, 0, 40, 8, 14, 8, 2, 8, 2, 6, 0, -2]);
    assert_eq!(rows[1], vec![0, -8, 40, 10, 0, 0, 5]);
    assert_eq!(rows[2], vec![0, 4, 30, 10, 12, 6, 9]);
}

#[test]
fn measure_centered_line() {
    let mut ctx = Context2D::new(Rect::from_size(10, 10));
    ctx.state.text_align = TextAlign::Center;
    let lines = vec![LineMetrics { left: 0, width: 40, baseline: 8, ascent: 8, descent: 2, start_index: 0, end_index: 5 }];
    let rows = ctx.measure_text("hello wor", &font(), &lines);
    assert_eq!(rows[1], vec![-20, -8, 40, 10, 0, 0, 5]);
}

#[test]
fn draw_text_places_picture() {
    let mut ctx = Context2D::new(Rect::from_size(10, 10));
    ctx.state.text_baseline = Baseline::Top;
    ctx.state.text_align = TextAlign::Right;
    let paint = ctx.paint_for_fill();
    ctx.draw_text(5, 100, 50, Some(40), &paint, &font(), 8);
    match &ctx.recording[0] {
        DrawOp::Draw { shape: Shape::Picture { picture, x, y }, .. } => {
            assert_eq!(*picture, 5);
            assert_eq!(*x, 60);
            assert_eq!(*y, 50);
        }
        _ => panic!("expected a picture draw"),
    }
    ctx.state.text_align = TextAlign::Left;
    ctx.draw_text(6, 0, 0, None, &paint, &font(), 8);
    assert!(matches!(&ctx.recording[1], DrawOp::Draw { shape: Shape::Picture { x: 0, y: 0, .. }, .. }));
}

#[test]
fn measure_empty_text_ignores_reported_line() {
    let ctx = Context2D::new(Rect::from_size(10, 10));
    let lines = vec![LineMetrics { left: 0, width: 0, baseline: 8, ascent: 8, descent: 2, start_index: 0, end_index: 0 }];
    let rows = ctx.measure_text("", &font(), &lines);
    assert_eq!(rows, vec![vec![0, 0, 0, 0, 0, 8, 2, 8, 2, 6, 0, -2]]);
}

#[test]
fn measure_converts_byte_ranges_to_code_points() {
    let ctx = Context2D::new(Rect::from_size(10, 10));
    let text = "h\u{e9}llo \u{4e16}\u{754c}";
    let lines = vec![
        LineMetrics { left: 0, width: 40, baseline: 8, ascent: 8, descent: 2, start_index: 0, end_index: 6 },
        LineMetrics { left: 0, width: 20, baseline: 20, ascent: 8, descent: 2, start_index: 7, end_index: 13 },
    ];
    let rows = ctx.measure_text(text, &font(), &lines);
    assert_eq!(rows[1][5..7], [0, 5]);
    assert_eq!(rows[2][5..7], [6, 8]);
    let past = vec![LineMetrics { left: 0, width: 20, baseline: 8, ascent: 8, descent: 2, start_index: 2, end_index: 99 }];
    let rows = ctx.measure_text(text, &font(), &past);
    assert_eq!(rows[1][5..7], [2, 8]);
}

#[test]
fn text_bounds_join_boxes_and_grow_by_stroke() {
    let boxes = vec![
        Rect { left: 0, top: -8, right: 40, bottom: 2 },
        Rect { left: 5, top: 4, right: 5, bottom: 14 },
        Rect { left: -3, top: 4, right: 30, bottom: 14 },
    ];
    assert_eq!(text_bounds(&boxes, 2), Rect { left: -5, top: -10, right: 42, bottom: 16 });
    assert_eq!(text_bounds(&vec![], 1), Rect { left: -1, top: -1, right: 1, bottom: 1 });
}

#[test]
fn unwrapped_text_keeps_to_one_line() {
    let (bytes, lines) = typeset_text("a\nb\n", false);
    assert_eq!(bytes, b"a b ".to_vec());
    assert_eq!(lines, Some(1));
    let (bytes, lines) = typeset_text("a\nb", true);
    assert_eq!(bytes, b"a\nb".to_vec());
    assert_eq!(lines, None);
}
