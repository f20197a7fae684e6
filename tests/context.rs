use canvas_context::color::{Rgba, UNIT};
use canvas_context::context::{Context2D, DrawOp, Shape};
use canvas_context::filter::FilterSpec;
use canvas_context::geometry::{Matrix, Point, Rect, MATRIX_UNIT};
use canvas_context::path::{FillRule, LineCap, Path};
use canvas_context::state::{BlendMode, Dye, FilterQuality, ImageFilter, PaintStyle, Shader};

fn rect(l: i64, t: i64, r: i64, b: i64) -> Rect {
    Rect { left: l, top: t, right: r, bottom: b }
}

fn blank() -> Context2D {
    Context2D::new(Rect::from_size(200, 100))
}

#[test]
fn new_context_has_default_state() {
    let ctx = blank();
    assert_eq!(ctx.width(), 200);
    assert_eq!(ctx.height(), 100);
    assert_eq!(ctx.state.global_alpha, UNIT);
    assert_eq!(ctx.state.fill_style, Dye::Color(Rgba::black()));
    assert_eq!(ctx.state.global_composite_operation, BlendMode::SrcOver);
    assert_eq!(ctx.state.filter, "none");
    assert_eq!(ctx.state.font, "10px sans-serif");
    assert_eq!(ctx.state.paint.stroke_miter, 10);
    assert!(ctx.stack.is_empty());
    assert!(ctx.recording.is_empty());
}

#[test]
fn save_then_restore_brings_state_back() {
    let mut ctx = blank();
    ctx.state.global_alpha = 5000;
    ctx.push();
    ctx.push();
    ctx.push();
    ctx.state.global_alpha = 1000;
    ctx.state.fill_style = Dye::Gradient(7);
    ctx.with_matrix(|_m: Matrix| Matrix::translate(10, 20));
    ctx.set_filter("blur(2px)", &vec![FilterSpec::Plain { name: "blur".to_string(), value: 20000 }]);
    ctx.pop();
    ctx.pop();
    ctx.pop();
    assert_eq!(ctx.stack.len(), 0);
    assert_eq!(ctx.state.global_alpha, 5000);
    assert_eq!(ctx.state.fill_style, Dye::Color(Rgba::black()));
    assert_eq!(ctx.state.matrix, Matrix::identity());
    assert_eq!(ctx.state.filter, "none");
    assert!(matches!(ctx.state.paint.image_filter, ImageFilter::Identity));
}

#[test]
fn restore_reapplies_transform_and_clip_to_surface() {
    let mut ctx = blank();
    ctx.push();
    assert!(ctx.clip_path(Some(Path::from_rect(rect(0, 0, 10, 10))), FillRule::NonZero));
    ctx.pop();
    ctx.push();
    ctx.pop();
    assert!(ctx.state.clip.is_empty());
    assert!(matches!(ctx.recording[ctx.recording.len() - 2], DrawOp::ResetSurface));
    assert!(matches!(ctx.recording[ctx.recording.len() - 1], DrawOp::SetMatrix { .. }));
}

#[test]
fn restore_on_empty_stack_changes_nothing() {
    let mut ctx = blank();
    ctx.state.global_alpha = 2500;
    ctx.pop();
    assert_eq!(ctx.stack.len(), 0);
    assert_eq!(ctx.state.global_alpha, 2500);
    assert!(ctx.recording.is_empty());
}

fn visible(ctx: &Context2D, p: Point) -> bool {
    ctx.state.clip.iter().all(|c| c.path.contains(p, c.rule))
}

#[test]
fn clip_only_narrows() {
    let mut ctx = blank();
    let probes = [Point::new(5, 5), Point::new(15, 15), Point::new(25, 5), Point::new(50, 50)];
    let before: Vec<bool> = probes.iter().map(|p| visible(&ctx, *p)).collect();
    assert!(before.iter().all(|v| *v));
    assert!(ctx.clip_path(Some(Path::from_rect(rect(0, 0, 20, 20))), FillRule::NonZero));
    let after_one: Vec<bool> = probes.iter().map(|p| visible(&ctx, *p)).collect();
    for (b, a) in before.iter().zip(after_one.iter()) {
        assert!(!*a || *b);
    }
    assert!(ctx.clip_path(Some(Path::from_rect(rect(10, 0, 30, 30))), FillRule::NonZero));
    let after_two: Vec<bool> = probes.iter().map(|p| visible(&ctx, *p)).collect();
    assert_eq!(after_two, vec![false, true, false, false]);
}

#[test]
fn clip_without_path_uses_current_path() {
    let mut ctx = blank();
    assert!(ctx.add_path(&Path::from_rect(rect(0, 0, 4, 4))));
    assert!(ctx.clip_path(None, FillRule::EvenOdd));
    assert_eq!(ctx.state.clip.len(), 1);
    assert_eq!(ctx.state.clip[0].rule, FillRule::EvenOdd);
    assert!(ctx.state.clip[0].path.contains(Point::new(2, 2), FillRule::EvenOdd));
}

#[test]
fn clip_out_of_range_is_refused() {
    let mut ctx = blank();
    ctx.with_matrix(|_m: Matrix| Matrix::translate(268435456, 0));
    assert!(!ctx.clip_path(Some(Path::from_rect(rect(0, 0, 4, 4))), FillRule::NonZero));
    assert!(ctx.state.clip.is_empty());
}

#[test]
fn resize_reads_back_transparent() {
    let mut ctx = blank();
    ctx.draw_rect(&rect(0, 0, 10, 10), &ctx.paint_for_fill());
    ctx.push();
    ctx.resize(3, 2);
    assert_eq!(ctx.width(), 3);
    assert_eq!(ctx.height(), 2);
    assert_eq!(ctx.stack.len(), 0);
    let mut buffer = vec![9u8; 4];
    assert!(ctx.get_pixels(&mut buffer, 0, 0, 3, 2));
    assert_eq!(buffer, vec![0u8; 24]);
}

#[test]
fn pixels_with_content_are_left_to_the_engine() {
    let mut ctx = blank();
    let paint = ctx.paint_for_fill();
    ctx.draw_rect(&rect(0, 0, 10, 10), &paint);
    let mut buffer = vec![7u8; 4];
    assert!(!ctx.get_pixels(&mut buffer, 0, 0, 1, 1));
    assert_eq!(buffer, vec![7u8; 4]);
    assert_eq!(ctx.pictures.len(), 1);
}

#[test]
fn snapshot_restarts_with_replay() {
    let mut ctx = blank();
    let paint = ctx.paint_for_fill();
    ctx.draw_rect(&rect(0, 0, 10, 10), &paint);
    let n = ctx.recording.len();
    let id = ctx.get_picture(Some(rect(0, 0, 5, 5)));
    assert_eq!(id, 0);
    assert_eq!(ctx.pictures[0].ops.len(), n);
    assert_eq!(ctx.pictures[0].cull, rect(0, 0, 5, 5));
    assert!(matches!(ctx.recording[0], DrawOp::Replay { picture: 0 }));
    let id2 = ctx.get_drawable();
    assert_eq!(id2, 1);
    assert_eq!(ctx.pictures[1].cull, rect(0, 0, 200, 100));
}

fn two_rects() -> Path {
    let mut p = Path::from_rect(rect(0, 0, 10, 10));
    let q = Path::from_rect(rect(5, 5, 15, 15));
    p.contours.extend(q.contours);
    p
}

#[test]
fn regional_blend_draws_one_isolated_layer() {
    let mut ctx = blank();
    ctx.state.global_composite_operation = BlendMode::SrcIn;
    ctx.state.global_alpha = 5000;
    assert!(ctx.add_path(&two_rects()));
    let paint = ctx.paint_for_fill();
    ctx.draw_path(&paint, FillRule::NonZero);
    assert_eq!(ctx.recording.len(), 1);
    match &ctx.recording[0] {
        DrawOp::Composite { layer, blend, alpha } => {
            assert_eq!(*blend, BlendMode::SrcIn);
            assert_eq!(*alpha, 5000);
            assert_eq!(layer.len(), 1);
            match &layer[0] {
                DrawOp::Draw { shape: Shape::Path { path: p, .. }, paint, .. } => {
                    assert_eq!(p.contours.len(), 2);
                    assert_eq!(paint.blend_mode, BlendMode::SrcOver);
                }
                _ => panic!("layer holds a draw"),
            }
        }
        _ => panic!("expected a composite"),
    }
}

#[test]
fn plain_blend_draws_directly() {
    let mut ctx = blank();
    ctx.state.global_composite_operation = BlendMode::Multiply;
    ctx.state.paint.blend_mode = BlendMode::Multiply;
    assert!(ctx.add_path(&two_rects()));
    let paint = ctx.paint_for_fill();
    ctx.draw_path(&paint, FillRule::NonZero);
    assert_eq!(ctx.recording.len(), 1);
    assert!(matches!(&ctx.recording[0], DrawOp::Draw { paint, .. } if paint.blend_mode == BlendMode::Multiply));
}

#[test]
fn shadow_pass_comes_first() {
    let mut ctx = blank();
    ctx.state.shadow_color = Rgba::new(0, 0, 0, 128);
    ctx.state.shadow_offset = Point::new(3, 4);
    let paint = ctx.paint_for_fill();
    ctx.draw_rect(&rect(0, 0, 10, 10), &paint);
    assert_eq!(ctx.recording.len(), 2);
    match &ctx.recording[0] {
        DrawOp::Draw { paint, offset, .. } => {
            assert_eq!(*offset, Point::new(3, 4));
            assert!(matches!(paint.image_filter, ImageFilter::ShadowOnly { blur: 0, .. }));
        }
        _ => panic!("expected the shadow pass"),
    }
    assert!(matches!(&ctx.recording[1], DrawOp::Draw { offset, .. } if *offset == Point::new(0, 0)));
}

#[test]
fn transparent_or_unmoved_shadow_is_skipped() {
    let mut ctx = blank();
    ctx.state.shadow_offset = Point::new(3, 4);
    let base = ctx.paint_for_fill();
    assert!(ctx.paint_for_shadow(&base).is_none());
    ctx.state.shadow_color = Rgba::new(0, 0, 0, 255);
    ctx.state.shadow_offset = Point::new(0, 0);
    assert!(ctx.paint_for_shadow(&base).is_none());
    ctx.state.shadow_blur = 2;
    assert!(ctx.paint_for_shadow(&base).is_some());
}

#[test]
fn hit_test_filled_rectangle() {
    let ctx = blank();
    let r = Path::from_rect(rect(10, 10, 20, 20));
    assert!(ctx.hit_test_path(&r, 15, 15, None, PaintStyle::Fill));
    assert!(!ctx.hit_test_path(&r, 25, 15, None, PaintStyle::Fill));
    assert!(!ctx.hit_test_path(&r, 5, 15, Some(FillRule::NonZero), PaintStyle::Fill));
    assert!(!ctx.hit_test_path(&r, 15, 30, None, PaintStyle::Fill));
}

#[test]
fn hit_test_zero_width_stroke() {
    let mut ctx = blank();
    ctx.state.paint.stroke_width = 0;
    let r = Path::from_rect(rect(10, 10, 20, 20));
    assert!(!ctx.hit_test_path(&r, 15, 15, None, PaintStyle::Stroke));
    assert!(!ctx.hit_test_path(&r, 15, 11, None, PaintStyle::Stroke));
    assert!(ctx.hit_test_path(&r, 15, 10, None, PaintStyle::Stroke));
    ctx.state.paint.stroke_width = 4;
    assert!(ctx.hit_test_path(&r, 15, 11, None, PaintStyle::Stroke));
    assert!(!ctx.hit_test_path(&r, 15, 13, None, PaintStyle::Stroke));
}

#[test]
fn hit_test_uses_local_coordinates() {
    let mut ctx = blank();
    ctx.with_matrix(|_m: Matrix| Matrix::translate(100, 0));
    let r = Path::from_rect(rect(10, 10, 20, 20));
    assert!(ctx.hit_test_path(&r, 115, 15, None, PaintStyle::Fill));
    assert!(!ctx.hit_test_path(&r, 15, 15, None, PaintStyle::Fill));
}

#[test]
fn even_odd_rule_leaves_overlap_out() {
    let p = two_rects();
    assert!(p.contains(Point::new(7, 7), FillRule::NonZero));
    assert!(!p.contains(Point::new(7, 7), FillRule::EvenOdd));
    assert_eq!(p.winding_number(Point::new(7, 7)), 2);
    assert!(p.contains(Point::new(2, 2), FillRule::EvenOdd));
}

#[test]
fn local_coordinates_invert_the_transform() {
    let mut ctx = blank();
    ctx.with_matrix(|_m: Matrix| Matrix { sx: 2 * MATRIX_UNIT, kx: 0, tx: 10, ky: 0, sy: 3 * MATRIX_UNIT, ty: -6 });
    assert_eq!(ctx.in_local_coordinates(20, 9), Some(Point::new(5, 5)));
    assert_eq!(ctx.in_local_coordinates(21, 10), Some(Point::new(5, 5)));
    assert_eq!(ctx.in_local_coordinates(9, 0), Some(Point::new(-1, 2)));
}

#[test]
fn singular_transform_leaves_points_alone() {
    let mut ctx = blank();
    ctx.with_matrix(|_m: Matrix| Matrix { sx: 0, kx: 0, tx: 5, ky: 0, sy: 0, ty: 5 });
    assert_eq!(ctx.in_local_coordinates(7, -3), Some(Point::new(7, -3)));
}

#[test]
fn map_points_applies_transform() {
    let mut ctx = blank();
    ctx.with_matrix(|_m: Matrix| Matrix { sx: 2 * MATRIX_UNIT, kx: MATRIX_UNIT, tx: 3, ky: 0, sy: MATRIX_UNIT, ty: -1 });
    let pts = ctx.map_points(&vec![1, 2, -4, 0]).unwrap();
    assert_eq!(pts, vec![Point::new(7, 1), Point::new(-5, -1)]);
    assert!(matches!(ctx.recording.last(), Some(DrawOp::SetMatrix { .. })));
}

#[test]
fn add_path_bakes_in_transform() {
    let mut ctx = blank();
    ctx.with_matrix(|_m: Matrix| Matrix::translate(5, 6));
    assert!(ctx.add_path(&Path::from_rect(rect(0, 0, 1, 1))));
    assert_eq!(ctx.path.contours[0].points[0], Point::new(5, 6));
    assert_eq!(ctx.path.contours[0].points[2], Point::new(6, 7));
    ctx.begin_path();
    assert!(ctx.path.is_empty());
}

#[test]
fn draw_path_uses_identity_transform() {
    let mut ctx = blank();
    ctx.with_matrix(|_m: Matrix| Matrix::translate(5, 6));
    assert!(ctx.add_path(&Path::from_rect(rect(0, 0, 1, 1))));
    let paint = ctx.paint_for_fill();
    let n = ctx.recording.len();
    ctx.draw_path(&paint, FillRule::NonZero);
    assert!(matches!(&ctx.recording[n], DrawOp::Draw { matrix, .. } if *matrix == Matrix::identity()));
}

#[test]
fn clear_rect_records_erase() {
    let mut ctx = blank();
    ctx.clear_rect(&rect(1, 2, 3, 4));
    assert!(matches!(&ctx.recording[0], DrawOp::ClearRect { rect: r, .. } if *r == rect(1, 2, 3, 4)));
}

#[test]
fn draw_image_needs_an_image() {
    let mut ctx = blank();
    ctx.draw_image(None, &rect(0, 0, 1, 1), &rect(0, 0, 2, 2));
    assert!(ctx.recording.is_empty());
    ctx.state.global_alpha = 5000;
    ctx.draw_image(Some(3), &rect(0, 0, 1, 1), &rect(0, 0, 2, 2));
    match &ctx.recording[0] {
        DrawOp::Draw { shape: Shape::Image { image, .. }, paint, .. } => {
            assert_eq!(*image, 3);
            assert_eq!(paint.color.a, 127);
        }
        _ => panic!("expected an image draw"),
    }
}

#[test]
fn draw_drawable_uses_black_at_global_alpha() {
    let mut ctx = blank();
    ctx.draw_drawable(None, &rect(0, 0, 1, 1), &rect(0, 0, 2, 2));
    assert!(ctx.recording.is_empty());
    ctx.state.global_alpha = 2000;
    ctx.draw_drawable(Some(9), &rect(0, 0, 1, 1), &rect(0, 0, 2, 2));
    assert!(matches!(&ctx.recording[0], DrawOp::Draw { paint, .. } if paint.color == Rgba::new(0, 0, 0, 51)));
}

#[test]
fn blit_checks_buffer_size() {
    let mut ctx = blank();
    ctx.blit_pixels(&vec![1u8; 7], 1, 2, &rect(0, 0, 1, 2), &rect(0, 0, 1, 2));
    assert!(ctx.recording.is_empty());
    ctx.state.global_alpha = 3000;
    ctx.blit_pixels(&vec![1u8; 8], 1, 2, &rect(0, 0, 1, 2), &rect(4, 4, 5, 6));
    assert!(matches!(ctx.recording[0], DrawOp::ResetSurface));
    assert!(matches!(&ctx.recording[1], DrawOp::Blit { pixels, width: 1, height: 2, .. } if pixels.len() == 8));
    assert_eq!(ctx.state.global_alpha, 3000);
    assert_eq!(ctx.stack.len(), 0);
}

#[test]
fn fill_and_stroke_paints() {
    let mut ctx = blank();
    ctx.state.global_alpha = 5000;
    ctx.state.fill_style = Dye::Color(Rgba::new(255, 0, 0, 200));
    ctx.state.stroke_style = Dye::Pattern(4);
    ctx.state.line_dash_list = vec![3, 1];
    ctx.state.line_dash_offset = 2;
    let fill = ctx.paint_for_fill();
    assert_eq!(fill.color, Rgba::new(255, 0, 0, 100));
    assert_eq!(fill.style, PaintStyle::Fill);
    let stroke = ctx.paint_for_stroke();
    assert_eq!(stroke.style, PaintStyle::Stroke);
    assert_eq!(stroke.shader, Shader::Pattern(4));
    assert_eq!(stroke.shader_alpha, 5000);
    assert_eq!(stroke.dash, vec![3, 1]);
    assert_eq!(stroke.dash_offset, 2);
    assert_eq!(ctx.color_with_alpha(&Rgba::new(1, 2, 3, 255)), Rgba::new(1, 2, 3, 127));
}

#[test]
fn image_quality_follows_smoothing() {
    let mut ctx = blank();
    ctx.state.image_filter_quality = FilterQuality::High;
    ctx.update_image_quality();
    assert_eq!(ctx.state.paint.filter_quality, FilterQuality::High);
    ctx.state.image_smoothing_enabled = false;
    ctx.update_image_quality();
    assert_eq!(ctx.state.paint.filter_quality, FilterQuality::Off);
}

#[test]
fn font_setters() {
    let mut ctx = blank();
    ctx.set_font("bold 12px serif".to_string(), "small-caps");
    assert_eq!(ctx.state.font, "bold 12px serif");
    assert_eq!(ctx.state.font_variant, "small-caps");
    ctx.set_font_variant("normal", &vec!["liga".to_string()]);
    assert_eq!(ctx.state.font_variant, "normal");
    assert_eq!(ctx.state.font_features, vec!["liga".to_string()]);
}

#[test]
fn style_reference_slots_follow_depth() {
    let mut ctx = blank();
    assert_eq!(ctx.stash_index(), (0, 1));
    assert_eq!(ctx.fetch_index(0), None);
    assert_eq!(ctx.fetch_index(1), Some(0));
    ctx.push();
    ctx.push();
    assert_eq!(ctx.stash_index(), (2, 3));
    assert_eq!(ctx.fetch_index(1), Some(0));
    assert_eq!(ctx.fetch_index(5), Some(2));
}

#[test]
fn mapped_points_come_back_in_local_coordinates() {
    let mut ctx = blank();
    let m = Matrix { sx: 3 * MATRIX_UNIT, kx: -2 * MATRIX_UNIT, tx: 7, ky: 5 * MATRIX_UNIT, sy: MATRIX_UNIT, ty: -4 };
    ctx.with_matrix(|_m: Matrix| m);
    for (x, y) in [(0i64, 0i64), (4, -9), (-13, 6), (100, 77)] {
        let q = m.map_point(Point::new(x, y)).unwrap();
        assert_eq!(ctx.in_local_coordinates(q.x, q.y), Some(Point::new(x, y)));
    }
}

#[test]
fn building_paths() {
    let mut p = Path::new();
    p.line_to(Point::new(0, 0));
    p.line_to(Point::new(10, 0));
    p.line_to(Point::new(10, 10));
    assert_eq!(p.contours.len(), 1);
    assert_eq!(p.contours[0].points.len(), 3);
    assert!(!p.contours[0].closed);
    assert!(p.stroke_contains(Point::new(10, 5), 0, LineCap::Butt));
    assert!(!p.stroke_contains(Point::new(5, 5), 0, LineCap::Butt));
    assert!(p.contains(Point::new(8, 3), FillRule::NonZero));
    p.close();
    assert!(p.contours[0].closed);
    assert!(p.stroke_contains(Point::new(5, 5), 0, LineCap::Butt));
    p.move_to(Point::new(50, 50));
    assert_eq!(p.contours.len(), 2);
    assert!(p.transform(&Matrix::translate(268435456, 0)).is_none());
    let moved = p.transform(&Matrix::translate(1, 2)).unwrap();
    assert_eq!(moved.contours[1].points[0], Point::new(51, 52));
}

#[test]
fn blit_accepts_a_larger_buffer() {
    let mut ctx = blank();
    ctx.blit_pixels(&vec![1u8; 12], 1, 2, &rect(0, 0, 1, 2), &rect(4, 4, 5, 6));
    assert!(matches!(ctx.recording[0], DrawOp::ResetSurface));
    assert!(matches!(&ctx.recording[1], DrawOp::Blit { pixels, width: 1, height: 2, .. } if pixels.len() == 12));
}

#[test]
fn add_path_refused_out_of_range() {
    let mut ctx = blank();
    ctx.with_matrix(|_m: Matrix| Matrix::translate(268435455, 0));
    assert!(!ctx.add_path(&Path::from_rect(rect(0, 0, 2, 2))));
    assert!(ctx.path.is_empty());
    assert!(ctx.add_path(&Path::from_rect(rect(0, 0, 1, 1))));
    assert_eq!(ctx.path.contours.len(), 1);
}

#[test]
fn clip_records_region_and_rule() {
    let mut ctx = blank();
    ctx.with_matrix(|_m: Matrix| Matrix::translate(3, 0));
    assert!(ctx.clip_path(Some(Path::from_rect(rect(0, 0, 2, 2))), FillRule::EvenOdd));
    match ctx.recording.last() {
        Some(DrawOp::Clip { path, rule }) => {
            assert_eq!(*rule, FillRule::EvenOdd);
            assert_eq!(path.contours[0].points[0], Point::new(3, 0));
        }
        _ => panic!("expected a clip"),
    }
}

#[test]
fn restore_sets_surface_from_restored_state() {
    let mut ctx = blank();
    assert!(ctx.clip_path(Some(Path::from_rect(rect(0, 0, 9, 9))), FillRule::NonZero));
    ctx.with_matrix(|_m: Matrix| Matrix::translate(1, 1));
    ctx.push();
    assert!(ctx.clip_path(Some(Path::from_rect(rect(0, 0, 2, 2))), FillRule::NonZero));
    ctx.with_matrix(|_m: Matrix| Matrix::translate(7, 7));
    let n = ctx.recording.len();
    ctx.pop();
    assert_eq!(ctx.recording.len(), n + 3);
    assert!(matches!(ctx.recording[n], DrawOp::ResetSurface));
    assert!(matches!(&ctx.recording[n + 1], DrawOp::SetMatrix { matrix } if *matrix == Matrix::translate(1, 1)));
    assert!(matches!(&ctx.recording[n + 2], DrawOp::Clip { path, .. } if path.contours[0].points[2] == Point::new(9, 9)));
}

#[test]
fn snapshot_reapplies_transform_and_clip() {
    let mut ctx = blank();
    ctx.with_matrix(|_m: Matrix| Matrix::translate(2, 2));
    assert!(ctx.clip_path(Some(Path::from_rect(rect(0, 0, 3, 3))), FillRule::NonZero));
    ctx.get_picture(None);
    assert_eq!(ctx.recording.len(), 4);
    assert!(matches!(ctx.recording[1], DrawOp::ResetSurface));
    assert!(matches!(&ctx.recording[2], DrawOp::SetMatrix { matrix } if *matrix == Matrix::translate(2, 2)));
    assert!(matches!(ctx.recording[3], DrawOp::Clip { .. }));
}

#[test]
fn curves_flatten_into_segments() {
    let mut p = Path::new();
    assert!(!p.quad_to(Point::new(10, 0), Point::new(10, 10), 2));
    p.move_to(Point::new(0, 0));
    assert!(p.quad_to(Point::new(10, 0), Point::new(10, 10), 2));
    assert_eq!(p.contours[0].points, vec![Point::new(0, 0), Point::new(7, 2), Point::new(10, 10)]);
    let mut q = Path::new();
    q.move_to(Point::new(0, 0));
    assert!(q.cubic_to(Point::new(0, 10), Point::new(10, 10), Point::new(10, 0), 2));
    assert_eq!(q.contours[0].points, vec![Point::new(0, 0), Point::new(5, 7), Point::new(10, 0)]);
}

#[test]
fn fractional_transforms_round_down() {
    let mut ctx = blank();
    ctx.with_matrix(|_m: Matrix| Matrix { sx: MATRIX_UNIT / 2, kx: 0, tx: 0, ky: 0, sy: MATRIX_UNIT / 2, ty: 0 });
    assert_eq!(ctx.map_points(&vec![3, 4, -3, 0]).unwrap(), vec![Point::new(1, 2), Point::new(-2, 0)]);
    assert_eq!(ctx.in_local_coordinates(1, 2), Some(Point::new(2, 4)));
    let quarter = Matrix { sx: 46341, kx: -46341, tx: 0, ky: 46341, sy: 46341, ty: 0 };
    assert_eq!(quarter.map_point(Point::new(100, 0)), Some(Point::new(70, 70)));
}

#[test]
fn tiny_scale_leaves_local_range() {
    let mut ctx = blank();
    ctx.with_matrix(|_m: Matrix| Matrix { sx: 1, kx: 0, tx: 0, ky: 0, sy: 1, ty: 0 });
    assert_eq!(ctx.in_local_coordinates(268435456, 0), None);
    assert!(!ctx.hit_test_path(&Path::from_rect(rect(0, 0, 10, 10)), 268435456, 0, None, PaintStyle::Fill));
}

#[test]
fn line_caps_at_open_ends() {
    let mut p = Path::new();
    p.move_to(Point::new(0, 0));
    p.line_to(Point::new(10, 0));
    assert!(!p.stroke_contains(Point::new(-1, 0), 4, LineCap::Butt));
    assert!(p.stroke_contains(Point::new(0, 2), 4, LineCap::Butt));
    assert!(p.stroke_contains(Point::new(-1, 1), 4, LineCap::Round));
    assert!(!p.stroke_contains(Point::new(-2, 1), 4, LineCap::Round));
    assert!(p.stroke_contains(Point::new(-2, 2), 4, LineCap::Square));
    assert!(!p.stroke_contains(Point::new(-3, 0), 4, LineCap::Square));
    assert!(!p.stroke_contains(Point::new(11, 0), 4, LineCap::Butt));
    assert!(p.stroke_contains(Point::new(11, 0), 4, LineCap::Round));
}

#[test]
fn butt_cap_is_the_default_for_hit_tests() {
    let mut ctx = blank();
    ctx.state.paint.stroke_width = 4;
    let mut p = Path::new();
    p.move_to(Point::new(0, 0));
    p.line_to(Point::new(10, 0));
    assert!(!ctx.hit_test_path(&p, -1, 0, None, PaintStyle::Stroke));
    assert!(ctx.hit_test_path(&p, 1, 1, None, PaintStyle::Stroke));
    ctx.state.paint.line_cap = LineCap::Round;
    assert!(ctx.hit_test_path(&p, -1, 0, None, PaintStyle::Stroke));
}

#[test]
fn draw_path_keeps_fill_rule() {
    let mut ctx = blank();
    assert!(ctx.add_path(&two_rects()));
    let paint = ctx.paint_for_fill();
    ctx.draw_path(&paint, FillRule::EvenOdd);
    assert!(matches!(&ctx.recording[0], DrawOp::Draw { shape: Shape::Path { rule: FillRule::EvenOdd, .. }, .. }));
}

#[test]
fn drawables_are_recorded_as_snapshots() {
    let mut ctx = blank();
    let id = ctx.get_drawable();
    ctx.draw_drawable(Some(id), &rect(0, 0, 1, 1), &rect(0, 0, 2, 2));
    assert!(ctx.recording.iter().any(|op| matches!(op, DrawOp::Draw { shape: Shape::Drawable { picture: 0, .. }, .. })));
}
