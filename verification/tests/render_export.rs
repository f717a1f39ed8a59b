use sheet_core::canvas::Canvas;
use sheet_core::geometry::{Aabb, Vector2};
use sheet_core::input::InputSample;
use sheet_core::pens::{PenStyle, Pens};
use sheet_core::render::DrawCommand;
use sheet_core::sheet::Sheet;
use sheet_core::strokes::{add_to_last_stroke, new_stroke, StrokeStyle};
use sheet_core::debug::{draw_bounds, draw_pos};
use sheet_core::render::Color;

fn sample(x: i64, y: i64) -> InputSample {
    InputSample::new(Vector2 { x, y }, 500)
}

fn marker_stroke(points: &[(i64, i64)]) -> StrokeStyle {
    let pens = Pens::default();
    let mut strokes: Vec<StrokeStyle> = Vec::new();
    new_stroke(
        &mut strokes,
        InputSample::new(Vector2 { x: points[0].0, y: points[0].1 }, 500),
        PenStyle::Marker,
        &pens,
    );
    for p in &points[1..] {
        add_to_last_stroke(
            &mut strokes,
            InputSample::new(Vector2 { x: p.0, y: p.1 }, 500),
            &pens,
        );
    }
    strokes.pop().unwrap()
}

#[test]
fn svg_export_viewbox_matches_sheet_bounds() {
    let mut sheet = Sheet::new();
    sheet.set_width(500);
    sheet.set_height(800);
    sheet.strokes.push(marker_stroke(&[(10, 10), (200, 300)]));
    let svg = sheet.export_sheet_as_svg();
    let text = String::from_utf8(svg).expect("utf8");
    assert!(text.contains("viewBox=\"0 0 500 800\""), "{}", text);
    assert!(text.starts_with("<svg "));
    assert!(text.ends_with("</svg>"));
    assert_eq!(text.matches("<polyline").count(), 1);
}

#[test]
fn svg_export_offsets_viewbox_with_sheet_position() {
    let mut sheet = Sheet::new();
    sheet.set_x(5);
    sheet.set_y(9);
    sheet.set_width(100);
    sheet.set_height(200);
    let svg = sheet.export_sheet_as_svg();
    let text = String::from_utf8(svg).expect("utf8");
    assert!(text.contains("viewBox=\"5 9 100 200\""), "{}", text);
}

#[test]
fn polyline_fragment_carries_width_color_and_points() {
    let stroke = marker_stroke(&[(1, 2), (3, 4)]);
    let frag = stroke.gen_svg_data(Vector2 { x: 0, y: 0 });
    let text = String::from_utf8(frag).expect("utf8");
    assert!(text.contains("stroke-width=\"4\""));
    assert!(text.contains("stroke=\"#000000\""));
    assert!(text.contains("points=\"1,2 3,4 \""));
}

#[test]
fn fragment_honours_the_export_offset() {
    let stroke = marker_stroke(&[(1, 2), (3, 4)]);
    let frag = stroke.gen_svg_data(Vector2 { x: 10, y: 20 });
    let text = String::from_utf8(frag).expect("utf8");
    assert!(text.contains("points=\"11,22 13,24 \""), "{}", text);
}

#[test]
fn sheet_draw_emits_the_prescribed_sequence() {
    let mut sheet = Sheet::new();
    sheet.clear();
    sheet.strokes.push(marker_stroke(&[(0, 0), (10, 10)]));
    sheet.resize();
    let mut snapshot: Vec<DrawCommand> = Vec::new();
    sheet.draw(1000, &mut snapshot);
    assert!(matches!(snapshot[0], DrawCommand::Shadow { .. }));
    assert!(matches!(snapshot[1], DrawCommand::PushClip { .. }));
    assert!(matches!(snapshot[2], DrawCommand::Fill { .. }));
    assert!(matches!(snapshot[3], DrawCommand::PatternLayer { .. }));
    assert!(matches!(snapshot[snapshot.len() - 1], DrawCommand::PopClip));
    let nodes = snapshot.iter().filter(|c| matches!(c, DrawCommand::Node { .. })).count();
    assert_eq!(nodes, 1);
}

#[test]
fn page_borders_appear_per_page() {
    let mut sheet = Sheet::new();
    sheet.clear();
    // Sheet height of two pages plus a bit: two inner separators.
    sheet.strokes.push(marker_stroke(&[(0, 0), (10, 2000)]));
    sheet.resize();
    assert_eq!(sheet.height(), 2000 + 3508);
    let mut snapshot: Vec<DrawCommand> = Vec::new();
    sheet.format().draw(sheet.height(), &mut snapshot, 1000);
    assert_eq!(snapshot.len(), ((2000 + 3508 - 1) / 1754) as usize);
}

#[test]
fn canvas_draw_includes_debug_overlay_when_enabled() {
    let mut canvas = Canvas::new();
    canvas.processing_draw_begin(vec![sample(10, 10)], Vector2 { x: 0, y: 0 });
    canvas.processing_draw_motion(vec![sample(50, 50)], Vector2 { x: 0, y: 0 });
    canvas.processing_draw_end(Vec::new(), Vector2 { x: 0, y: 0 });
    let mut plain: Vec<DrawCommand> = Vec::new();
    canvas.draw(&mut plain);
    canvas.visual_debug = true;
    let mut with_debug: Vec<DrawCommand> = Vec::new();
    canvas.draw(&mut with_debug);
    // The overlay adds the sheet box, two element dots, one hitbox tile
    // and the stroke bounds.
    assert_eq!(with_debug.len(), plain.len() + 5);
}

#[test]
fn debug_marks_scale_with_the_view() {
    let mut snapshot: Vec<DrawCommand> = Vec::new();
    draw_pos(Vector2 { x: 100, y: 200 }, Color::black(), 2000, &mut snapshot);
    match snapshot[0] {
        DrawCommand::Fill { bounds, .. } => {
            assert_eq!(bounds.mins, Vector2 { x: 199, y: 399 });
            assert_eq!(bounds.maxs, Vector2 { x: 201, y: 401 });
        },
        _ => panic!("expected a fill"),
    }
    let mut boxes: Vec<DrawCommand> = Vec::new();
    let b = Aabb { mins: Vector2 { x: 10, y: 10 }, maxs: Vector2 { x: 20, y: 20 } };
    draw_bounds(&b, Color::black(), 500, &mut boxes);
    match boxes[0] {
        DrawCommand::BorderRect { bounds, .. } => {
            assert_eq!(bounds.mins, Vector2 { x: 5, y: 5 });
            assert_eq!(bounds.maxs, Vector2 { x: 10, y: 10 });
        },
        _ => panic!("expected a border"),
    }
}

#[test]
fn import_svg_lands_in_the_selection() {
    let mut sheet = Sheet::new();
    let svg = b"<circle r=\"5\"/>".to_vec();
    sheet
        .import_file_as_svg(Vector2 { x: 10, y: 20 }, svg, Vector2 { x: 30, y: 40 })
        .expect("import");
    assert_eq!(sheet.selection.strokes.len(), 1);
    match &sheet.selection.strokes[0] {
        StrokeStyle::VectorImage(v) => {
            assert_eq!(v.pos, Vector2 { x: 10, y: 20 });
            assert_eq!(v.bounds.maxs, Vector2 { x: 40, y: 60 });
        },
        _ => panic!("expected a vector image"),
    }
}

#[test]
fn import_rejects_non_positive_intrinsic_size() {
    let mut sheet = Sheet::new();
    let svg = b"<circle r=\"5\"/>".to_vec();
    let r = sheet.import_file_as_svg(Vector2 { x: 0, y: 0 }, svg, Vector2 { x: 0, y: 10 });
    assert!(r.is_err());
    assert!(sheet.selection.strokes.is_empty());
}

#[test]
fn import_bitmap_lands_in_the_selection() {
    let mut sheet = Sheet::new();
    let r = sheet.import_file_as_bitmapimage(
        Vector2 { x: 1, y: 2 },
        vec![9, 9, 9],
        sheet_core::strokes::ImageFormat::Jpeg,
        Vector2 { x: 16, y: 16 },
    );
    assert!(r.is_ok());
    assert_eq!(sheet.selection.strokes.len(), 1);
}
