use sheet_core::canvas::Canvas;
use sheet_core::geometry::Vector2;
use sheet_core::input::{
    map_coord, retreive_pointer_inputdata, retreive_stylus_inputdata, unmap_coord, InputSample,
};
use sheet_core::pens::{PenStyle, SelectorStyle};
use sheet_core::strokes::StrokeStyle;

fn sample(x: i64, y: i64) -> InputSample {
    InputSample::new(Vector2 { x, y }, 500)
}

fn zero() -> Vector2 {
    Vector2 { x: 0, y: 0 }
}

#[test]
fn pointer_inputdata_uses_default_pressure() {
    let s = retreive_pointer_inputdata(12, 34);
    assert_eq!(s.pos, Vector2 { x: 12, y: 34 });
    assert_eq!(s.pressure, 500);
}

#[test]
fn stylus_inputdata_falls_back_to_default_pressure() {
    let with = retreive_stylus_inputdata(1, 2, Some(700));
    assert_eq!(with.pressure, 700);
    let without = retreive_stylus_inputdata(1, 2, None);
    assert_eq!(without.pressure, 500);
}

#[test]
fn scalefactor_is_clamped_on_set() {
    let mut canvas = Canvas::new();
    canvas.set_scalefactor(5000);
    assert_eq!(canvas.scalefactor(), 3000);
    canvas.set_scalefactor(100);
    assert_eq!(canvas.scalefactor(), 400);
    canvas.set_scalefactor(1500);
    assert_eq!(canvas.scalefactor(), 1500);
}

#[test]
fn coordinate_mapping_roundtrip_is_close() {
    for &scale in &[400u32, 1000, 1333, 3000] {
        for &p in &[-5000i64, -1, 0, 7, 1234, 99999] {
            for &off in &[-300i64, 0, 450] {
                let mapped = map_coord(p, off, scale);
                let back = unmap_coord(mapped, off, scale);
                let err = (p - back).abs();
                assert!(err <= 3, "p={} off={} scale={} back={}", p, off, scale, back);
            }
        }
    }
}

#[test]
fn coordinate_mapping_is_exact_at_unit_scale() {
    let mapped = map_coord(250, 0, 1000);
    assert_eq!(mapped, 250);
    assert_eq!(unmap_coord(mapped, 0, 1000), 250);
}

#[test]
fn marker_gesture_draws_and_resizes() {
    let mut canvas = Canvas::new();
    let begun = canvas.processing_draw_begin(vec![sample(100, 100)], zero());
    assert!(begun);
    assert_eq!(canvas.sheet().strokes.len(), 1);
    let moved = canvas.processing_draw_motion(vec![sample(100, 3000)], zero());
    assert!(moved);
    assert_eq!(canvas.sheet().height(), 3000 + 2 * 1754);
    canvas.processing_draw_end(Vec::new(), zero());
    match &canvas.sheet().strokes[0] {
        StrokeStyle::MarkerStroke(m) => {
            assert_eq!(m.elements.len(), 2);
            assert_eq!(m.options.width, 4);
            assert_eq!(m.bounds.mins, Vector2 { x: 100, y: 100 });
            assert_eq!(m.bounds.maxs, Vector2 { x: 100, y: 3000 });
        },
        _ => panic!("expected a marker stroke"),
    }
}

#[test]
fn out_of_sheet_samples_are_clipped() {
    let mut canvas = Canvas::new();
    // The sheet is 1240 x 1754; anything beyond the 30 px overshoot drops.
    canvas.processing_draw_begin(vec![sample(5000, 5000)], zero());
    assert_eq!(canvas.sheet().strokes.len(), 0);
    // Just inside the overshoot band is kept.
    canvas.processing_draw_begin(vec![sample(1260, 10)], zero());
    assert_eq!(canvas.sheet().strokes.len(), 1);
}

#[test]
fn mapping_applies_drag_offset_and_zoom() {
    let mut canvas = Canvas::new();
    canvas.set_scalefactor(2000);
    // Device (100, 100) with offset (50, 50) lands at sheet (75, 75).
    canvas.processing_draw_begin(vec![sample(100, 100)], Vector2 { x: 50, y: 50 });
    match &canvas.sheet().strokes[0] {
        StrokeStyle::MarkerStroke(m) => {
            assert_eq!(m.elements[0].inputdata.pos, Vector2 { x: 75, y: 75 });
        },
        _ => panic!("expected a marker stroke"),
    }
}

#[test]
fn eraser_gesture_erases_along_the_path() {
    let mut canvas = Canvas::new();
    canvas.processing_draw_begin(vec![sample(10, 10)], zero());
    canvas.processing_draw_motion(vec![sample(20, 20)], zero());
    canvas.processing_draw_end(Vec::new(), zero());
    assert_eq!(canvas.sheet().strokes.len(), 1);
    canvas.set_current_pen(PenStyle::Eraser);
    canvas.processing_draw_begin(vec![sample(15, 15)], zero());
    assert!(canvas.pens().eraser.shown);
    assert_eq!(canvas.sheet().strokes.len(), 0);
    assert_eq!(canvas.sheet().strokes_trash.len(), 1);
    canvas.processing_draw_end(Vec::new(), zero());
    assert!(!canvas.pens().eraser.shown);
}

#[test]
fn selection_rectangle_takes_the_contained_stroke() {
    let mut canvas = Canvas::new();
    // Three strokes whose bounds sit at x = 0..100, 150..250, 300..400.
    canvas.processing_draw_begin(vec![sample(0, 0)], zero());
    canvas.processing_draw_motion(vec![sample(100, 50)], zero());
    canvas.processing_draw_end(Vec::new(), zero());
    canvas.processing_draw_begin(vec![sample(150, 0)], zero());
    canvas.processing_draw_motion(vec![sample(250, 50)], zero());
    canvas.processing_draw_end(Vec::new(), zero());
    canvas.processing_draw_begin(vec![sample(300, 0)], zero());
    canvas.processing_draw_motion(vec![sample(400, 50)], zero());
    canvas.processing_draw_end(Vec::new(), zero());
    assert_eq!(canvas.sheet().strokes.len(), 3);

    canvas.set_current_pen(PenStyle::Selector);
    canvas.pens_mut().selector.set_style(SelectorStyle::Rectangle);
    canvas.processing_draw_begin(vec![sample(120, 0)], zero());
    canvas.processing_draw_motion(vec![sample(260, 60)], zero());
    canvas.processing_draw_end(Vec::new(), zero());

    assert_eq!(canvas.sheet().selection.strokes.len(), 1);
    assert_eq!(canvas.sheet().strokes.len(), 2);
    assert!(!canvas.pens().selector.shown);
    assert!(canvas.pens().selector.path.is_empty());
    let picked = canvas.sheet().selection.strokes[0].bounds();
    assert_eq!(picked.mins.x, 150);
    assert_eq!(picked.maxs.x, 250);
}

#[test]
fn polygon_selection_picks_by_centroid() {
    let mut canvas = Canvas::new();
    canvas.processing_draw_begin(vec![sample(40, 40)], zero());
    canvas.processing_draw_motion(vec![sample(60, 60)], zero());
    canvas.processing_draw_end(Vec::new(), zero());

    canvas.set_current_pen(PenStyle::Selector);
    canvas.pens_mut().selector.set_style(SelectorStyle::Polygon);
    // A triangle around the stroke's centroid (50, 50).
    canvas.processing_draw_begin(vec![sample(0, 0)], zero());
    canvas.processing_draw_motion(vec![sample(200, 0)], zero());
    canvas.processing_draw_motion(vec![sample(100, 200)], zero());
    canvas.processing_draw_end(Vec::new(), zero());

    assert_eq!(canvas.sheet().selection.strokes.len(), 1);
    assert_eq!(canvas.sheet().strokes.len(), 0);
}

#[test]
fn new_gesture_flushes_selection_back() {
    let mut canvas = Canvas::new();
    canvas.processing_draw_begin(vec![sample(10, 10)], zero());
    canvas.processing_draw_motion(vec![sample(90, 30)], zero());
    canvas.processing_draw_end(Vec::new(), zero());
    canvas.set_current_pen(PenStyle::Selector);
    canvas.pens_mut().selector.set_style(SelectorStyle::Rectangle);
    canvas.processing_draw_begin(vec![sample(0, 0)], zero());
    canvas.processing_draw_motion(vec![sample(100, 40)], zero());
    canvas.processing_draw_end(Vec::new(), zero());
    assert_eq!(canvas.sheet().selection.strokes.len(), 1);

    canvas.set_current_pen(PenStyle::Marker);
    canvas.processing_draw_begin(vec![sample(500, 500)], zero());
    assert_eq!(canvas.sheet().selection.strokes.len(), 0);
    assert_eq!(canvas.sheet().strokes.len(), 2);
}

#[test]
fn measure_rounds_to_the_nearest_pixel() {
    let mut canvas = Canvas::new();
    canvas.sheet_mut().set_height(1);
    canvas.set_scalefactor(1500);
    // One pixel at 1.5x rounds up to two.
    assert_eq!(canvas.measure(true), 2);
    canvas.sheet_mut().set_height(3);
    // 4.5 rounds away from zero to five.
    assert_eq!(canvas.measure(true), 5);
}

#[test]
fn measure_reports_scaled_extent() {
    let mut canvas = Canvas::new();
    canvas.set_scalefactor(2000);
    assert_eq!(canvas.measure(false), 2 * 1240);
    assert_eq!(canvas.measure(true), 2 * 1754);
}

#[test]
fn unknown_pen_does_nothing() {
    let mut canvas = Canvas::new();
    canvas.set_current_pen(PenStyle::Unknown);
    canvas.processing_draw_begin(vec![sample(10, 10)], zero());
    canvas.processing_draw_motion(vec![sample(20, 20)], zero());
    canvas.processing_draw_end(Vec::new(), zero());
    assert_eq!(canvas.sheet().strokes.len(), 0);
}
