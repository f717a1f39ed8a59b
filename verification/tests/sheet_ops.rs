use sheet_core::geometry::Vector2;
use sheet_core::input::InputSample;
use sheet_core::pens::Eraser;
use sheet_core::render::RenderNode;
use sheet_core::sheet::Sheet;
use sheet_core::strokes::{
    add_to_last_stroke, new_stroke, StrokeStyle, VectorImage,
};
use sheet_core::eq::stroke_eq;

fn vector_image(x0: i64, y0: i64, w: i64, h: i64) -> StrokeStyle {
    StrokeStyle::VectorImage(VectorImage {
        data_svg: Vec::new(),
        bounds: sheet_core::geometry::Aabb {
            mins: Vector2 { x: x0, y: y0 },
            maxs: Vector2 { x: x0 + w, y: y0 + h },
        },
        intrinsic_size: Vector2 { x: w, y: h },
        pos: Vector2 { x: x0, y: y0 },
        rendernode: RenderNode::empty(),
    })
}

fn marker_stroke(points: &[(i64, i64)]) -> StrokeStyle {
    let pens = sheet_core::pens::Pens::default();
    let mut strokes: Vec<StrokeStyle> = Vec::new();
    new_stroke(
        &mut strokes,
        InputSample::new(Vector2 { x: points[0].0, y: points[0].1 }, 500),
        sheet_core::pens::PenStyle::Marker,
        &pens,
    );
    for p in &points[1..] {
        add_to_last_stroke(
            &mut strokes,
            InputSample::new(Vector2 { x: p.0, y: p.1 }, 500),
            &pens,
        );
    }
    strokes.pop().unwrap()
}

#[test]
fn empty_sheet_height_after_clear() {
    let mut sheet = Sheet::new();
    assert_eq!(sheet.format().width, 1240);
    assert_eq!(sheet.format().height, 1754);
    assert_eq!(sheet.format().dpi, 96);
    assert!(sheet.autoexpand_height());
    sheet.clear();
    assert_eq!(sheet.height(), 1754);
    assert_eq!(sheet.padding_bottom(), 3508);
}

#[test]
fn default_sheet_shape() {
    let sheet = Sheet::new();
    assert_eq!(sheet.x(), 0);
    assert_eq!(sheet.y(), 0);
    assert_eq!(sheet.width(), 1240);
    assert_eq!(sheet.height(), 1754);
    assert!(sheet.format_borders());
    assert_eq!(sheet.padding_bottom(), 3508);
    assert!(sheet.strokes().is_empty());
    assert!(sheet.strokes_trash().is_empty());
    assert!(sheet.selection().strokes.is_empty());
}

#[test]
fn calc_height_empty_is_format_height() {
    let sheet = Sheet::new();
    assert_eq!(sheet.calc_height(), 1754);
}

#[test]
fn calc_height_uses_lowest_bottom_plus_padding() {
    let mut sheet = Sheet::new();
    sheet.clear();
    sheet.strokes.push(marker_stroke(&[(100, 100), (100, 3000)]));
    assert_eq!(sheet.calc_height(), 3000 + 3508);
    let resized = sheet.resize();
    assert!(resized);
    assert_eq!(sheet.height(), 6508);
    let again = sheet.resize();
    assert!(!again);
}

#[test]
fn erase_intersect_moves_image_to_trash() {
    let mut sheet = Sheet::new();
    sheet.clear();
    sheet.strokes.push(vector_image(0, 0, 200, 200));
    sheet.resize();
    assert_eq!(sheet.height(), 200 + 3508);
    let eraser = Eraser {
        width: 20,
        current_input: InputSample::new(Vector2 { x: 150, y: 150 }, 500),
        shown: true,
    };
    let resize_needed = sheet.remove_colliding_strokes(&eraser);
    assert!(resize_needed);
    assert!(sheet.strokes().is_empty());
    assert_eq!(sheet.strokes_trash().len(), 1);
    assert_eq!(sheet.height(), 1754);
}

#[test]
fn erase_misses_distant_image() {
    let mut sheet = Sheet::new();
    sheet.clear();
    sheet.strokes.push(vector_image(1000, 1000, 50, 50));
    let eraser = Eraser {
        width: 20,
        current_input: InputSample::new(Vector2 { x: 0, y: 0 }, 500),
        shown: true,
    };
    sheet.remove_colliding_strokes(&eraser);
    assert_eq!(sheet.strokes().len(), 1);
    assert!(sheet.strokes_trash().is_empty());
}

#[test]
fn erase_is_idempotent() {
    let mut sheet = Sheet::new();
    sheet.clear();
    sheet.strokes.push(vector_image(0, 0, 100, 100));
    sheet.strokes.push(vector_image(300, 300, 100, 100));
    sheet.strokes.push(marker_stroke(&[(10, 10), (20, 20)]));
    let eraser = Eraser {
        width: 30,
        current_input: InputSample::new(Vector2 { x: 15, y: 15 }, 500),
        shown: true,
    };
    sheet.remove_colliding_strokes(&eraser);
    let live_after_first = sheet.strokes().len();
    let trash_after_first = sheet.strokes_trash().len();
    assert_eq!(live_after_first, 1);
    assert_eq!(trash_after_first, 2);
    sheet.remove_colliding_strokes(&eraser);
    assert_eq!(sheet.strokes().len(), live_after_first);
    assert_eq!(sheet.strokes_trash().len(), trash_after_first);
}

#[test]
fn undo_redo_restores_both_lists() {
    let mut sheet = Sheet::new();
    sheet.clear();
    let first = marker_stroke(&[(10, 10), (50, 50)]);
    let second = marker_stroke(&[(200, 200), (300, 250)]);
    sheet.strokes.push(first);
    sheet.strokes.push(second);
    sheet.resize();
    sheet.undo_last_stroke();
    assert_eq!(sheet.strokes().len(), 1);
    assert_eq!(sheet.strokes_trash().len(), 1);
    sheet.redo_last_stroke();
    assert_eq!(sheet.strokes().len(), 2);
    assert_eq!(sheet.strokes_trash().len(), 0);
    let expected_first = marker_stroke(&[(10, 10), (50, 50)]);
    let expected_second = marker_stroke(&[(200, 200), (300, 250)]);
    assert!(stroke_eq(&sheet.strokes()[0], &expected_first));
    assert!(stroke_eq(&sheet.strokes()[1], &expected_second));
}

#[test]
fn undo_on_empty_sheet_is_a_no_op() {
    let mut sheet = Sheet::new();
    sheet.clear();
    let resize_needed = sheet.undo_last_stroke();
    assert!(!resize_needed);
    assert!(sheet.strokes().is_empty());
    assert!(sheet.strokes_trash().is_empty());
}

#[test]
fn fit_to_format_snaps_to_page_multiples() {
    let mut sheet = Sheet::new();
    sheet.set_autoexpand_height(false);
    assert_eq!(sheet.padding_bottom(), 0);
    sheet.strokes.push(marker_stroke(&[(0, 0), (10, 2000)]));
    sheet.fit_to_format();
    assert_eq!(sheet.height(), 2 * 1754);
}

#[test]
fn change_format_resets_extent_and_padding() {
    let mut sheet = Sheet::new();
    sheet.clear();
    sheet.change_format((800, 600, 72));
    assert_eq!(sheet.width(), 800);
    assert_eq!(sheet.format().height, 600);
    assert_eq!(sheet.padding_bottom(), 1200);
    assert_eq!(sheet.height(), 600);
}

#[test]
fn remove_strokes_skips_out_of_range_indices() {
    let mut sheet = Sheet::new();
    sheet.clear();
    sheet.strokes.push(vector_image(0, 0, 10, 10));
    sheet.strokes.push(vector_image(20, 20, 10, 10));
    sheet.strokes.push(vector_image(40, 40, 10, 10));
    sheet.remove_strokes(vec![1, 7]);
    assert_eq!(sheet.strokes().len(), 2);
    assert_eq!(sheet.strokes()[0].bounds().mins.x, 0);
    assert_eq!(sheet.strokes()[1].bounds().mins.x, 40);
}

#[test]
fn autoresize_grows_to_bottom_stroke() {
    let mut sheet = Sheet::new();
    sheet.clear();
    sheet.strokes.push(marker_stroke(&[(100, 100), (100, 3000)]));
    let resize_needed = sheet.resize();
    assert!(resize_needed);
    assert_eq!(sheet.height(), 3000 + 2 * 1754);
}

#[test]
fn undo_redo_restores_the_height() {
    let mut sheet = Sheet::new();
    sheet.clear();
    sheet.strokes.push(marker_stroke(&[(0, 0), (10, 500)]));
    sheet.resize();
    sheet.strokes.push(marker_stroke(&[(0, 600), (10, 2500)]));
    sheet.resize();
    let before = sheet.height();
    sheet.undo_last_stroke();
    assert_eq!(sheet.height(), 500 + 3508);
    sheet.redo_last_stroke();
    assert_eq!(sheet.height(), before);
}

#[test]
fn strokes_are_conserved_across_their_homes() {
    let mut sheet = Sheet::new();
    sheet.clear();
    sheet.strokes.push(marker_stroke(&[(10, 10), (20, 20)]));
    sheet.strokes.push(vector_image(100, 100, 50, 50));
    sheet.strokes.push(marker_stroke(&[(300, 300), (310, 310)]));
    let total = |s: &Sheet| s.strokes.len() + s.strokes_trash.len() + s.selection.strokes.len();
    assert_eq!(total(&sheet), 3);
    let eraser = Eraser {
        width: 30,
        current_input: InputSample::new(Vector2 { x: 15, y: 15 }, 500),
        shown: true,
    };
    sheet.remove_colliding_strokes(&eraser);
    assert_eq!(total(&sheet), 3);
    sheet.undo_last_stroke();
    assert_eq!(total(&sheet), 3);
    sheet.redo_last_stroke();
    assert_eq!(total(&sheet), 3);
}

#[test]
fn computed_height_never_falls_below_one_page() {
    let mut sheet = Sheet::new();
    sheet.clear();
    sheet.set_padding_bottom(0);
    // A stroke hugging the top edge alone would prescribe 20 pixels.
    sheet.strokes.push(marker_stroke(&[(0, 0), (10, 20)]));
    assert_eq!(sheet.calc_height(), 1754);
}
