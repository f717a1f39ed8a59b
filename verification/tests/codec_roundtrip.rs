use sheet_core::codec::{decode_sheet, encode_sheet, write_key, write_strokes};
use sheet_core::eq::sheet_eq;
use sheet_core::error::{DecodeReason, FieldId};
use sheet_core::filetype::FileType;
use sheet_core::geometry::{Aabb, Vector2};
use sheet_core::input::InputSample;
use sheet_core::pens::{PenStyle, Pens};
use sheet_core::render::RenderNode;
use sheet_core::sheet::Sheet;
use sheet_core::strokes::{
    add_to_last_stroke, new_stroke, BitmapImage, ImageFormat, StrokeStyle, VectorImage,
};

fn marker_stroke(points: &[(i64, i64)]) -> StrokeStyle {
    let pens = Pens::default();
    let mut strokes: Vec<StrokeStyle> = Vec::new();
    new_stroke(
        &mut strokes,
        InputSample::new(Vector2 { x: points[0].0, y: points[0].1 }, 500),
        PenStyle::Marker,
        &pens,
    );
    for p in &points[1..] {
        add_to_last_stroke(
            &mut strokes,
            InputSample::new(Vector2 { x: p.0, y: p.1 }, 500),
            &pens,
        );
    }
    strokes.pop().unwrap()
}

fn brush_stroke(points: &[(i64, i64)]) -> StrokeStyle {
    let pens = Pens::default();
    let mut strokes: Vec<StrokeStyle> = Vec::new();
    new_stroke(
        &mut strokes,
        InputSample::new(Vector2 { x: points[0].0, y: points[0].1 }, 800),
        PenStyle::Brush,
        &pens,
    );
    for p in &points[1..] {
        add_to_last_stroke(
            &mut strokes,
            InputSample::new(Vector2 { x: p.0, y: p.1 }, 800),
            &pens,
        );
    }
    strokes.pop().unwrap()
}

fn vector_image() -> StrokeStyle {
    StrokeStyle::VectorImage(VectorImage {
        data_svg: b"<rect width=\"10\" height=\"10\"/>".to_vec(),
        bounds: Aabb { mins: Vector2 { x: 5, y: 6 }, maxs: Vector2 { x: 25, y: 36 } },
        intrinsic_size: Vector2 { x: 20, y: 30 },
        pos: Vector2 { x: 5, y: 6 },
        rendernode: RenderNode::empty(),
    })
}

fn bitmap_image() -> StrokeStyle {
    StrokeStyle::BitmapImage(BitmapImage {
        data: vec![1, 2, 3, 250, 0, 9],
        format: ImageFormat::Png,
        bounds: Aabb { mins: Vector2 { x: -10, y: -20 }, maxs: Vector2 { x: 30, y: 44 } },
        intrinsic_size: Vector2 { x: 40, y: 64 },
        pos: Vector2 { x: -10, y: -20 },
        rendernode: RenderNode::empty(),
    })
}

fn populated_sheet() -> Sheet {
    let mut sheet = Sheet::new();
    sheet.strokes.push(marker_stroke(&[(1, 2), (30, 40), (55, 6)]));
    sheet.strokes.push(vector_image());
    sheet.strokes_trash.push(brush_stroke(&[(100, 100), (120, 160)]));
    sheet.selection.push_to_selection(bitmap_image());
    sheet.selection.set_shown(true);
    sheet.set_x(-7);
    sheet.set_y(13);
    sheet.set_height(4000);
    sheet.set_padding_bottom(3508);
    sheet
}

#[test]
fn roundtrip_of_empty_sheet() {
    let sheet = Sheet::new();
    let bytes = encode_sheet(&sheet);
    let back = decode_sheet(&bytes).expect("decode");
    assert!(sheet_eq(&back, &sheet));
}

#[test]
fn roundtrip_of_populated_sheet() {
    let sheet = populated_sheet();
    let bytes = encode_sheet(&sheet);
    let back = decode_sheet(&bytes).expect("decode");
    // Render-node caches are not persisted; this sheet carries none.
    assert!(sheet_eq(&back, &sheet));
}

#[test]
fn roundtrip_drops_render_node_caches() {
    let mut sheet = Sheet::new();
    sheet.strokes.push(marker_stroke(&[(1, 1), (9, 9)]));
    sheet_core::strokes::update_all_rendernodes(&mut sheet.strokes, 2000);
    let bytes = encode_sheet(&sheet);
    let back = decode_sheet(&bytes).expect("decode");
    match (&back.strokes[0], &sheet.strokes[0]) {
        (StrokeStyle::MarkerStroke(b), StrokeStyle::MarkerStroke(a)) => {
            assert_eq!(b.elements, a.elements);
            assert_eq!(b.bounds, a.bounds);
            assert_eq!(b.rendernode, RenderNode::empty());
            assert_eq!(a.rendernode.scale, 2000);
        },
        _ => panic!("expected marker strokes"),
    }
}

#[test]
fn decode_reencodes_to_the_same_bytes() {
    let sheet = populated_sheet();
    let bytes = encode_sheet(&sheet);
    let back = decode_sheet(&bytes).expect("decode");
    let again = encode_sheet(&back);
    assert_eq!(bytes, again);
}

#[test]
fn decode_rejects_truncated_documents() {
    let sheet = Sheet::new();
    let mut bytes = encode_sheet(&sheet);
    bytes.truncate(bytes.len() - 5);
    let err = match decode_sheet(&bytes) {
        Err(e) => e,
        Ok(_) => panic!("decode unexpectedly succeeded"),
    };
    assert_eq!(err.field, Some(FieldId::PaddingBottom));
}

#[test]
fn decode_rejects_trailing_data() {
    let sheet = Sheet::new();
    let mut bytes = encode_sheet(&sheet);
    bytes.push(32);
    let err = match decode_sheet(&bytes) {
        Err(e) => e,
        Ok(_) => panic!("decode unexpectedly succeeded"),
    };
    assert_eq!(err.reason, DecodeReason::TrailingData);
}

#[test]
fn decode_rejects_garbage() {
    let bytes = b"not a sheet document".to_vec();
    assert!(decode_sheet(&bytes).is_err());
}

#[test]
fn decode_names_a_missing_field() {
    // A document that starts with the trash field is missing `strokes`.
    let mut bytes: Vec<u8> = Vec::new();
    write_key(&mut bytes, FieldId::StrokesTrash);
    let empty: Vec<StrokeStyle> = Vec::new();
    write_strokes(&mut bytes, &empty);
    let err = match decode_sheet(&bytes) {
        Err(e) => e,
        Ok(_) => panic!("decode unexpectedly succeeded"),
    };
    assert_eq!(err.field, Some(FieldId::Strokes));
    assert_eq!(err.reason, DecodeReason::MissingField);
}

#[test]
fn decode_names_a_duplicate_field() {
    // `strokes` written twice: the second occurrence is the duplicate.
    let mut bytes: Vec<u8> = Vec::new();
    let empty: Vec<StrokeStyle> = Vec::new();
    write_key(&mut bytes, FieldId::Strokes);
    write_strokes(&mut bytes, &empty);
    write_key(&mut bytes, FieldId::Strokes);
    write_strokes(&mut bytes, &empty);
    let err = match decode_sheet(&bytes) {
        Err(e) => e,
        Ok(_) => panic!("decode unexpectedly succeeded"),
    };
    assert_eq!(err.field, Some(FieldId::Strokes));
    assert_eq!(err.reason, DecodeReason::DuplicateField);
}

#[test]
fn open_sheet_replaces_state_and_recomputes_geometry() {
    let source = populated_sheet();
    let bytes = encode_sheet(&source);
    let mut target = Sheet::new();
    let templates: Vec<u64> = vec![0];
    target.open_sheet(&bytes, &templates).expect("open");
    assert_eq!(target.strokes.len(), 2);
    assert_eq!(target.strokes_trash.len(), 1);
    assert_eq!(target.selection.strokes.len(), 1);
    assert_eq!(target.x(), -7);
    assert_eq!(target.y(), 13);
    assert_eq!(target.height(), 4000);
}

#[test]
fn open_sheet_rejects_unknown_templates_and_keeps_state() {
    let mut source = Sheet::new();
    source.strokes.push(brush_stroke(&[(0, 0), (5, 5)]));
    let bytes = encode_sheet(&source);
    let mut target = Sheet::new();
    target.set_x(99);
    let templates: Vec<u64> = vec![7];  // the brush uses template id 0
    let err = match target.open_sheet(&bytes, &templates) {
        Err(e) => e,
        Ok(_) => panic!("open unexpectedly succeeded"),
    };
    assert_eq!(err.reason, DecodeReason::UnknownTemplate);
    assert_eq!(target.x(), 99);
}

#[test]
fn save_sheet_only_takes_the_native_file_type() {
    let sheet = Sheet::new();
    assert!(sheet.save_sheet(FileType::RnoteFile).is_ok());
    assert!(sheet.save_sheet(FileType::XoppFile).is_err());
    assert!(sheet.save_sheet(FileType::UnknownFile).is_err());
}

#[test]
fn saved_bytes_reload() {
    let source = populated_sheet();
    let bytes = source.save_sheet(FileType::RnoteFile).expect("save");
    let mut target = Sheet::new();
    let templates: Vec<u64> = vec![0];
    target.open_sheet(&bytes, &templates).expect("open");
    assert_eq!(target.strokes.len(), source.strokes.len());
}

#[test]
fn document_is_keyed_readable_text() {
    let sheet = Sheet::new();
    let bytes = encode_sheet(&sheet);
    let text = String::from_utf8(bytes).expect("utf8");
    assert!(text.contains("strokes"));
    assert!(text.contains("strokes_trash"));
    assert!(text.contains("selection"));
    assert!(text.contains("format"));
    assert!(text.contains("background"));
    assert!(text.contains("autoexpand_height"));
    assert!(text.contains("padding_bottom"));
}

#[test]
fn primitive_number_roundtrip() {
    let mut bytes: Vec<u8> = Vec::new();
    sheet_core::codec::write_u64(&mut bytes, 123456789);
    sheet_core::codec::write_i64(&mut bytes, -42);
    let (v, mid) = sheet_core::codec::read_u64(&bytes, 0).expect("u64");
    assert_eq!(v, 123456789);
    let (w, end) = sheet_core::codec::read_i64(&bytes, mid).expect("i64");
    assert_eq!(w, -42);
    assert_eq!(end, bytes.len());
}

#[test]
fn read_rejects_a_bad_digit() {
    let mut bytes: Vec<u8> = Vec::new();
    sheet_core::codec::write_u64(&mut bytes, 7);
    bytes[3] = 65;
    let err = match sheet_core::codec::read_u64(&bytes, 0) {
        Err(e) => e,
        Ok(_) => panic!("read unexpectedly succeeded"),
    };
    assert_eq!(err.reason, DecodeReason::BadDigit);
}

#[test]
fn read_rejects_a_too_large_number() {
    // Twenty nines exceed any u64.
    let mut bytes: Vec<u8> = vec![57; 20];
    bytes.push(10);
    let err = match sheet_core::codec::read_u64(&bytes, 0) {
        Err(e) => e,
        Ok(_) => panic!("read unexpectedly succeeded"),
    };
    assert_eq!(err.reason, DecodeReason::Overflow);
}

#[test]
fn read_rejects_a_bad_sign_tag() {
    let mut bytes: Vec<u8> = vec![42];
    sheet_core::codec::write_u64(&mut bytes, 1);
    let err = match sheet_core::codec::read_i64(&bytes, 0) {
        Err(e) => e,
        Ok(_) => panic!("read unexpectedly succeeded"),
    };
    assert_eq!(err.reason, DecodeReason::BadTag);
}

#[test]
fn read_rejects_a_negative_zero() {
    // The encoder never writes a minus ahead of zero.
    let mut bytes: Vec<u8> = vec![45];
    sheet_core::codec::write_u64(&mut bytes, 0);
    let err = match sheet_core::codec::read_i64(&bytes, 0) {
        Err(e) => e,
        Ok(_) => panic!("read unexpectedly succeeded"),
    };
    assert_eq!(err.reason, DecodeReason::Malformed);
}

#[test]
fn read_rejects_truncated_numbers() {
    let bytes: Vec<u8> = vec![48, 48, 48];
    let err = match sheet_core::codec::read_u64(&bytes, 0) {
        Err(e) => e,
        Ok(_) => panic!("read unexpectedly succeeded"),
    };
    assert_eq!(err.reason, DecodeReason::Truncated);
}

#[test]
fn decode_rejects_out_of_range_stroke_width() {
    // A marker stroke with width zero violates the pen-width range.
    let mut sheet = Sheet::new();
    sheet.strokes.push(marker_stroke(&[(0, 0), (5, 5)]));
    let mut bytes = encode_sheet(&sheet);
    // The width field is the first number of the stroke body; rewrite it
    // to zero by hand and watch the decoder refuse it.
    let needle = encode_find_width_digits(&bytes);
    for b in bytes[needle..needle + 20].iter_mut() {
        *b = 48;
    }
    let err = match decode_sheet(&bytes) {
        Err(e) => e,
        Ok(_) => panic!("decode unexpectedly succeeded"),
    };
    assert_eq!(err.reason, DecodeReason::OutOfRange);
}

/// The offset of the stroke-width digits in an encoded one-stroke sheet:
/// key `strokes` (21 + 7 bytes), the list length (21), the variant tag
/// (2), then the width.
fn encode_find_width_digits(_bytes: &[u8]) -> usize {
    21 + 7 + 21 + 2
}
