use sheet_core::filetype::{FileType, FsEntryKind};
use sheet_core::geometry::{Aabb, Vector2};
use sheet_core::strokes::StrokeStyle;
use sheet_core::pens::{PenStyle, Pens};
use sheet_core::input::InputSample;
use sheet_core::strokes::{add_to_last_stroke, new_stroke};

#[test]
fn aabb_intersection_is_inclusive() {
    let a = Aabb { mins: Vector2 { x: 0, y: 0 }, maxs: Vector2 { x: 10, y: 10 } };
    let touching = Aabb { mins: Vector2 { x: 10, y: 10 }, maxs: Vector2 { x: 20, y: 20 } };
    let apart = Aabb { mins: Vector2 { x: 11, y: 11 }, maxs: Vector2 { x: 20, y: 20 } };
    assert!(a.intersects(&touching));
    assert!(!a.intersects(&apart));
}

#[test]
fn aabb_containment_and_merge() {
    let a = Aabb { mins: Vector2 { x: 0, y: 0 }, maxs: Vector2 { x: 10, y: 10 } };
    let inner = Aabb { mins: Vector2 { x: 2, y: 3 }, maxs: Vector2 { x: 7, y: 8 } };
    assert!(a.contains(&inner));
    assert!(!inner.contains(&a));
    let other = Aabb { mins: Vector2 { x: -5, y: 4 }, maxs: Vector2 { x: 3, y: 20 } };
    let merged = a.merge(&other);
    assert_eq!(merged.mins, Vector2 { x: -5, y: 0 });
    assert_eq!(merged.maxs, Vector2 { x: 10, y: 20 });
    assert!(merged.contains(&a));
    assert!(merged.contains(&other));
}

#[test]
fn vector_arithmetic() {
    let a = Vector2::new(3, -4);
    let b = Vector2::new(10, 7);
    assert_eq!(a.add(b), Vector2 { x: 13, y: 3 });
    assert_eq!(b.sub(a), Vector2 { x: 7, y: 11 });
}

#[test]
fn aabb_translation_shifts_both_corners() {
    let b = Aabb { mins: Vector2 { x: 1, y: 2 }, maxs: Vector2 { x: 5, y: 6 } };
    let t = b.translate(Vector2 { x: 10, y: -1 });
    assert_eq!(t.mins, Vector2 { x: 11, y: 1 });
    assert_eq!(t.maxs, Vector2 { x: 15, y: 5 });
}

#[test]
fn aabb_from_corners_normalizes_order() {
    let b = Aabb::from_corners(Vector2 { x: 9, y: -2 }, Vector2 { x: 3, y: 4 });
    assert_eq!(b.mins, Vector2 { x: 3, y: -2 });
    assert_eq!(b.maxs, Vector2 { x: 9, y: 4 });
}

#[test]
fn stroke_bounds_contain_elements_and_hitbox() {
    let pens = Pens::default();
    let mut strokes: Vec<StrokeStyle> = Vec::new();
    new_stroke(
        &mut strokes,
        InputSample::new(Vector2 { x: 5, y: 5 }, 500),
        PenStyle::Marker,
        &pens,
    );
    for p in &[(50i64, 10i64), (20, 80), (90, 90)] {
        add_to_last_stroke(
            &mut strokes,
            InputSample::new(Vector2 { x: p.0, y: p.1 }, 500),
            &pens,
        );
    }
    match &strokes[0] {
        StrokeStyle::MarkerStroke(m) => {
            assert_eq!(m.hitbox.len(), m.elements.len() - 1);
            for e in &m.elements {
                assert!(m.bounds.contains_point(&e.inputdata.pos));
            }
            for tile in &m.hitbox {
                assert!(m.bounds.contains(tile));
            }
        },
        _ => panic!("expected a marker stroke"),
    }
}

fn bytes(s: &str) -> Vec<u8> {
    s.as_bytes().to_vec()
}

#[test]
fn file_type_by_content_type() {
    let k = Some(FsEntryKind::Regular);
    assert_eq!(
        FileType::lookup_file_type(k, Some(&bytes("application/rnote")), None),
        FileType::RnoteFile
    );
    assert_eq!(
        FileType::lookup_file_type(k, Some(&bytes("application/x-xopp")), None),
        FileType::XoppFile
    );
    assert_eq!(
        FileType::lookup_file_type(k, Some(&bytes("image/svg+xml")), None),
        FileType::VectorImageFile
    );
    assert_eq!(
        FileType::lookup_file_type(k, Some(&bytes("image/png")), None),
        FileType::BitmapImageFile
    );
    assert_eq!(
        FileType::lookup_file_type(k, Some(&bytes("image/jpeg")), None),
        FileType::BitmapImageFile
    );
    assert_eq!(
        FileType::lookup_file_type(k, Some(&bytes("application/pdf")), None),
        FileType::PdfFile
    );
}

#[test]
fn file_type_falls_back_to_extension() {
    let k = Some(FsEntryKind::Regular);
    assert_eq!(
        FileType::lookup_file_type(k, Some(&bytes("text/plain")), Some(&bytes("rnote"))),
        FileType::RnoteFile
    );
    assert_eq!(
        FileType::lookup_file_type(None, None, Some(&bytes("xopp"))),
        FileType::XoppFile
    );
    assert_eq!(
        FileType::lookup_file_type(None, None, Some(&bytes("txt"))),
        FileType::UnknownFile
    );
}

#[test]
fn directories_and_exotic_entries() {
    assert_eq!(
        FileType::lookup_file_type(Some(FsEntryKind::Directory), None, Some(&bytes("rnote"))),
        FileType::Folder
    );
    // An exotic entry is unknown even when the extension would match.
    assert_eq!(
        FileType::lookup_file_type(Some(FsEntryKind::Other), None, Some(&bytes("rnote"))),
        FileType::UnknownFile
    );
    assert_eq!(FileType::lookup_file_type(None, None, None), FileType::UnknownFile);
}
