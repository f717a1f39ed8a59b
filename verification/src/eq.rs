//! Deep structural comparison of sheets, for callers and tests; spec
//! equality of the corresponding views is what the result means.

use vstd::prelude::*;

use crate::selection::Selection;
use crate::sheet::Sheet;
use crate::strokes::{Element, StrokeStyle};

verus! {

/// Structural equality of two strokes, over their views.
pub open spec fn stroke_like(a: StrokeStyle, b: StrokeStyle) -> bool {
    match (a, b) {
        (StrokeStyle::MarkerStroke(x), StrokeStyle::MarkerStroke(y)) => {
            &&& x.elements@ == y.elements@
            &&& x.bounds == y.bounds
            &&& x.hitbox@ == y.hitbox@
            &&& x.options == y.options
            &&& x.rendernode == y.rendernode
        },
        (StrokeStyle::BrushStroke(x), StrokeStyle::BrushStroke(y)) => {
            &&& x.elements@ == y.elements@
            &&& x.bounds == y.bounds
            &&& x.hitbox@ == y.hitbox@
            &&& x.options == y.options
            &&& x.template_id == y.template_id
            &&& x.rendernode == y.rendernode
        },
        (StrokeStyle::VectorImage(x), StrokeStyle::VectorImage(y)) => {
            &&& x.data_svg@ == y.data_svg@
            &&& x.bounds == y.bounds
            &&& x.intrinsic_size == y.intrinsic_size
            &&& x.pos == y.pos
            &&& x.rendernode == y.rendernode
        },
        (StrokeStyle::BitmapImage(x), StrokeStyle::BitmapImage(y)) => {
            &&& x.data@ == y.data@
            &&& x.format == y.format
            &&& x.bounds == y.bounds
            &&& x.intrinsic_size == y.intrinsic_size
            &&& x.pos == y.pos
            &&& x.rendernode == y.rendernode
        },
        _ => false,
    }
}

pub open spec fn strokes_like(a: Seq<StrokeStyle>, b: Seq<StrokeStyle>) -> bool {
    a.len() == b.len() && (forall|i: int| 0 <= i < a.len() ==> stroke_like(#[trigger] a[i], b[i]))
}

/// Structural equality of two whole sheets, over their views.
pub open spec fn sheet_like(a: Sheet, b: Sheet) -> bool {
    &&& strokes_like(a.strokes@, b.strokes@)
    &&& strokes_like(a.strokes_trash@, b.strokes_trash@)
    &&& strokes_like(a.selection.strokes@, b.selection.strokes@)
    &&& a.selection.bounds == b.selection.bounds
    &&& a.selection.shown == b.selection.shown
    &&& a.format == b.format
    &&& a.background == b.background
    &&& a.x == b.x
    &&& a.y == b.y
    &&& a.width == b.width
    &&& a.height == b.height
    &&& a.autoexpand_height == b.autoexpand_height
    &&& a.format_borders == b.format_borders
    &&& a.padding_bottom == b.padding_bottom
}

fn elements_eq(a: &Vec<Element>, b: &Vec<Element>) -> (r: bool)
    ensures
        r == (a@ == b@),
{
    if a.len() != b.len() {
        proof {
            assert(a@ != b@);
        }
        return false;
    }
    let n = a.len();
    let mut i: usize = 0;
    while i < n
        invariant
            0 <= i <= n,
            n == a@.len(),
            n == b@.len(),
            forall|j: int| 0 <= j < i ==> a@[j] == b@[j],
        decreases n - i,
    {
        if a[i] != b[i] {
            return false;
        }
        i += 1;
    }
    proof {
        assert(a@ =~= b@);
    }
    true
}

fn aabbs_eq(a: &Vec<crate::geometry::Aabb>, b: &Vec<crate::geometry::Aabb>) -> (r: bool)
    ensures
        r == (a@ == b@),
{
    if a.len() != b.len() {
        proof {
            assert(a@ != b@);
        }
        return false;
    }
    let n = a.len();
    let mut i: usize = 0;
    while i < n
        invariant
            0 <= i <= n,
            n == a@.len(),
            n == b@.len(),
            forall|j: int| 0 <= j < i ==> a@[j] == b@[j],
        decreases n - i,
    {
        if a[i] != b[i] {
            return false;
        }
        i += 1;
    }
    proof {
        assert(a@ =~= b@);
    }
    true
}

fn bytes_like(a: &Vec<u8>, b: &Vec<u8>) -> (r: bool)
    ensures
        r == (a@ == b@),
{
    if a.len() != b.len() {
        proof {
            assert(a@ != b@);
        }
        return false;
    }
    let n = a.len();
    let mut i: usize = 0;
    while i < n
        invariant
            0 <= i <= n,
            n == a@.len(),
            n == b@.len(),
            forall|j: int| 0 <= j < i ==> a@[j] == b@[j],
        decreases n - i,
    {
        if a[i] != b[i] {
            return false;
        }
        i += 1;
    }
    proof {
        assert(a@ =~= b@);
    }
    true
}

/// Compares two strokes structurally.
pub fn stroke_eq(a: &StrokeStyle, b: &StrokeStyle) -> (r: bool)
    ensures
        r == stroke_like(*a, *b),
{
    match (a, b) {
        (StrokeStyle::MarkerStroke(x), StrokeStyle::MarkerStroke(y)) => elements_eq(
            &x.elements,
            &y.elements,
        ) && x.bounds == y.bounds && aabbs_eq(&x.hitbox, &y.hitbox) && x.options == y.options
            && x.rendernode == y.rendernode,
        (StrokeStyle::BrushStroke(x), StrokeStyle::BrushStroke(y)) => elements_eq(
            &x.elements,
            &y.elements,
        ) && x.bounds == y.bounds && aabbs_eq(&x.hitbox, &y.hitbox) && x.options == y.options
            && x.template_id == y.template_id && x.rendernode == y.rendernode,
        (StrokeStyle::VectorImage(x), StrokeStyle::VectorImage(y)) => bytes_like(
            &x.data_svg,
            &y.data_svg,
        ) && x.bounds == y.bounds && x.intrinsic_size == y.intrinsic_size && x.pos == y.pos
            && x.rendernode == y.rendernode,
        (StrokeStyle::BitmapImage(x), StrokeStyle::BitmapImage(y)) => bytes_like(&x.data, &y.data)
            && x.format == y.format && x.bounds == y.bounds && x.intrinsic_size == y.intrinsic_size
            && x.pos == y.pos && x.rendernode == y.rendernode,
        _ => false,
    }
}

fn strokes_eq(a: &Vec<StrokeStyle>, b: &Vec<StrokeStyle>) -> (r: bool)
    ensures
        r == strokes_like(a@, b@),
{
    if a.len() != b.len() {
        return false;
    }
    let n = a.len();
    let mut i: usize = 0;
    while i < n
        invariant
            0 <= i <= n,
            n == a@.len(),
            n == b@.len(),
            forall|j: int| 0 <= j < i ==> stroke_like(#[trigger] a@[j], b@[j]),
        decreases n - i,
    {
        if !stroke_eq(&a[i], &b[i]) {
            return false;
        }
        i += 1;
    }
    true
}

fn selection_eq(a: &Selection, b: &Selection) -> (r: bool)
    ensures
        r == (strokes_like(a.strokes@, b.strokes@) && a.bounds == b.bounds && a.shown == b.shown),
{
    let bounds_same = match (&a.bounds, &b.bounds) {
        (Option::Some(x), Option::Some(y)) => x == y,
        (Option::None, Option::None) => true,
        _ => false,
    };
    strokes_eq(&a.strokes, &b.strokes) && bounds_same && a.shown == b.shown
}

/// Compares two sheets structurally, render-node caches included.
pub fn sheet_eq(a: &Sheet, b: &Sheet) -> (r: bool)
    ensures
        r == sheet_like(*a, *b),
{
    strokes_eq(&a.strokes, &b.strokes) && strokes_eq(&a.strokes_trash, &b.strokes_trash)
        && selection_eq(&a.selection, &b.selection) && a.format == b.format && a.background
        == b.background && a.x == b.x && a.y == b.y && a.width == b.width && a.height == b.height
        && a.autoexpand_height == b.autoexpand_height && a.format_borders == b.format_borders
        && a.padding_bottom == b.padding_bottom
}

} // verus!
