//! Composing the SVG export: decimal and hex writers, stroke fragments
//! and the document root whose view box is the sheet's extent.

use vstd::prelude::*;

use crate::geometry::{Aabb, Vector2};
use crate::render::Color;
use crate::strokes::{Element, StrokeStyle};

verus! {

/// The decimal digits of `v`, most significant first, no leading zeros.
pub open spec fn dec_str(v: nat) -> Seq<u8>
    decreases v,
{
    if v < 10 {
        seq![(48 + v) as u8]
    } else {
        dec_str(v / 10).push((48 + v % 10) as u8)
    }
}

/// A signed decimal: a minus sign ahead of negative magnitudes.
pub open spec fn dec_str_i64(v: int) -> Seq<u8> {
    if v < 0 {
        seq![45u8] + dec_str((-v) as nat)
    } else {
        dec_str(v as nat)
    }
}

/// Appends the decimal digits of `v`.
pub fn push_decimal_u64(out: &mut Vec<u8>, v: u64)
    ensures
        final(out)@ == old(out)@ + dec_str(v as nat),
    decreases v,
{
    if v >= 10 {
        push_decimal_u64(out, v / 10);
    }
    out.push(48 + ((v % 10) as u8));
    proof {
        assert(final(out)@ =~= old(out)@ + dec_str(v as nat));
    }
}

/// Appends a signed decimal.
pub fn push_decimal_i64(out: &mut Vec<u8>, v: i64)
    ensures
        final(out)@ == old(out)@ + dec_str_i64(v as int),
{
    if v < 0 {
        out.push(45);
        let mag: u64 = if v == -0x8000_0000_0000_0000i64 {
            0x8000_0000_0000_0000u64
        } else {
            (-v) as u64
        };
        push_decimal_u64(out, mag);
    } else {
        push_decimal_u64(out, v as u64);
    }
    proof {
        assert(final(out)@ =~= old(out)@ + dec_str_i64(v as int));
    }
}

pub open spec fn hex_digit(d: nat) -> u8 {
    if d < 10 {
        (48 + d) as u8
    } else {
        (87 + d) as u8
    }
}

/// Two lowercase hex digits of one byte.
pub open spec fn hex_byte(v: u8) -> Seq<u8> {
    seq![hex_digit((v as nat) / 16), hex_digit((v as nat) % 16)]
}

pub fn push_hex_byte(out: &mut Vec<u8>, v: u8)
    ensures
        final(out)@ == old(out)@ + hex_byte(v),
{
    let hi = v / 16;
    let lo = v % 16;
    out.push(if hi < 10 { 48 + hi } else { 87 + hi });
    out.push(if lo < 10 { 48 + lo } else { 87 + lo });
    proof {
        assert(final(out)@ =~= old(out)@ + hex_byte(v));
    }
}

/// The six hex digits of an opaque color.
pub open spec fn hex_color(c: Color) -> Seq<u8> {
    hex_byte(c.r) + hex_byte(c.g) + hex_byte(c.b)
}

pub fn push_hex_color(out: &mut Vec<u8>, c: &Color)
    ensures
        final(out)@ == old(out)@ + hex_color(*c),
{
    push_hex_byte(out, c.r);
    push_hex_byte(out, c.g);
    push_hex_byte(out, c.b);
    proof {
        assert(final(out)@ =~= old(out)@ + hex_color(*c));
    }
}

pub open spec fn lit_svg_open_a() -> Seq<u8> {
    seq![60u8, 115u8, 118u8, 103u8, 32u8, 118u8, 105u8, 101u8, 119u8, 66u8, 111u8, 120u8, 61u8, 34u8]
}

pub open spec fn lit_svg_open_b() -> Seq<u8> {
    seq![34u8, 32u8, 119u8, 105u8, 100u8, 116u8, 104u8, 61u8, 34u8]
}

pub open spec fn lit_svg_open_c() -> Seq<u8> {
    seq![34u8, 32u8, 104u8, 101u8, 105u8, 103u8, 104u8, 116u8, 61u8, 34u8]
}

pub open spec fn lit_svg_open_d() -> Seq<u8> {
    seq![34u8, 32u8, 120u8, 109u8, 108u8, 110u8, 115u8, 61u8, 34u8, 104u8, 116u8, 116u8, 112u8, 58u8, 47u8, 47u8, 119u8, 119u8, 119u8, 46u8, 119u8, 51u8, 46u8, 111u8, 114u8, 103u8, 47u8, 50u8, 48u8, 48u8, 48u8, 47u8, 115u8, 118u8, 103u8, 34u8, 62u8]
}

pub open spec fn lit_svg_close() -> Seq<u8> {
    seq![60u8, 47u8, 115u8, 118u8, 103u8, 62u8]
}

pub open spec fn lit_space() -> Seq<u8> {
    seq![32u8]
}

pub open spec fn lit_polyline_a() -> Seq<u8> {
    seq![60u8, 112u8, 111u8, 108u8, 121u8, 108u8, 105u8, 110u8, 101u8, 32u8, 102u8, 105u8, 108u8, 108u8, 61u8, 34u8, 110u8, 111u8, 110u8, 101u8, 34u8, 32u8, 115u8, 116u8, 114u8, 111u8, 107u8, 101u8, 61u8, 34u8, 35u8]
}

pub open spec fn lit_polyline_b() -> Seq<u8> {
    seq![34u8, 32u8, 115u8, 116u8, 114u8, 111u8, 107u8, 101u8, 45u8, 119u8, 105u8, 100u8, 116u8, 104u8, 61u8, 34u8]
}

pub open spec fn lit_polyline_c() -> Seq<u8> {
    seq![34u8, 32u8, 112u8, 111u8, 105u8, 110u8, 116u8, 115u8, 61u8, 34u8]
}

pub open spec fn lit_polyline_d() -> Seq<u8> {
    seq![34u8, 47u8, 62u8]
}

pub open spec fn lit_group_a() -> Seq<u8> {
    seq![60u8, 103u8, 32u8, 116u8, 114u8, 97u8, 110u8, 115u8, 102u8, 111u8, 114u8, 109u8, 61u8, 34u8, 116u8, 114u8, 97u8, 110u8, 115u8, 108u8, 97u8, 116u8, 101u8, 40u8]
}

pub open spec fn lit_comma() -> Seq<u8> {
    seq![44u8]
}

pub open spec fn lit_group_b() -> Seq<u8> {
    seq![41u8, 34u8, 62u8]
}

pub open spec fn lit_group_c() -> Seq<u8> {
    seq![60u8, 47u8, 103u8, 62u8]
}

pub open spec fn lit_image_a() -> Seq<u8> {
    seq![60u8, 105u8, 109u8, 97u8, 103u8, 101u8, 32u8, 120u8, 61u8, 34u8]
}

pub open spec fn lit_image_b() -> Seq<u8> {
    seq![34u8, 32u8, 121u8, 61u8, 34u8]
}

pub open spec fn lit_image_c() -> Seq<u8> {
    seq![34u8, 32u8, 119u8, 105u8, 100u8, 116u8, 104u8, 61u8, 34u8]
}

pub open spec fn lit_image_d() -> Seq<u8> {
    seq![34u8, 32u8, 104u8, 101u8, 105u8, 103u8, 104u8, 116u8, 61u8, 34u8]
}

pub open spec fn lit_image_e() -> Seq<u8> {
    seq![34u8, 47u8, 62u8]
}

fn push_svg_open_a(out: &mut Vec<u8>)
    ensures
        final(out)@ == old(out)@ + lit_svg_open_a(),
{
    out.push(60);
    out.push(115);
    out.push(118);
    out.push(103);
    out.push(32);
    out.push(118);
    out.push(105);
    out.push(101);
    out.push(119);
    out.push(66);
    out.push(111);
    out.push(120);
    out.push(61);
    out.push(34);
    proof {
        assert(final(out)@ =~= old(out)@ + lit_svg_open_a());
    }
}

fn push_svg_open_b(out: &mut Vec<u8>)
    ensures
        final(out)@ == old(out)@ + lit_svg_open_b(),
{
    out.push(34);
    out.push(32);
    out.push(119);
    out.push(105);
    out.push(100);
    out.push(116);
    out.push(104);
    out.push(61);
    out.push(34);
    proof {
        assert(final(out)@ =~= old(out)@ + lit_svg_open_b());
    }
}

fn push_svg_open_c(out: &mut Vec<u8>)
    ensures
        final(out)@ == old(out)@ + lit_svg_open_c(),
{
    out.push(34);
    out.push(32);
    out.push(104);
    out.push(101);
    out.push(105);
    out.push(103);
    out.push(104);
    out.push(116);
    out.push(61);
    out.push(34);
    proof {
        assert(final(out)@ =~= old(out)@ + lit_svg_open_c());
    }
}

fn push_svg_open_d(out: &mut Vec<u8>)
    ensures
        final(out)@ == old(out)@ + lit_svg_open_d(),
{
    out.push(34);
    out.push(32);
    out.push(120);
    out.push(109);
    out.push(108);
    out.push(110);
    out.push(115);
    out.push(61);
    out.push(34);
    out.push(104);
    out.push(116);
    out.push(116);
    out.push(112);
    out.push(58);
    out.push(47);
    out.push(47);
    out.push(119);
    out.push(119);
    out.push(119);
    out.push(46);
    out.push(119);
    out.push(51);
    out.push(46);
    out.push(111);
    out.push(114);
    out.push(103);
    out.push(47);
    out.push(50);
    out.push(48);
    out.push(48);
    out.push(48);
    out.push(47);
    out.push(115);
    out.push(118);
    out.push(103);
    out.push(34);
    out.push(62);
    proof {
        assert(final(out)@ =~= old(out)@ + lit_svg_open_d());
    }
}

fn push_svg_close(out: &mut Vec<u8>)
    ensures
        final(out)@ == old(out)@ + lit_svg_close(),
{
    out.push(60);
    out.push(47);
    out.push(115);
    out.push(118);
    out.push(103);
    out.push(62);
    proof {
        assert(final(out)@ =~= old(out)@ + lit_svg_close());
    }
}

fn push_space(out: &mut Vec<u8>)
    ensures
        final(out)@ == old(out)@ + lit_space(),
{
    out.push(32);
    proof {
        assert(final(out)@ =~= old(out)@ + lit_space());
    }
}

fn push_polyline_a(out: &mut Vec<u8>)
    ensures
        final(out)@ == old(out)@ + lit_polyline_a(),
{
    out.push(60);
    out.push(112);
    out.push(111);
    out.push(108);
    out.push(121);
    out.push(108);
    out.push(105);
    out.push(110);
    out.push(101);
    out.push(32);
    out.push(102);
    out.push(105);
    out.push(108);
    out.push(108);
    out.push(61);
    out.push(34);
    out.push(110);
    out.push(111);
    out.push(110);
    out.push(101);
    out.push(34);
    out.push(32);
    out.push(115);
    out.push(116);
    out.push(114);
    out.push(111);
    out.push(107);
    out.push(101);
    out.push(61);
    out.push(34);
    out.push(35);
    proof {
        assert(final(out)@ =~= old(out)@ + lit_polyline_a());
    }
}

fn push_polyline_b(out: &mut Vec<u8>)
    ensures
        final(out)@ == old(out)@ + lit_polyline_b(),
{
    out.push(34);
    out.push(32);
    out.push(115);
    out.push(116);
    out.push(114);
    out.push(111);
    out.push(107);
    out.push(101);
    out.push(45);
    out.push(119);
    out.push(105);
    out.push(100);
    out.push(116);
    out.push(104);
    out.push(61);
    out.push(34);
    proof {
        assert(final(out)@ =~= old(out)@ + lit_polyline_b());
    }
}

fn push_polyline_c(out: &mut Vec<u8>)
    ensures
        final(out)@ == old(out)@ + lit_polyline_c(),
{
    out.push(34);
    out.push(32);
    out.push(112);
    out.push(111);
    out.push(105);
    out.push(110);
    out.push(116);
    out.push(115);
    out.push(61);
    out.push(34);
    proof {
        assert(final(out)@ =~= old(out)@ + lit_polyline_c());
    }
}

fn push_polyline_d(out: &mut Vec<u8>)
    ensures
        final(out)@ == old(out)@ + lit_polyline_d(),
{
    out.push(34);
    out.push(47);
    out.push(62);
    proof {
        assert(final(out)@ =~= old(out)@ + lit_polyline_d());
    }
}

fn push_group_a(out: &mut Vec<u8>)
    ensures
        final(out)@ == old(out)@ + lit_group_a(),
{
    out.push(60);
    out.push(103);
    out.push(32);
    out.push(116);
    out.push(114);
    out.push(97);
    out.push(110);
    out.push(115);
    out.push(102);
    out.push(111);
    out.push(114);
    out.push(109);
    out.push(61);
    out.push(34);
    out.push(116);
    out.push(114);
    out.push(97);
    out.push(110);
    out.push(115);
    out.push(108);
    out.push(97);
    out.push(116);
    out.push(101);
    out.push(40);
    proof {
        assert(final(out)@ =~= old(out)@ + lit_group_a());
    }
}

fn push_comma(out: &mut Vec<u8>)
    ensures
        final(out)@ == old(out)@ + lit_comma(),
{
    out.push(44);
    proof {
        assert(final(out)@ =~= old(out)@ + lit_comma());
    }
}

fn push_group_b(out: &mut Vec<u8>)
    ensures
        final(out)@ == old(out)@ + lit_group_b(),
{
    out.push(41);
    out.push(34);
    out.push(62);
    proof {
        assert(final(out)@ =~= old(out)@ + lit_group_b());
    }
}

fn push_group_c(out: &mut Vec<u8>)
    ensures
        final(out)@ == old(out)@ + lit_group_c(),
{
    out.push(60);
    out.push(47);
    out.push(103);
    out.push(62);
    proof {
        assert(final(out)@ =~= old(out)@ + lit_group_c());
    }
}

fn push_image_a(out: &mut Vec<u8>)
    ensures
        final(out)@ == old(out)@ + lit_image_a(),
{
    out.push(60);
    out.push(105);
    out.push(109);
    out.push(97);
    out.push(103);
    out.push(101);
    out.push(32);
    out.push(120);
    out.push(61);
    out.push(34);
    proof {
        assert(final(out)@ =~= old(out)@ + lit_image_a());
    }
}

fn push_image_b(out: &mut Vec<u8>)
    ensures
        final(out)@ == old(out)@ + lit_image_b(),
{
    out.push(34);
    out.push(32);
    out.push(121);
    out.push(61);
    out.push(34);
    proof {
        assert(final(out)@ =~= old(out)@ + lit_image_b());
    }
}

fn push_image_c(out: &mut Vec<u8>)
    ensures
        final(out)@ == old(out)@ + lit_image_c(),
{
    out.push(34);
    out.push(32);
    out.push(119);
    out.push(105);
    out.push(100);
    out.push(116);
    out.push(104);
    out.push(61);
    out.push(34);
    proof {
        assert(final(out)@ =~= old(out)@ + lit_image_c());
    }
}

fn push_image_d(out: &mut Vec<u8>)
    ensures
        final(out)@ == old(out)@ + lit_image_d(),
{
    out.push(34);
    out.push(32);
    out.push(104);
    out.push(101);
    out.push(105);
    out.push(103);
    out.push(104);
    out.push(116);
    out.push(61);
    out.push(34);
    proof {
        assert(final(out)@ =~= old(out)@ + lit_image_d());
    }
}

fn push_image_e(out: &mut Vec<u8>)
    ensures
        final(out)@ == old(out)@ + lit_image_e(),
{
    out.push(34);
    out.push(47);
    out.push(62);
    proof {
        assert(final(out)@ =~= old(out)@ + lit_image_e());
    }
}

/// One `x,y` pair of a polyline's points list, shifted by the export
/// offset, with a trailing space.
pub open spec fn point_entry(e: Element, offset: Vector2) -> Seq<u8> {
    dec_str_i64(e.inputdata.pos.x + offset.x) + lit_comma() + dec_str_i64(
        e.inputdata.pos.y + offset.y,
    ) + lit_space()
}

pub open spec fn points_items(es: Seq<Element>, offset: Vector2) -> Seq<u8>
    decreases es.len(),
{
    if es.len() == 0 {
        Seq::empty()
    } else {
        points_items(es.drop_last(), offset) + point_entry(es.last(), offset)
    }
}

/// The fragment one stroke contributes to the export: polylines become
/// `polyline` elements, a vector image is wrapped in a translated group,
/// and a raster image keeps its place as an `image` element.
pub open spec fn spec_svg_fragment(s: StrokeStyle, offset: Vector2) -> Seq<u8> {
    match s {
        StrokeStyle::MarkerStroke(m) => lit_polyline_a() + hex_color(m.options.color)
            + lit_polyline_b() + dec_str(m.options.width as nat) + lit_polyline_c() + points_items(
            m.elements@,
            offset,
        ) + lit_polyline_d(),
        StrokeStyle::BrushStroke(b) => lit_polyline_a() + hex_color(b.options.color)
            + lit_polyline_b() + dec_str(b.options.width as nat) + lit_polyline_c() + points_items(
            b.elements@,
            offset,
        ) + lit_polyline_d(),
        StrokeStyle::VectorImage(v) => lit_group_a() + dec_str_i64(v.pos.x + offset.x)
            + lit_comma() + dec_str_i64(v.pos.y + offset.y) + lit_group_b() + v.data_svg@
            + lit_group_c(),
        StrokeStyle::BitmapImage(b) => lit_image_a() + dec_str_i64(b.pos.x + offset.x)
            + lit_image_b() + dec_str_i64(b.pos.y + offset.y) + lit_image_c() + dec_str_i64(
            b.intrinsic_size.x as int,
        ) + lit_image_d() + dec_str_i64(b.intrinsic_size.y as int) + lit_image_e(),
    }
}

impl StrokeStyle {
    /// Emits this stroke's SVG fragment, positioned by `offset`.
    pub fn gen_svg_data(&self, offset: Vector2) -> (r: Vec<u8>)
        requires
            self.wf(),
            offset.wf(),
        ensures
            r@ == spec_svg_fragment(*self, offset),
    {
        let mut out: Vec<u8> = Vec::new();
        match self {
            StrokeStyle::MarkerStroke(m) => {
                push_polyline_a(&mut out);
                push_hex_color(&mut out, &m.options.color);
                push_polyline_b(&mut out);
                push_decimal_u64(&mut out, m.options.width as u64);
                push_polyline_c(&mut out);
                push_points(&mut out, &m.elements, offset);
                push_polyline_d(&mut out);
                proof {
                    assert(out@ =~= spec_svg_fragment(*self, offset));
                }
            },
            StrokeStyle::BrushStroke(b) => {
                push_polyline_a(&mut out);
                push_hex_color(&mut out, &b.options.color);
                push_polyline_b(&mut out);
                push_decimal_u64(&mut out, b.options.width as u64);
                push_polyline_c(&mut out);
                push_points(&mut out, &b.elements, offset);
                push_polyline_d(&mut out);
                proof {
                    assert(out@ =~= spec_svg_fragment(*self, offset));
                }
            },
            StrokeStyle::VectorImage(v) => {
                push_group_a(&mut out);
                push_decimal_i64(&mut out, v.pos.x + offset.x);
                push_comma(&mut out);
                push_decimal_i64(&mut out, v.pos.y + offset.y);
                push_group_b(&mut out);
                push_all(&mut out, &v.data_svg);
                push_group_c(&mut out);
                proof {
                    assert(out@ =~= spec_svg_fragment(*self, offset));
                }
            },
            StrokeStyle::BitmapImage(b) => {
                push_image_a(&mut out);
                push_decimal_i64(&mut out, b.pos.x + offset.x);
                push_image_b(&mut out);
                push_decimal_i64(&mut out, b.pos.y + offset.y);
                push_image_c(&mut out);
                push_decimal_i64(&mut out, b.intrinsic_size.x);
                push_image_d(&mut out);
                push_decimal_i64(&mut out, b.intrinsic_size.y);
                push_image_e(&mut out);
                proof {
                    assert(out@ =~= spec_svg_fragment(*self, offset));
                }
            },
        }
        out
    }
}

/// Appends the points list of a polyline.
fn push_points(out: &mut Vec<u8>, es: &Vec<Element>, offset: Vector2)
    requires
        crate::strokes::elems_all_wf(es@),
        offset.wf(),
    ensures
        final(out)@ == old(out)@ + points_items(es@, offset),
{
    let n = es.len();
    let mut i: usize = 0;
    proof {
        assert(points_items(es@.take(0), offset) =~= Seq::<u8>::empty());
        assert(out@ =~= old(out)@ + points_items(es@.take(0), offset));
    }
    while i < n
        invariant
            0 <= i <= n,
            n == es@.len(),
            crate::strokes::elems_all_wf(es@),
            offset.wf(),
            out@ == old(out)@ + points_items(es@.take(i as int), offset),
        decreases n - i,
    {
        let e = es[i];
        push_decimal_i64(out, e.inputdata.pos.x + offset.x);
        push_comma(out);
        push_decimal_i64(out, e.inputdata.pos.y + offset.y);
        push_space(out);
        proof {
            let t1 = es@.take(i as int + 1);
            assert(t1.drop_last() =~= es@.take(i as int));
            assert(t1.last() == es@[i as int]);
            assert(out@ =~= old(out)@ + points_items(t1, offset));
        }
        i += 1;
    }
    proof {
        assert(es@.take(n as int) =~= es@);
    }
}

/// Appends a whole byte vector.
fn push_all(out: &mut Vec<u8>, v: &Vec<u8>)
    ensures
        final(out)@ == old(out)@ + v@,
{
    let n = v.len();
    let mut i: usize = 0;
    while i < n
        invariant
            0 <= i <= n,
            n == v@.len(),
            out@ == old(out)@ + v@.take(i as int),
        decreases n - i,
    {
        out.push(v[i]);
        proof {
            assert(out@ =~= old(out)@ + v@.take(i as int + 1));
        }
        i += 1;
    }
    proof {
        assert(v@.take(n as int) =~= v@);
    }
}

/// The export root: its view box is exactly the given bounds, width and
/// height are the bounds' extent, and the content sits inside.
pub open spec fn spec_wrap_svg(content: Seq<u8>, bounds: Aabb) -> Seq<u8> {
    lit_svg_open_a() + dec_str_i64(bounds.mins.x as int) + lit_space() + dec_str_i64(
        bounds.mins.y as int,
    ) + lit_space() + dec_str_i64(bounds.maxs.x - bounds.mins.x) + lit_space() + dec_str_i64(
        bounds.maxs.y - bounds.mins.y,
    ) + lit_svg_open_b() + dec_str_i64(bounds.maxs.x - bounds.mins.x) + lit_svg_open_c()
        + dec_str_i64(bounds.maxs.y - bounds.mins.y) + lit_svg_open_d() + content + lit_svg_close()
}

/// Wraps exported fragments with an SVG root whose view box equals the
/// sheet bounds.
pub fn wrap_svg(content: &Vec<u8>, bounds: &Aabb) -> (r: Vec<u8>)
    requires
        -0x1_0000_0000_0000 <= bounds.mins.x <= 0x1_0000_0000_0000,
        -0x1_0000_0000_0000 <= bounds.mins.y <= 0x1_0000_0000_0000,
        -0x1_0000_0000_0000 <= bounds.maxs.x <= 0x1_0000_0000_0000,
        -0x1_0000_0000_0000 <= bounds.maxs.y <= 0x1_0000_0000_0000,
    ensures
        r@ == spec_wrap_svg(content@, *bounds),
{
    let mut out: Vec<u8> = Vec::new();
    let w: i64 = bounds.maxs.x - bounds.mins.x;
    let h: i64 = bounds.maxs.y - bounds.mins.y;
    push_svg_open_a(&mut out);
    push_decimal_i64(&mut out, bounds.mins.x);
    push_space(&mut out);
    push_decimal_i64(&mut out, bounds.mins.y);
    push_space(&mut out);
    push_decimal_i64(&mut out, w);
    push_space(&mut out);
    push_decimal_i64(&mut out, h);
    push_svg_open_b(&mut out);
    push_decimal_i64(&mut out, w);
    push_svg_open_c(&mut out);
    push_decimal_i64(&mut out, h);
    push_svg_open_d(&mut out);
    push_all(&mut out, content);
    push_svg_close(&mut out);
    proof {
        assert(out@ =~= spec_wrap_svg(content@, *bounds));
    }
    out
}

} // verus!
