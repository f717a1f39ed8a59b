//! The selection: an ordered sublist of strokes detached from the sheet,
//! and the rectangle / polygon rules that pick strokes from a selector
//! path.

use vstd::prelude::*;

use crate::geometry::{coord_in_range, Aabb, Vector2, MAX_COORD};
use crate::input::{div_tz, lemma_div_bounds, InputSample, SCALE_MAX, SCALE_MIN};
use crate::pens::{path_bounds, Selector, SelectorStyle};
use crate::render::{Color, DrawCommand};
use crate::strokes::StrokeStyle;

verus! {

/// Union of the member strokes' bounds, oldest first.
pub open spec fn strokes_bounds_opt(ss: Seq<StrokeStyle>) -> Option<Aabb>
    decreases ss.len(),
{
    if ss.len() == 0 {
        Option::None
    } else {
        match strokes_bounds_opt(ss.drop_last()) {
            Option::None => Option::Some(ss.last().spec_bounds()),
            Option::Some(b) => Option::Some(b.spec_merge(ss.last().spec_bounds())),
        }
    }
}

/// Computes the union of the strokes' bounds.
pub fn strokes_bounds(ss: &Vec<StrokeStyle>) -> (r: Option<Aabb>)
    ensures
        r == strokes_bounds_opt(ss@),
{
    let n = ss.len();
    let mut r: Option<Aabb> = Option::None;
    let mut i: usize = 0;
    proof {
        assert(ss@.take(0) =~= Seq::<StrokeStyle>::empty());
    }
    while i < n
        invariant
            0 <= i <= n,
            n == ss@.len(),
            r == strokes_bounds_opt(ss@.take(i as int)),
        decreases n - i,
    {
        let b = ss[i].bounds();
        r = match r {
            Option::None => Option::Some(b),
            Option::Some(acc) => Option::Some(acc.merge(&b)),
        };
        proof {
            assert(ss@.take(i as int + 1).drop_last() =~= ss@.take(i as int));
        }
        i += 1;
    }
    proof {
        assert(ss@.take(n as int) =~= ss@);
    }
    r
}

/// Whether the directed edge from `a` to `b` crosses the horizontal ray
/// running right from `p`, exact over the integers.
pub open spec fn edge_crosses(a: Vector2, b: Vector2, p: Vector2) -> bool {
    if (a.y > p.y) == (b.y > p.y) {
        false
    } else {
        let lhs = (p.x - a.x) * (b.y - a.y);
        let rhs = (b.x - a.x) * (p.y - a.y);
        if b.y > a.y {
            lhs < rhs
        } else {
            lhs > rhs
        }
    }
}

/// How many of the first `n` edges of the closed path cross the ray
/// from `p`; the edge after the last vertex closes back to the first.
pub open spec fn cross_count(path: Seq<InputSample>, p: Vector2, n: int) -> int
    decreases n,
{
    if n <= 0 {
        0
    } else {
        cross_count(path, p, n - 1) + (if edge_crosses(
            path[n - 1].pos,
            path[if n == path.len() { 0 } else { n }].pos,
            p,
        ) {
            1int
        } else {
            0int
        })
    }
}

/// Ray-casting parity: a point is inside the closed selector path when
/// an odd number of its edges cross the ray.
pub open spec fn spec_point_in_polygon(path: Seq<InputSample>, p: Vector2) -> bool {
    cross_count(path, p, path.len() as int) % 2 == 1
}

/// The midpoint of a stroke's bounds, rounded towards zero.
pub open spec fn spec_centroid(b: Aabb) -> Vector2 {
    Vector2 {
        x: div_tz(b.mins.x + b.maxs.x, 2) as i64,
        y: div_tz(b.mins.y + b.maxs.y, 2) as i64,
    }
}

/// The rule used to pick strokes: with the rectangle style a stroke is picked
/// when its bounds lie fully inside the box spanned by the path's
/// endpoints; with the polygon style when its bounds' centroid lies
/// inside the closed path and its bounds meet the path's box.
pub open spec fn spec_selected(style: SelectorStyle, path: Seq<InputSample>, s: StrokeStyle) -> bool {
    match style {
        SelectorStyle::Rectangle => path.len() >= 1 && Aabb::spec_from_corners(
            path[0].pos,
            path[path.len() - 1].pos,
        ).spec_contains(s.spec_bounds()),
        SelectorStyle::Polygon => path.len() >= 3 && spec_point_in_polygon(
            path,
            spec_centroid(s.spec_bounds()),
        ) && s.spec_bounds().spec_intersects(path_bounds(path)),
    }
}

/// The predicate picking selected strokes, as a value for `filter`.
pub open spec fn sel_pred(style: SelectorStyle, path: Seq<InputSample>) -> spec_fn(
    StrokeStyle,
) -> bool {
    |s: StrokeStyle| spec_selected(style, path, s)
}

/// The predicate keeping unselected strokes, as a value for `filter`.
pub open spec fn unsel_pred(style: SelectorStyle, path: Seq<InputSample>) -> spec_fn(
    StrokeStyle,
) -> bool {
    |s: StrokeStyle| !spec_selected(style, path, s)
}

/// `a * b` for factors small enough that the product fits.
fn prod(a: i64, b: i64) -> (r: i64)
    requires
        -0x8000_0000 <= a <= 0x8000_0000,
        -0x8000_0000 <= b <= 0x8000_0000,
    ensures
        r == a * b,
{
    proof {
        assert(-0x4000_0000_0000_0000 <= a * b <= 0x4000_0000_0000_0000) by (nonlinear_arith)
            requires
                -0x8000_0000 <= a <= 0x8000_0000,
                -0x8000_0000 <= b <= 0x8000_0000,
        ;
    }
    a * b
}

/// Midpoint of two in-range coordinates, rounded towards zero.
fn midpoint(a: i64, b: i64) -> (r: i64)
    requires
        coord_in_range(a),
        coord_in_range(b),
    ensures
        r == div_tz(a + b, 2),
        coord_in_range(r),
{
    let s: i64 = a + b;
    if s >= 0 {
        let q: u64 = (s as u64) / 2;
        proof {
            lemma_div_bounds(s as int, 2);
        }
        q as i64
    } else {
        let q: u64 = ((-s) as u64) / 2;
        proof {
            lemma_div_bounds(-s as int, 2);
        }
        -(q as i64)
    }
}

/// Exact integer ray casting against the closed selector path.
fn point_in_polygon(path: &Vec<InputSample>, p: Vector2) -> (r: bool)
    requires
        forall|i: int| 0 <= i < path@.len() ==> (#[trigger] path@[i]).pos.wf(),
        p.wf(),
    ensures
        r == spec_point_in_polygon(path@, p),
{
    let n = path.len();
    let mut inside = false;
    let mut i: usize = 0;
    while i < n
        invariant
            0 <= i <= n,
            n == path@.len(),
            forall|j: int| 0 <= j < n ==> (#[trigger] path@[j]).pos.wf(),
            p.wf(),
            inside == (cross_count(path@, p, i as int) % 2 == 1),
        decreases n - i,
    {
        let a = path[i].pos;
        let b = if i + 1 == n {
            path[0].pos
        } else {
            path[i + 1].pos
        };
        let crosses: bool = if (a.y > p.y) == (b.y > p.y) {
            false
        } else {
            let lhs = prod(p.x - a.x, b.y - a.y);
            let rhs = prod(b.x - a.x, p.y - a.y);
            if b.y > a.y {
                lhs < rhs
            } else {
                lhs > rhs
            }
        };
        if crosses {
            inside = !inside;
        }
        i += 1;
    }
    inside
}

/// Whether the selector's current path picks this stroke.
pub fn stroke_selected(selector: &Selector, s: &StrokeStyle) -> (r: bool)
    requires
        selector.wf(),
        s.wf(),
    ensures
        r == spec_selected(selector.style, selector.path@, *s),
{
    let b = s.bounds();
    match selector.style {
        SelectorStyle::Rectangle => {
            let n = selector.path.len();
            if n >= 1 {
                let rect = Aabb::from_corners(
                    selector.path[0].pos,
                    selector.path[n - 1].pos,
                );
                rect.contains(&b)
            } else {
                false
            }
        },
        SelectorStyle::Polygon => {
            let n = selector.path.len();
            if n >= 3 {
                proof {
                    crate::strokes::lemma_stroke_bounds_wf(*s);
                }
                let c = Vector2 {
                    x: midpoint(b.mins.x, b.maxs.x),
                    y: midpoint(b.mins.y, b.maxs.y),
                };
                if point_in_polygon(&selector.path, c) {
                    let pb = match &selector.bounds {
                        Option::Some(pb) => *pb,
                        Option::None => Aabb::from_point(Vector2 { x: 0, y: 0 }),
                    };
                    b.intersects(&pb)
                } else {
                    false
                }
            } else {
                false
            }
        },
    }
}

/// The ordered sublist of strokes currently detached from the sheet.
pub struct Selection {
    pub strokes: Vec<StrokeStyle>,
    pub bounds: Option<Aabb>,
    pub shown: bool,
}

impl Selection {
    pub fn new() -> (r: Selection)
        ensures
            r.strokes@.len() == 0,
            r.bounds is None,
            r.shown == false,
    {
        Selection { strokes: Vec::new(), bounds: Option::None, shown: false }
    }

    pub fn shown(&self) -> (r: bool)
        ensures
            r == self.shown,
    {
        self.shown
    }

    pub fn set_shown(&mut self, shown: bool)
        ensures
            final(self).shown == shown,
            final(self).strokes == old(self).strokes,
            final(self).bounds == old(self).bounds,
    {
        self.shown = shown;
    }

    /// Appends one stroke and grows the aggregate bounds with it.
    pub fn push_to_selection(&mut self, stroke: StrokeStyle)
        ensures
            final(self).strokes@ == old(self).strokes@.push(stroke),
            final(self).bounds == (match old(self).bounds {
                Option::None => Option::Some(stroke.spec_bounds()),
                Option::Some(b) => Option::Some(b.spec_merge(stroke.spec_bounds())),
            }),
            final(self).shown == old(self).shown,
    {
        let b = stroke.bounds();
        self.bounds = match &self.bounds {
            Option::None => Option::Some(b),
            Option::Some(acc) => Option::Some(acc.merge(&b)),
        };
        self.strokes.push(stroke);
    }

    /// Detaches and returns all selected strokes, in order.
    pub fn remove_strokes(&mut self) -> (r: Vec<StrokeStyle>)
        ensures
            r@ == old(self).strokes@,
            final(self).strokes@.len() == 0,
            final(self).bounds is None,
            final(self).shown == old(self).shown,
    {
        let mut out: Vec<StrokeStyle> = Vec::new();
        core_swap_strokes(&mut self.strokes, &mut out);
        self.bounds = Option::None;
        out
    }

    /// Moves every stroke the selector's path picks from `strokes` into
    /// the selection, preserving relative order on both sides, and
    /// recomputes the aggregate bounds.
    pub fn update_selection(&mut self, selector: &Selector, strokes: &mut Vec<StrokeStyle>)
        requires
            selector.wf(),
            crate::strokes::strokes_all_wf(old(strokes)@),
        ensures
            final(strokes)@ == old(strokes)@.filter(
                unsel_pred(selector.style, selector.path@),
            ),
            final(self).strokes@ == old(self).strokes@ + old(strokes)@.filter(
                sel_pred(selector.style, selector.path@),
            ),
            final(self).bounds == strokes_bounds_opt(final(self).strokes@),
            final(self).shown == old(self).shown,
    {
        let ghost sel = sel_pred(selector.style, selector.path@);
        let ghost unsel = unsel_pred(selector.style, selector.path@);
        let mut kept: Vec<StrokeStyle> = Vec::new();
        let ghost orig = strokes@;
        let ghost mut j: int = 0;
        let ghost n = orig.len();
        proof {
            assert(orig.take(0) =~= Seq::<StrokeStyle>::empty());
            reveal(Seq::filter);
        }
        while strokes.len() > 0
            invariant
                0 <= j <= n,
                n == orig.len(),
                strokes@ == orig.skip(j),
                crate::strokes::strokes_all_wf(orig),
                selector.wf(),
                sel == sel_pred(selector.style, selector.path@),
                unsel == unsel_pred(selector.style, selector.path@),
                kept@ == orig.take(j).filter(unsel),
                self.strokes@ == old(self).strokes@ + orig.take(j).filter(sel),
                self.shown == old(self).shown,
            decreases strokes@.len(),
        {
            let s = strokes.remove(0);
            proof {
                assert(orig.skip(j)[0] == orig[j]);
                assert(strokes@ =~= orig.skip(j + 1));
                assert(0 <= j < orig.len());
                assert(orig[j].wf());
            }
            let is_sel = stroke_selected(selector, &s);
            if is_sel {
                self.strokes.push(s);
            } else {
                kept.push(s);
            }
            proof {
                let t1 = orig.take(j + 1);
                assert(t1.drop_last() =~= orig.take(j));
                assert(t1.last() == orig[j]);
                reveal(Seq::filter);
                assert(t1.filter(unsel) == if unsel(orig[j]) {
                    orig.take(j).filter(unsel).push(orig[j])
                } else {
                    orig.take(j).filter(unsel)
                });
                assert(t1.filter(sel) == if sel(orig[j]) {
                    orig.take(j).filter(sel).push(orig[j])
                } else {
                    orig.take(j).filter(sel)
                });
                j = j + 1;
            }
        }
        proof {
            assert(j == n);
            assert(orig.take(n as int) =~= orig);
            assert(strokes@ =~= orig.skip(n as int));
        }
        core_swap_strokes(strokes, &mut kept);
        let b = strokes_bounds(&self.strokes);
        self.bounds = b;
    }

    /// Draws the selection frame when it is shown.
    pub fn draw(&self, scale: u32, snapshot: &mut Vec<DrawCommand>)
        requires
            SCALE_MIN <= scale <= SCALE_MAX,
            self.bounds matches Option::Some(b) ==> b.mins.wf() && b.maxs.wf(),
        ensures
            final(snapshot)@ == old(snapshot)@ + self.spec_draw_cmds(scale as int),
    {
        match &self.bounds {
            Option::Some(b) => {
                if self.shown {
                    let scaled = crate::render::scale_aabb(b, scale);
                    snapshot.push(
                        DrawCommand::BorderRect {
                            bounds: scaled,
                            color: Color { r: 0, g: 0, b: 255, a: 255 },
                        },
                    );
                    proof {
                        assert(snapshot@ =~= old(snapshot)@ + self.spec_draw_cmds(scale as int));
                    }
                    return ;
                }
            },
            Option::None => {},
        }
        proof {
            assert(snapshot@ =~= old(snapshot)@ + self.spec_draw_cmds(scale as int));
        }
    }

    /// The commands the selection draws: its frame, when shown.
    pub open spec fn spec_draw_cmds(self, scale: int) -> Seq<DrawCommand> {
        match self.bounds {
            Option::Some(b) => if self.shown {
                seq![
                    DrawCommand::BorderRect {
                        bounds: crate::render::spec_scale_aabb(b, scale),
                        color: Color { r: 0, g: 0, b: 255, a: 255 },
                    },
                ]
            } else {
                Seq::empty()
            },
            Option::None => Seq::empty(),
        }
    }
}

/// Swaps the contents of two stroke lists.
fn core_swap_strokes(a: &mut Vec<StrokeStyle>, b: &mut Vec<StrokeStyle>)
    ensures
        final(a)@ == old(b)@,
        final(b)@ == old(a)@,
{
    core::mem::swap(a, b);
}

} // verus!
