//! The visual-debug overlay: positions, hitbox tiles and bounds drawn
//! as distinctly colored marks over the scene.

use vstd::prelude::*;

use crate::canvas::Canvas;
use crate::geometry::{Aabb, Vector2};
use crate::input::{muldiv_tz, spec_muldiv_tz, SCALE_MAX, SCALE_MIN};
use crate::pens::PenStyle;
use crate::render::{scale_aabb, spec_scale_aabb, Color, DrawCommand};
use crate::strokes::{strokes_all_wf, StrokeStyle};

verus! {

pub open spec fn color_pos() -> Color {
    Color { r: 255, g: 0, b: 0, a: 255 }
}

pub open spec fn color_pos_alt() -> Color {
    Color { r: 255, g: 255, b: 0, a: 255 }
}

pub open spec fn color_stroke_hitbox() -> Color {
    Color { r: 0, g: 204, b: 51, a: 178 }
}

pub open spec fn color_stroke_bounds() -> Color {
    Color { r: 0, g: 204, b: 204, a: 255 }
}

pub open spec fn color_selector_bounds() -> Color {
    Color { r: 255, g: 0, b: 0, a: 255 }
}

pub open spec fn color_sheet_bounds() -> Color {
    Color { r: 204, g: 0, b: 204, a: 255 }
}

/// The border rectangle marking a box, scaled to the view.
pub open spec fn spec_bounds_cmd(bounds: Aabb, color: Color, scale: int) -> DrawCommand {
    DrawCommand::BorderRect { bounds: spec_scale_aabb(bounds, scale), color }
}

/// The small filled square marking a position, scaled to the view.
pub open spec fn spec_pos_cmd(pos: Vector2, color: Color, scale: int) -> DrawCommand {
    let sx = spec_muldiv_tz(pos.x as int, scale, 1000);
    let sy = spec_muldiv_tz(pos.y as int, scale, 1000);
    DrawCommand::Fill {
        bounds: Aabb {
            mins: Vector2 { x: (sx - 1) as i64, y: (sy - 1) as i64 },
            maxs: Vector2 { x: (sx + 1) as i64, y: (sy + 1) as i64 },
        },
        color,
    }
}

/// Draws a box outline for debugging.
pub fn draw_bounds(bounds: &Aabb, color: Color, scale: u32, snapshot: &mut Vec<DrawCommand>)
    requires
        -crate::input::MULDIV_MAX_IN <= bounds.mins.x <= crate::input::MULDIV_MAX_IN,
        -crate::input::MULDIV_MAX_IN <= bounds.mins.y <= crate::input::MULDIV_MAX_IN,
        -crate::input::MULDIV_MAX_IN <= bounds.maxs.x <= crate::input::MULDIV_MAX_IN,
        -crate::input::MULDIV_MAX_IN <= bounds.maxs.y <= crate::input::MULDIV_MAX_IN,
        SCALE_MIN <= scale <= SCALE_MAX,
    ensures
        final(snapshot)@ == old(snapshot)@ + seq![spec_bounds_cmd(*bounds, color, scale as int)],
{
    let scaled = scale_aabb(bounds, scale);
    snapshot.push(DrawCommand::BorderRect { bounds: scaled, color });
    proof {
        assert(final(snapshot)@ =~= old(snapshot)@ + seq![
            spec_bounds_cmd(*bounds, color, scale as int),
        ]);
    }
}

/// Draws a position marker for debugging.
pub fn draw_pos(pos: Vector2, color: Color, scale: u32, snapshot: &mut Vec<DrawCommand>)
    requires
        -crate::input::MULDIV_MAX_IN <= pos.x <= crate::input::MULDIV_MAX_IN,
        -crate::input::MULDIV_MAX_IN <= pos.y <= crate::input::MULDIV_MAX_IN,
        SCALE_MIN <= scale <= SCALE_MAX,
    ensures
        final(snapshot)@ == old(snapshot)@ + seq![spec_pos_cmd(pos, color, scale as int)],
{
    let sx = muldiv_tz(pos.x, scale, 1000);
    let sy = muldiv_tz(pos.y, scale, 1000);
    proof {
        crate::input::lemma_muldiv_small(pos.x as int, scale as int, sx as int);
        crate::input::lemma_muldiv_small(pos.y as int, scale as int, sy as int);
    }
    snapshot.push(
        DrawCommand::Fill {
            bounds: Aabb {
                mins: Vector2 { x: sx - 1, y: sy - 1 },
                maxs: Vector2 { x: sx + 1, y: sy + 1 },
            },
            color,
        },
    );
    proof {
        assert(final(snapshot)@ =~= old(snapshot)@ + seq![spec_pos_cmd(pos, color, scale as int)]);
    }
}

/// The marks one stroke contributes: a dot per recorded position and a
/// rectangle per hitbox tile for polylines, then the bounds rectangle.
pub open spec fn debug_cmds_stroke(s: StrokeStyle, scale: int) -> Seq<DrawCommand> {
    match s {
        StrokeStyle::MarkerStroke(m) => Seq::new(
            m.elements@.len(),
            |i: int| spec_pos_cmd(m.elements@[i].inputdata.pos, color_pos(), scale),
        ) + Seq::new(
            m.hitbox@.len(),
            |i: int| spec_bounds_cmd(m.hitbox@[i], color_stroke_hitbox(), scale),
        ) + seq![spec_bounds_cmd(m.bounds, color_stroke_bounds(), scale)],
        StrokeStyle::BrushStroke(b) => Seq::new(
            b.elements@.len(),
            |i: int| spec_pos_cmd(b.elements@[i].inputdata.pos, color_pos(), scale),
        ) + Seq::new(
            b.hitbox@.len(),
            |i: int| spec_bounds_cmd(b.hitbox@[i], color_stroke_hitbox(), scale),
        ) + seq![spec_bounds_cmd(b.bounds, color_stroke_bounds(), scale)],
        StrokeStyle::VectorImage(v) => seq![
            spec_bounds_cmd(v.bounds, color_stroke_bounds(), scale),
        ],
        StrokeStyle::BitmapImage(b) => seq![
            spec_bounds_cmd(b.bounds, color_stroke_bounds(), scale),
        ],
    }
}

pub open spec fn debug_cmds_strokes(ss: Seq<StrokeStyle>, scale: int) -> Seq<DrawCommand>
    decreases ss.len(),
{
    if ss.len() == 0 {
        Seq::empty()
    } else {
        debug_cmds_strokes(ss.drop_last(), scale) + debug_cmds_stroke(ss.last(), scale)
    }
}

/// The positions and tiles of a well-formed polyline, as marks.
fn draw_polyline_debug(
    elements: &Vec<crate::strokes::Element>,
    hitbox: &Vec<Aabb>,
    bounds: &Aabb,
    scale: u32,
    snapshot: &mut Vec<DrawCommand>,
)
    requires
        crate::strokes::polyline_wf(elements@, *bounds, hitbox@),
        SCALE_MIN <= scale <= SCALE_MAX,
    ensures
        final(snapshot)@ == old(snapshot)@ + Seq::new(
            elements@.len(),
            |i: int| spec_pos_cmd(elements@[i].inputdata.pos, color_pos(), scale as int),
        ) + Seq::new(
            hitbox@.len(),
            |i: int| spec_bounds_cmd(hitbox@[i], color_stroke_hitbox(), scale as int),
        ) + seq![spec_bounds_cmd(*bounds, color_stroke_bounds(), scale as int)],
{
    let n = elements.len();
    let mut i: usize = 0;
    while i < n
        invariant
            0 <= i <= n,
            n == elements@.len(),
            crate::strokes::polyline_wf(elements@, *bounds, hitbox@),
            SCALE_MIN <= scale <= SCALE_MAX,
            snapshot@ == old(snapshot)@ + Seq::new(i as nat, |k: int|
                spec_pos_cmd(elements@[k].inputdata.pos, color_pos(), scale as int)),
        decreases n - i,
    {
        let p = elements[i].inputdata.pos;
        draw_pos(p, Color { r: 255, g: 0, b: 0, a: 255 }, scale, snapshot);
        proof {
            assert(snapshot@ =~= old(snapshot)@ + Seq::new(i as nat + 1, |k: int|
                spec_pos_cmd(elements@[k].inputdata.pos, color_pos(), scale as int)));
        }
        i += 1;
    }
    let ghost after_pos = snapshot@;
    let m = hitbox.len();
    let mut j: usize = 0;
    while j < m
        invariant
            0 <= j <= m,
            m == hitbox@.len(),
            crate::strokes::polyline_wf(elements@, *bounds, hitbox@),
            SCALE_MIN <= scale <= SCALE_MAX,
            snapshot@ == after_pos + Seq::new(j as nat, |k: int|
                spec_bounds_cmd(hitbox@[k], color_stroke_hitbox(), scale as int)),
        decreases m - j,
    {
        let tile = hitbox[j];
        proof {
            crate::strokes::lemma_polyline_bounds_cover(elements@, *bounds, hitbox@);
            assert(bounds.spec_contains(hitbox@[j as int]));
        }
        draw_bounds(&tile, Color { r: 0, g: 204, b: 51, a: 178 }, scale, snapshot);
        proof {
            assert(snapshot@ =~= after_pos + Seq::new(j as nat + 1, |k: int|
                spec_bounds_cmd(hitbox@[k], color_stroke_hitbox(), scale as int)));
        }
        j += 1;
    }
    draw_bounds(bounds, Color { r: 0, g: 204, b: 204, a: 255 }, scale, snapshot);
    proof {
        assert(snapshot@ =~= old(snapshot)@ + Seq::new(elements@.len(), |i: int|
            spec_pos_cmd(elements@[i].inputdata.pos, color_pos(), scale as int)) + Seq::new(
            hitbox@.len(),
            |i: int| spec_bounds_cmd(hitbox@[i], color_stroke_hitbox(), scale as int),
        ) + seq![spec_bounds_cmd(*bounds, color_stroke_bounds(), scale as int)]);
    }
}

/// The overlay's pen-preview marks.
pub open spec fn debug_cmds_pen(c: Canvas, scale: int) -> Seq<DrawCommand> {
    if c.current_pen == PenStyle::Eraser && c.pens.eraser.shown {
        seq![spec_pos_cmd(c.pens.eraser.current_input.pos, color_pos_alt(), scale)]
    } else if c.current_pen == PenStyle::Selector && c.pens.selector.shown
        && c.pens.selector.bounds is Some {
        seq![spec_bounds_cmd(c.pens.selector.bounds->Some_0, color_selector_bounds(), scale)]
    } else {
        Seq::empty()
    }
}

/// The sheet extent the overlay outlines.
pub open spec fn debug_sheet_box(c: Canvas) -> Aabb {
    Aabb {
        mins: Vector2 { x: 0, y: 0 },
        maxs: Vector2 { x: c.sheet.width as i64, y: c.sheet.height as i64 },
    }
}

/// Everything the overlay draws when visual debugging is on.
pub open spec fn spec_debug_cmds(c: Canvas, scale: int) -> Seq<DrawCommand> {
    if c.visual_debug {
        debug_cmds_pen(c, scale) + seq![
            spec_bounds_cmd(debug_sheet_box(c), color_sheet_bounds(), scale),
        ] + debug_cmds_strokes(c.sheet.strokes@, scale)
    } else {
        Seq::empty()
    }
}

impl Canvas {
    /// Draws the visual-debug overlay: the active pen's preview, the
    /// sheet extent, and every stroke's positions, tiles and bounds.
    pub fn draw_debug(&self, snapshot: &mut Vec<DrawCommand>)
        requires
            self.wf(),
        ensures
            final(snapshot)@ == old(snapshot)@ + spec_debug_cmds(*self, self.scalefactor as int),
    {
        if !self.visual_debug {
            proof {
                assert(snapshot@ =~= old(snapshot)@ + spec_debug_cmds(
                    *self,
                    self.scalefactor as int,
                ));
            }
            return ;
        }
        let scale = self.scalefactor;
        match self.current_pen {
            PenStyle::Eraser => {
                if self.pens.eraser.shown {
                    draw_pos(
                        self.pens.eraser.current_input.pos,
                        Color { r: 255, g: 255, b: 0, a: 255 },
                        scale,
                        snapshot,
                    );
                }
            },
            PenStyle::Selector => {
                if self.pens.selector.shown {
                    match &self.pens.selector.bounds {
                        Option::Some(b) => {
                            proof {
                                if self.pens.selector.path@.len() > 0 {
                                    crate::pens::lemma_path_bounds_wf(self.pens.selector.path@);
                                }
                            }
                            draw_bounds(b, Color { r: 255, g: 0, b: 0, a: 255 }, scale, snapshot);
                        },
                        Option::None => {},
                    }
                }
            },
            _ => {},
        }
        let ghost after_pen = snapshot@;
        proof {
            assert(after_pen =~= old(snapshot)@ + debug_cmds_pen(*self, scale as int));
        }
        let sheet_box = Aabb {
            mins: Vector2 { x: 0, y: 0 },
            maxs: Vector2 { x: self.sheet.width as i64, y: self.sheet.height as i64 },
        };
        draw_bounds(&sheet_box, Color { r: 204, g: 0, b: 204, a: 255 }, scale, snapshot);
        let ghost before_strokes = snapshot@;
        let n = self.sheet.strokes.len();
        let mut i: usize = 0;
        proof {
            assert(debug_cmds_strokes(self.sheet.strokes@.take(0), scale as int)
                =~= Seq::<DrawCommand>::empty());
            assert(snapshot@ =~= before_strokes + debug_cmds_strokes(
                self.sheet.strokes@.take(0),
                scale as int,
            ));
        }
        while i < n
            invariant
                0 <= i <= n,
                n == self.sheet.strokes@.len(),
                strokes_all_wf(self.sheet.strokes@),
                SCALE_MIN <= scale <= SCALE_MAX,
                snapshot@ == before_strokes + debug_cmds_strokes(
                    self.sheet.strokes@.take(i as int),
                    scale as int,
                ),
            decreases n - i,
        {
            proof {
                assert(self.sheet.strokes@[i as int].wf());
            }
            match &self.sheet.strokes[i] {
                StrokeStyle::MarkerStroke(m) => {
                    draw_polyline_debug(&m.elements, &m.hitbox, &m.bounds, scale, snapshot);
                },
                StrokeStyle::BrushStroke(b) => {
                    draw_polyline_debug(&b.elements, &b.hitbox, &b.bounds, scale, snapshot);
                },
                StrokeStyle::VectorImage(v) => {
                    draw_bounds(&v.bounds, Color { r: 0, g: 204, b: 204, a: 255 }, scale, snapshot);
                },
                StrokeStyle::BitmapImage(b) => {
                    draw_bounds(&b.bounds, Color { r: 0, g: 204, b: 204, a: 255 }, scale, snapshot);
                },
            }
            proof {
                let t1 = self.sheet.strokes@.take(i as int + 1);
                assert(t1.drop_last() =~= self.sheet.strokes@.take(i as int));
                assert(t1.last() == self.sheet.strokes@[i as int]);
                assert(snapshot@ =~= before_strokes + debug_cmds_strokes(t1, scale as int));
            }
            i += 1;
        }
        proof {
            assert(self.sheet.strokes@.take(n as int) =~= self.sheet.strokes@);
            assert(snapshot@ =~= old(snapshot)@ + spec_debug_cmds(*self, scale as int));
        }
    }
}

/// Everything one repaint of the canvas appends: the sheet, then the
/// selection frame, then the active pen's preview, then the debug
/// overlay when it is on.
pub open spec fn spec_canvas_draw_cmds(c: Canvas) -> Seq<DrawCommand> {
    c.sheet.spec_draw_cmds(c.scalefactor as int) + c.sheet.selection.spec_draw_cmds(
        c.scalefactor as int,
    ) + c.pens.spec_draw_cmds(c.current_pen, c.scalefactor as int) + spec_debug_cmds(
        c,
        c.scalefactor as int,
    )
}

impl Canvas {
    /// Repaints the whole canvas in the order the rendering contract
    /// fixes.
    pub fn draw(&self, snapshot: &mut Vec<DrawCommand>)
        requires
            self.wf(),
            self.sheet.selection.bounds matches Option::Some(b) ==> b.mins.wf() && b.maxs.wf(),
        ensures
            final(snapshot)@ == old(snapshot)@ + spec_canvas_draw_cmds(*self),
    {
        self.sheet.draw(self.scalefactor, snapshot);
        self.sheet.selection.draw(self.scalefactor, snapshot);
        self.pens.draw_pens(self.current_pen, snapshot, self.scalefactor);
        self.draw_debug(snapshot);
        proof {
            assert(final(snapshot)@ =~= old(snapshot)@ + spec_canvas_draw_cmds(*self));
        }
    }
}

} // verus!
