//! Pen configuration: marker, brush, eraser and selector state.

use vstd::prelude::*;

use crate::geometry::Aabb;
use crate::input::InputSample;
use crate::render::{Color, RenderNode};

verus! {

/// Which pen the canvas currently draws with.
#[derive(Clone, Copy, PartialEq, Eq, Structural, Debug)]
pub enum PenStyle {
    Marker,
    Brush,
    Eraser,
    Selector,
    Unknown,
}

/// Largest pen width, in pixels.
pub const PEN_WIDTH_MAX: u32 = 1000;

#[derive(Clone, Copy, PartialEq, Eq, Structural, Debug)]
pub struct Marker {
    pub width: u32,
    pub color: Color,
}

impl Marker {
    pub open spec fn wf(self) -> bool {
        0 < self.width <= PEN_WIDTH_MAX
    }

    pub fn default() -> (r: Marker)
        ensures
            r == (Marker { width: 4u32, color: Color { r: 0, g: 0, b: 0, a: 255 } }),
            r.wf(),
    {
        Marker { width: 4, color: Color { r: 0, g: 0, b: 0, a: 255 } }
    }
}

#[derive(Clone, Copy, PartialEq, Eq, Structural, Debug)]
pub struct Brush {
    pub width: u32,
    pub color: Color,
    /// Identifier of the brush template, resolved against the template
    /// registry when a sheet is decoded.
    pub template_id: u64,
}

impl Brush {
    pub open spec fn wf(self) -> bool {
        0 < self.width <= PEN_WIDTH_MAX
    }

    pub fn default() -> (r: Brush)
        ensures
            r == (Brush { width: 6u32, color: Color { r: 0, g: 0, b: 0, a: 255 }, template_id: 0 }),
            r.wf(),
    {
        Brush { width: 6, color: Color { r: 0, g: 0, b: 0, a: 255 }, template_id: 0 }
    }
}

/// Coordinates an eraser can stand at while staying safe for box
/// arithmetic; mapped input always lies well inside this.
pub const ERASER_POS_MAX: i64 = 0x1_0000_0000_0000;

#[derive(Clone, Copy, PartialEq, Eq, Structural, Debug)]
pub struct Eraser {
    pub width: u32,
    pub current_input: InputSample,
    pub shown: bool,
}

impl Eraser {
    pub open spec fn wf(self) -> bool {
        &&& 0 < self.width <= PEN_WIDTH_MAX
        &&& -ERASER_POS_MAX <= self.current_input.pos.x <= ERASER_POS_MAX
        &&& -ERASER_POS_MAX <= self.current_input.pos.y <= ERASER_POS_MAX
    }

    pub fn default() -> (r: Eraser)
        ensures
            r.width == 30u32,
            r.shown == false,
            r.wf(),
    {
        Eraser {
            width: 30,
            current_input: InputSample::new(crate::geometry::Vector2 { x: 0, y: 0 }, 500),
            shown: false,
        }
    }

    pub fn shown(&self) -> (r: bool)
        ensures
            r == self.shown,
    {
        self.shown
    }

    pub fn set_shown(&mut self, shown: bool)
        ensures
            *final(self) == (Eraser { shown, ..*old(self) }),
    {
        self.shown = shown;
    }
}

#[derive(Clone, Copy, PartialEq, Eq, Structural, Debug)]
pub enum SelectorStyle {
    Polygon,
    Rectangle,
}

pub struct Selector {
    /// The polyline the user draws to outline a selection.
    pub path: Vec<InputSample>,
    /// Bounding box of the path, kept while the path is non-empty.
    pub bounds: Option<Aabb>,
    pub shown: bool,
    pub style: SelectorStyle,
    pub rendernode: RenderNode,
}

/// Bounding box of a non-empty selector path.
pub open spec fn path_bounds(path: Seq<InputSample>) -> Aabb
    recommends
        path.len() > 0,
    decreases path.len(),
{
    if path.len() <= 1 {
        Aabb { mins: path[0].pos, maxs: path[0].pos }
    } else {
        path_bounds(path.drop_last()).spec_merge(
            Aabb { mins: path.last().pos, maxs: path.last().pos },
        )
    }
}

/// The bounds of a path of in-range positions stay in range.
pub proof fn lemma_path_bounds_wf(path: Seq<InputSample>)
    requires
        path.len() >= 1,
        forall|i: int| 0 <= i < path.len() ==> (#[trigger] path[i]).pos.wf(),
    ensures
        path_bounds(path).wf(),
    decreases path.len(),
{
    if path.len() > 1 {
        assert(forall|i: int|
            0 <= i < path.len() - 1 ==> path.drop_last()[i] == #[trigger] path[i]);
        lemma_path_bounds_wf(path.drop_last());
    }
}

impl Selector {
    /// The cached bounds always agree with the path.
    pub open spec fn wf(self) -> bool {
        &&& (forall|i: int| 0 <= i < self.path@.len() ==> #[trigger] self.path@[i].pos.wf())
        &&& self.bounds == (if self.path@.len() == 0 {
            Option::<Aabb>::None
        } else {
            Option::Some(path_bounds(self.path@))
        })
    }

    pub fn default() -> (r: Selector)
        ensures
            r.path@.len() == 0,
            r.bounds is None,
            r.shown == false,
            r.style == SelectorStyle::Polygon,
            r.rendernode == RenderNode::spec_empty(),
            r.wf(),
    {
        Selector {
            path: Vec::new(),
            bounds: Option::None,
            shown: false,
            style: SelectorStyle::Polygon,
            rendernode: RenderNode::empty(),
        }
    }

    pub fn shown(&self) -> (r: bool)
        ensures
            r == self.shown,
    {
        self.shown
    }

    pub fn set_shown(&mut self, shown: bool)
        ensures
            final(self).shown == shown,
            final(self).path == old(self).path,
            final(self).bounds == old(self).bounds,
            final(self).style == old(self).style,
            final(self).rendernode == old(self).rendernode,
    {
        self.shown = shown;
    }

    pub fn set_style(&mut self, style: SelectorStyle)
        ensures
            final(self).style == style,
            final(self).path == old(self).path,
            final(self).bounds == old(self).bounds,
            final(self).shown == old(self).shown,
            final(self).rendernode == old(self).rendernode,
    {
        self.style = style;
    }

    /// Starts a fresh selection path at one sample.
    pub fn new_path(&mut self, inputdata: InputSample)
        requires
            inputdata.pos.wf(),
        ensures
            final(self).path@ == seq![inputdata],
            final(self).bounds == Option::Some(
                Aabb { mins: inputdata.pos, maxs: inputdata.pos },
            ),
            final(self).shown == old(self).shown,
            final(self).style == old(self).style,
            final(self).rendernode == old(self).rendernode,
            final(self).wf(),
    {
        let mut path: Vec<InputSample> = Vec::new();
        path.push(inputdata);
        self.path = path;
        self.bounds = Option::Some(Aabb::from_point(inputdata.pos));
        proof {
            assert(self.path@ =~= seq![inputdata]);
            assert(path_bounds(self.path@) == Aabb {
                mins: inputdata.pos,
                maxs: inputdata.pos,
            });
        }
    }

    /// Appends a sample to the path and grows the cached bounds with it.
    pub fn push_elem(&mut self, inputdata: InputSample)
        requires
            old(self).wf(),
            inputdata.pos.wf(),
        ensures
            final(self).path@ == old(self).path@.push(inputdata),
            final(self).shown == old(self).shown,
            final(self).style == old(self).style,
            final(self).rendernode == old(self).rendernode,
            final(self).wf(),
    {
        let point_box = Aabb::from_point(inputdata.pos);
        let new_bounds = match &self.bounds {
            Option::Some(b) => b.merge(&point_box),
            Option::None => point_box,
        };
        self.path.push(inputdata);
        self.bounds = Option::Some(new_bounds);
        proof {
            assert(self.path@.drop_last() =~= old(self).path@);
            if old(self).path@.len() > 0 {
                assert(path_bounds(self.path@) == path_bounds(old(self).path@).spec_merge(
                    point_box,
                ));
            }
        }
    }

    /// Drops the path and its bounds.
    pub fn clear_path(&mut self)
        ensures
            final(self).path@.len() == 0,
            final(self).bounds is None,
            final(self).shown == old(self).shown,
            final(self).style == old(self).style,
            final(self).rendernode == old(self).rendernode,
            final(self).wf(),
    {
        self.path = Vec::new();
        self.bounds = Option::None;
    }

    /// Refreshes the cached render node for the given zoom factor.
    pub fn update_rendernode(&mut self, scale: u32)
        ensures
            final(self).rendernode == (RenderNode {
                scale,
                bounds: match old(self).bounds {
                    Option::Some(b) => b,
                    Option::None => RenderNode::spec_empty().bounds,
                },
            }),
            final(self).path == old(self).path,
            final(self).bounds == old(self).bounds,
            final(self).shown == old(self).shown,
            final(self).style == old(self).style,
    {
        let bounds = match &self.bounds {
            Option::Some(b) => *b,
            Option::None => RenderNode::empty().bounds,
        };
        self.rendernode = RenderNode { scale, bounds };
    }
}

impl Eraser {
    /// The square box the eraser covers at its current position.
    pub open spec fn spec_box(self) -> Aabb {
        let w2 = (self.width as int) / 2;
        Aabb {
            mins: crate::geometry::Vector2 {
                x: (self.current_input.pos.x - w2) as i64,
                y: (self.current_input.pos.y - w2) as i64,
            },
            maxs: crate::geometry::Vector2 {
                x: (self.current_input.pos.x + w2) as i64,
                y: (self.current_input.pos.y + w2) as i64,
            },
        }
    }
}

/// The aggregate of all configured pens.
pub struct Pens {
    pub marker: Marker,
    pub brush: Brush,
    pub eraser: Eraser,
    pub selector: Selector,
}

impl Pens {
    pub open spec fn wf(self) -> bool {
        &&& self.marker.wf()
        &&& self.brush.wf()
        &&& self.eraser.wf()
        &&& self.selector.wf()
    }

    pub fn default() -> (r: Pens)
        ensures
            r.marker == (Marker { width: 4u32, color: Color { r: 0, g: 0, b: 0, a: 255 } }),
            r.brush.template_id == 0,
            r.eraser.shown == false,
            r.selector.path@.len() == 0,
            r.wf(),
    {
        Pens {
            marker: Marker::default(),
            brush: Brush::default(),
            eraser: Eraser::default(),
            selector: Selector::default(),
        }
    }

    /// The preview the active pen draws over the scene: the eraser's
    /// covered box, or the selector's current frame.
    pub open spec fn spec_draw_cmds(self, current_pen: PenStyle, scale: int) -> Seq<
        crate::render::DrawCommand,
    > {
        if current_pen == PenStyle::Eraser && self.eraser.shown {
            seq![
                crate::render::DrawCommand::Fill {
                    bounds: crate::render::spec_scale_aabb(self.eraser.spec_box(), scale),
                    color: Color { r: 120, g: 120, b: 120, a: 120 },
                },
            ]
        } else if current_pen == PenStyle::Selector && self.selector.shown
            && self.selector.bounds is Some {
            seq![
                crate::render::DrawCommand::BorderRect {
                    bounds: crate::render::spec_scale_aabb(self.selector.bounds->Some_0, scale),
                    color: Color { r: 0, g: 0, b: 255, a: 255 },
                },
            ]
        } else {
            Seq::empty()
        }
    }

    /// Draws the active pen's preview.
    pub fn draw_pens(
        &self,
        current_pen: PenStyle,
        snapshot: &mut Vec<crate::render::DrawCommand>,
        scale: u32,
    )
        requires
            self.wf(),
            crate::input::SCALE_MIN <= scale <= crate::input::SCALE_MAX,
        ensures
            final(snapshot)@ == old(snapshot)@ + self.spec_draw_cmds(current_pen, scale as int),
    {
        match current_pen {
            PenStyle::Eraser => {
                if self.eraser.shown {
                    let w2: i64 = (self.eraser.width / 2) as i64;
                    let ex = self.eraser.current_input.pos.x;
                    let ey = self.eraser.current_input.pos.y;
                    let ebox = Aabb {
                        mins: crate::geometry::Vector2 { x: ex - w2, y: ey - w2 },
                        maxs: crate::geometry::Vector2 { x: ex + w2, y: ey + w2 },
                    };
                    proof {
                        assert(ebox == self.eraser.spec_box());
                    }
                    let scaled = crate::render::scale_aabb(&ebox, scale);
                    snapshot.push(
                        crate::render::DrawCommand::Fill {
                            bounds: scaled,
                            color: Color { r: 120, g: 120, b: 120, a: 120 },
                        },
                    );
                }
            },
            PenStyle::Selector => {
                if self.selector.shown {
                    match &self.selector.bounds {
                        Option::Some(b) => {
                            proof {
                                if self.selector.path@.len() > 0 {
                                    lemma_path_bounds_wf(self.selector.path@);
                                }
                            }
                            let scaled = crate::render::scale_aabb(b, scale);
                            snapshot.push(
                                crate::render::DrawCommand::BorderRect {
                                    bounds: scaled,
                                    color: Color { r: 0, g: 0, b: 255, a: 255 },
                                },
                            );
                        },
                        Option::None => {},
                    }
                }
            },
            _ => {},
        }
        proof {
            assert(final(snapshot)@ =~= old(snapshot)@ + self.spec_draw_cmds(
                current_pen,
                scale as int,
            ));
        }
    }
}

} // verus!
