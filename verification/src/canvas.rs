//! The canvas: current pen, zoom factor, and the pipeline turning
//! preprocessed input batches into sheet mutations.

use vstd::prelude::*;

use crate::geometry::{Aabb, Vector2};
use crate::input::{
    map_sample, spec_map_coord, InputSample, INPUT_OVERSHOOT, SCALE_DEFAULT, SCALE_MAX, SCALE_MIN,
};
use crate::pens::{Eraser, PenStyle, Pens};
use crate::render::RenderNode;
use crate::selection::{sel_pred, strokes_bounds_opt, unsel_pred};
use crate::sheet::{
    frame_eq, hit_pred, keep_pred, spec_calc_height, spec_eraser_box, Sheet,
};
use crate::strokes::{
    elems_of, extended_with, is_fresh_brush_at, is_fresh_marker_at, new_stroke, strokes_all_wf,
    update_last_rendernode, StrokeStyle,
};

verus! {

/// The zoom factor clamped into the accepted range.
pub open spec fn spec_clamp_scale(x: int) -> int {
    if x < SCALE_MIN {
        SCALE_MIN as int
    } else if x > SCALE_MAX {
        SCALE_MAX as int
    } else {
        x
    }
}

/// One input sample mapped to sheet space.
pub open spec fn spec_map_sample(s: InputSample, offset: Vector2, scale: int) -> InputSample {
    InputSample {
        pos: Vector2 {
            x: spec_map_coord(s.pos.x as int, offset.x as int, scale) as i64,
            y: spec_map_coord(s.pos.y as int, offset.y as int, scale) as i64,
        },
        pressure: s.pressure,
    }
}

/// The mapping step, as a value for `map_values`.
pub open spec fn map_fn(offset: Vector2, scale: int) -> spec_fn(InputSample) -> InputSample {
    |s: InputSample| spec_map_sample(s, offset, scale)
}

/// The sheet's extent inflated by the input overshoot: samples outside
/// it are dropped.
pub open spec fn spec_filter_bounds(s: Sheet) -> Aabb {
    Aabb {
        mins: Vector2 {
            x: (s.x as int - INPUT_OVERSHOOT) as i64,
            y: (s.y as int - INPUT_OVERSHOOT) as i64,
        },
        maxs: Vector2 {
            x: (s.x as int + s.width as int + INPUT_OVERSHOOT) as i64,
            y: (s.y as int + s.height as int + INPUT_OVERSHOOT) as i64,
        },
    }
}

/// The clipping step: a sample is kept when it lies inside the inflated
/// sheet and its coordinates stay in range.
pub open spec fn keep_sample_fn(sheet: Sheet) -> spec_fn(InputSample) -> bool {
    |s: InputSample| spec_filter_bounds(sheet).spec_contains_point(s.pos) && s.pos.wf()
}

/// What preprocessing leaves of an incoming batch: mapped to sheet
/// space, then clipped.
pub open spec fn spec_preprocessed(c: Canvas, data: Seq<InputSample>, offset: Vector2) -> Seq<
    InputSample,
> {
    data.map_values(map_fn(offset, c.scalefactor as int)).filter(keep_sample_fn(c.sheet))
}

/// The strokes after a draw gesture begins: any selection is flushed
/// back onto the sheet first.
pub open spec fn begin_base(c: Canvas) -> Seq<StrokeStyle> {
    c.sheet.strokes@ + c.sheet.selection.strokes@
}

pub struct Canvas {
    pub pens: Pens,
    pub current_pen: PenStyle,
    pub sheet: Sheet,
    /// Zoom factor in thousandths, always within the accepted range.
    pub scalefactor: u32,
    pub visual_debug: bool,
    pub mouse_drawing: bool,
}

/// The canvas fields a draw gesture never touches.
pub open spec fn gesture_frame_eq(pre: Canvas, post: Canvas) -> bool {
    &&& post.scalefactor == pre.scalefactor
    &&& post.current_pen == pre.current_pen
    &&& post.visual_debug == pre.visual_debug
    &&& post.mouse_drawing == pre.mouse_drawing
    &&& frame_eq(post.sheet, pre.sheet)
}

/// After a gesture begins, the selection is flushed and empty.
pub open spec fn begin_common(pre: Canvas, post: Canvas) -> bool {
    &&& gesture_frame_eq(pre, post)
    &&& post.sheet.selection.strokes@.len() == 0
    &&& post.sheet.selection.bounds is None
    &&& post.sheet.selection.shown == pre.sheet.selection.shown
}

/// What beginning a marker or brush gesture does: with no surviving
/// sample nothing is drawn; otherwise one fresh stroke is appended from
/// the first sample, the sheet resizes, and the stroke's render node is
/// produced at the current zoom.
pub open spec fn begin_pen_post(pre: Canvas, post: Canvas, filt: Seq<InputSample>, r: bool) -> bool {
    let base = begin_base(pre);
    let sf = pre.scalefactor;
    &&& post.pens == pre.pens
    &&& post.sheet.strokes_trash@ == pre.sheet.strokes_trash@
    &&& if filt.len() == 0 {
        &&& post.sheet.strokes@ == base
        &&& post.sheet.height == pre.sheet.height
        &&& r == false
    } else {
        &&& post.sheet.strokes@.len() == base.len() + 1
        &&& post.sheet.strokes@.take(base.len() as int) == base
        &&& (pre.current_pen == PenStyle::Marker ==> is_fresh_marker_at(
            post.sheet.strokes@.last(),
            filt[0],
            pre.pens.marker.width,
            pre.pens.marker.color,
            RenderNode { scale: sf, bounds: Aabb { mins: filt[0].pos, maxs: filt[0].pos } },
        ))
        &&& (pre.current_pen == PenStyle::Brush ==> is_fresh_brush_at(
            post.sheet.strokes@.last(),
            filt[0],
            pre.pens.brush.width,
            pre.pens.brush.color,
            pre.pens.brush.template_id,
            RenderNode { scale: sf, bounds: Aabb { mins: filt[0].pos, maxs: filt[0].pos } },
        ))
        &&& post.sheet.height as int == (if pre.sheet.autoexpand_height {
            spec_calc_height(
                post.sheet.strokes@,
                pre.sheet.format,
                pre.sheet.padding_bottom as int,
            )
        } else {
            pre.sheet.height as int
        })
        &&& r == (pre.sheet.autoexpand_height && spec_calc_height(
            post.sheet.strokes@,
            pre.sheet.format,
            pre.sheet.padding_bottom as int,
        ) != pre.sheet.height as int)
    }
}

/// What beginning an eraser gesture does: the eraser jumps to the last
/// surviving sample, becomes visible, and one collision pass runs.
pub open spec fn begin_eraser_post(pre: Canvas, post: Canvas, filt: Seq<InputSample>, r: bool) -> bool {
    let base = begin_base(pre);
    if filt.len() == 0 {
        &&& post.pens == pre.pens
        &&& post.sheet.strokes@ == base
        &&& post.sheet.strokes_trash@ == pre.sheet.strokes_trash@
        &&& post.sheet.height == pre.sheet.height
        &&& r == false
    } else {
        let e = Eraser {
            width: pre.pens.eraser.width,
            current_input: filt.last(),
            shown: true,
        };
        let b = spec_eraser_box(e);
        &&& post.pens.eraser == e
        &&& post.pens.marker == pre.pens.marker
        &&& post.pens.brush == pre.pens.brush
        &&& post.pens.selector == pre.pens.selector
        &&& post.sheet.strokes@ == base.filter(keep_pred(b))
        &&& post.sheet.strokes_trash@ == pre.sheet.strokes_trash@ + base.filter(hit_pred(b))
        &&& post.sheet.height as int == (if pre.sheet.autoexpand_height {
            spec_calc_height(
                post.sheet.strokes@,
                pre.sheet.format,
                pre.sheet.padding_bottom as int,
            )
        } else {
            pre.sheet.height as int
        })
        &&& r == (pre.sheet.autoexpand_height && spec_calc_height(
            post.sheet.strokes@,
            pre.sheet.format,
            pre.sheet.padding_bottom as int,
        ) != pre.sheet.height as int)
    }
}

/// What beginning a selector gesture does: the selector becomes visible
/// and its path restarts from the surviving samples.
pub open spec fn begin_selector_post(pre: Canvas, post: Canvas, filt: Seq<InputSample>, r: bool) -> bool {
    let base = begin_base(pre);
    let sf = pre.scalefactor;
    &&& post.sheet.strokes@ == base
    &&& post.sheet.strokes_trash@ == pre.sheet.strokes_trash@
    &&& post.sheet.height == pre.sheet.height
    &&& r == false
    &&& post.pens.marker == pre.pens.marker
    &&& post.pens.brush == pre.pens.brush
    &&& post.pens.eraser == pre.pens.eraser
    &&& if filt.len() == 0 {
        post.pens.selector == pre.pens.selector
    } else {
        &&& post.pens.selector.shown == true
        &&& post.pens.selector.path@ == filt
        &&& post.pens.selector.bounds == Option::Some(crate::pens::path_bounds(filt))
        &&& post.pens.selector.style == pre.pens.selector.style
        &&& post.pens.selector.rendernode == (RenderNode {
            scale: sf,
            bounds: crate::pens::path_bounds(filt),
        })
    }
}

/// What a mid-gesture marker or brush batch does: every surviving
/// sample extends the stroke being drawn, the last stroke; then its
/// render node is refreshed and the sheet resizes.
pub open spec fn motion_pen_post(pre: Canvas, post: Canvas, filt: Seq<InputSample>, r: bool) -> bool {
    &&& post.pens == pre.pens
    &&& post.sheet.strokes_trash@ == pre.sheet.strokes_trash@
    &&& post.sheet.selection == pre.sheet.selection
    &&& if filt.len() == 0 || pre.sheet.strokes@.len() == 0 {
        &&& post.sheet.strokes@ == pre.sheet.strokes@
        &&& post.sheet.height == pre.sheet.height
        &&& r == false
    } else {
        &&& post.sheet.strokes@.len() == pre.sheet.strokes@.len()
        &&& post.sheet.strokes@.take(pre.sheet.strokes@.len() - 1) == pre.sheet.strokes@.take(
            pre.sheet.strokes@.len() - 1,
        )
        &&& extended_with(
            pre.sheet.strokes@.last(),
            post.sheet.strokes@.last(),
            filt,
            pre.scalefactor,
        )
        &&& post.sheet.height as int == (if pre.sheet.autoexpand_height {
            spec_calc_height(
                post.sheet.strokes@,
                pre.sheet.format,
                pre.sheet.padding_bottom as int,
            )
        } else {
            pre.sheet.height as int
        })
        &&& r == (pre.sheet.autoexpand_height && spec_calc_height(
            post.sheet.strokes@,
            pre.sheet.format,
            pre.sheet.padding_bottom as int,
        ) != pre.sheet.height as int)
    }
}

/// The box one eraser sample covers.
pub open spec fn sample_box(s: InputSample, width: u32) -> Aabb {
    spec_eraser_box(Eraser { width, current_input: s, shown: true })
}

/// What survives a run of eraser samples, each removing what its box
/// hits from what the previous ones left.
pub open spec fn erase_fold_strokes(
    ss: Seq<StrokeStyle>,
    samples: Seq<InputSample>,
    width: u32,
) -> Seq<StrokeStyle>
    decreases samples.len(),
{
    if samples.len() == 0 {
        ss
    } else {
        erase_fold_strokes(
            ss.filter(keep_pred(sample_box(samples[0], width))),
            samples.skip(1),
            width,
        )
    }
}

/// What a run of eraser samples moves to the trash, in removal order.
pub open spec fn erase_fold_trash(
    ss: Seq<StrokeStyle>,
    samples: Seq<InputSample>,
    width: u32,
) -> Seq<StrokeStyle>
    decreases samples.len(),
{
    if samples.len() == 0 {
        Seq::empty()
    } else {
        ss.filter(hit_pred(sample_box(samples[0], width))) + erase_fold_trash(
            ss.filter(keep_pred(sample_box(samples[0], width))),
            samples.skip(1),
            width,
        )
    }
}

/// What a mid-gesture eraser batch does: one collision pass per sample,
/// the eraser following along.
pub open spec fn motion_eraser_post(pre: Canvas, post: Canvas, filt: Seq<InputSample>, r: bool) -> bool {
    let w = pre.pens.eraser.width;
    &&& post.pens.marker == pre.pens.marker
    &&& post.pens.brush == pre.pens.brush
    &&& post.pens.selector == pre.pens.selector
    &&& post.sheet.selection == pre.sheet.selection
    &&& if filt.len() == 0 {
        &&& post.pens.eraser == pre.pens.eraser
        &&& post.sheet.strokes@ == pre.sheet.strokes@
        &&& post.sheet.strokes_trash@ == pre.sheet.strokes_trash@
        &&& post.sheet.height == pre.sheet.height
        &&& r == false
    } else {
        &&& post.pens.eraser == (Eraser {
            width: w,
            current_input: filt.last(),
            shown: pre.pens.eraser.shown,
        })
        &&& post.sheet.strokes@ == erase_fold_strokes(pre.sheet.strokes@, filt, w)
        &&& post.sheet.strokes_trash@ == pre.sheet.strokes_trash@ + erase_fold_trash(
            pre.sheet.strokes@,
            filt,
            w,
        )
        &&& (pre.sheet.autoexpand_height ==> post.sheet.height as int == spec_calc_height(
            post.sheet.strokes@,
            pre.sheet.format,
            pre.sheet.padding_bottom as int,
        ))
        &&& (!pre.sheet.autoexpand_height ==> post.sheet.height == pre.sheet.height && r == false)
        &&& (!r ==> post.sheet.height == pre.sheet.height)
    }
}

/// What a mid-gesture selector batch does: the surviving samples extend
/// the path, and the preview node follows.
pub open spec fn motion_selector_post(pre: Canvas, post: Canvas, filt: Seq<InputSample>, r: bool) -> bool {
    &&& post.pens.marker == pre.pens.marker
    &&& post.pens.brush == pre.pens.brush
    &&& post.pens.eraser == pre.pens.eraser
    &&& post.sheet.strokes@ == pre.sheet.strokes@
    &&& post.sheet.strokes_trash@ == pre.sheet.strokes_trash@
    &&& post.sheet.selection == pre.sheet.selection
    &&& post.sheet.height == pre.sheet.height
    &&& r == false
    &&& post.pens.selector.path@ == pre.pens.selector.path@ + filt
    &&& post.pens.selector.shown == pre.pens.selector.shown
    &&& post.pens.selector.style == pre.pens.selector.style
    &&& post.pens.selector.wf()
    &&& (filt.len() == 0 ==> post.pens.selector.rendernode == pre.pens.selector.rendernode)
    &&& (filt.len() > 0 ==> post.pens.selector.rendernode == (RenderNode {
        scale: pre.scalefactor,
        bounds: crate::pens::path_bounds(post.pens.selector.path@),
    }))
}

/// The stroke list after end-of-stroke fitting ran on its last stroke.
pub open spec fn completed_strokes_rel(pre: Seq<StrokeStyle>, mid: Seq<StrokeStyle>) -> bool {
    if pre.len() == 0 {
        mid == pre
    } else {
        &&& mid.len() == pre.len()
        &&& mid.take(pre.len() - 1) == pre.take(pre.len() - 1)
        &&& StrokeStyle::complete_rel(pre.last(), mid.last())
    }
}

/// What ending a gesture does, phrased over the completed stroke list
/// `mid`: the selector turns its path into a selection, clears it and
/// hides itself; any other pen only hides the previews.
pub open spec fn end_strokes_post(pre: Canvas, post: Canvas, mid: Seq<StrokeStyle>) -> bool {
    &&& completed_strokes_rel(pre.sheet.strokes@, mid)
    &&& post.sheet.strokes_trash@ == pre.sheet.strokes_trash@
    &&& post.sheet.height == pre.sheet.height
    &&& if pre.current_pen == PenStyle::Selector {
        let style = pre.pens.selector.style;
        let path = pre.pens.selector.path@;
        &&& post.sheet.strokes@ == mid.filter(unsel_pred(style, path))
        &&& post.sheet.selection.strokes@ == pre.sheet.selection.strokes@ + mid.filter(
            sel_pred(style, path),
        )
        &&& post.sheet.selection.bounds == strokes_bounds_opt(post.sheet.selection.strokes@)
        &&& post.sheet.selection.shown == pre.sheet.selection.shown
        &&& post.pens.marker == pre.pens.marker
        &&& post.pens.brush == pre.pens.brush
        &&& post.pens.eraser == pre.pens.eraser
        &&& post.pens.selector.path@.len() == 0
        &&& post.pens.selector.bounds is None
        &&& post.pens.selector.shown == false
        &&& post.pens.selector.style == style
        &&& post.pens.selector.rendernode == (RenderNode {
            scale: pre.scalefactor,
            bounds: RenderNode::spec_empty().bounds,
        })
    } else {
        &&& post.sheet.strokes@ == mid
        &&& post.sheet.selection == pre.sheet.selection
        &&& post.pens.marker == pre.pens.marker
        &&& post.pens.brush == pre.pens.brush
        &&& post.pens.eraser == (Eraser { shown: false, ..pre.pens.eraser })
        &&& post.pens.selector.path@ == pre.pens.selector.path@
        &&& post.pens.selector.bounds == pre.pens.selector.bounds
        &&& post.pens.selector.shown == false
        &&& post.pens.selector.style == pre.pens.selector.style
        &&& post.pens.selector.rendernode == pre.pens.selector.rendernode
    }
}

/// How one sample geometrically extends the stroke being drawn, before
/// any render-node refresh.
pub open spec fn extended_geom(pre: StrokeStyle, cur: StrokeStyle, samples: Seq<InputSample>) -> bool {
    match (pre, cur) {
        (StrokeStyle::MarkerStroke(m0), StrokeStyle::MarkerStroke(m1)) => {
            &&& m1.elements@ == m0.elements@ + elems_of(samples)
            &&& m1.options == m0.options
            &&& m1.rendernode == m0.rendernode
        },
        (StrokeStyle::BrushStroke(b0), StrokeStyle::BrushStroke(b1)) => {
            &&& b1.elements@ == b0.elements@ + elems_of(samples)
            &&& b1.options == b0.options
            &&& b1.template_id == b0.template_id
            &&& b1.rendernode == b0.rendernode
        },
        (StrokeStyle::VectorImage(_), _) => cur == pre,
        (StrokeStyle::BitmapImage(_), _) => cur == pre,
        _ => false,
    }
}

impl Canvas {
    pub open spec fn wf(self) -> bool {
        &&& self.sheet.wf()
        &&& self.pens.wf()
        &&& SCALE_MIN <= self.scalefactor <= SCALE_MAX
    }

    /// A fresh canvas over a fresh sheet, drawing with the marker at the
    /// default zoom.
    pub fn new() -> (r: Canvas)
        ensures
            r.current_pen == PenStyle::Marker,
            r.scalefactor == SCALE_DEFAULT,
            r.visual_debug == false,
            r.mouse_drawing == false,
            r.sheet.strokes@.len() == 0,
            r.sheet.strokes_trash@.len() == 0,
            r.sheet.selection.strokes@.len() == 0,
            r.wf(),
    {
        Canvas {
            pens: Pens::default(),
            current_pen: PenStyle::Marker,
            sheet: Sheet::new(),
            scalefactor: SCALE_DEFAULT,
            visual_debug: false,
            mouse_drawing: false,
        }
    }

    pub fn current_pen(&self) -> (r: PenStyle)
        ensures
            r == self.current_pen,
    {
        self.current_pen
    }

    pub fn set_current_pen(&mut self, pen: PenStyle)
        ensures
            final(self).current_pen == pen,
            final(self).pens == old(self).pens,
            final(self).sheet == old(self).sheet,
            final(self).scalefactor == old(self).scalefactor,
            final(self).visual_debug == old(self).visual_debug,
            final(self).mouse_drawing == old(self).mouse_drawing,
    {
        self.current_pen = pen;
    }

    pub fn pens(&self) -> (r: &Pens)
        ensures
            r == &self.pens,
    {
        &self.pens
    }

    /// Mutable access to the pens, for the host's pen configuration.
    pub fn pens_mut(&mut self) -> (r: &mut Pens)
        ensures
            *r == old(self).pens,
            final(self).pens == *final(r),
            final(self).current_pen == old(self).current_pen,
            final(self).sheet == old(self).sheet,
            final(self).scalefactor == old(self).scalefactor,
            final(self).visual_debug == old(self).visual_debug,
            final(self).mouse_drawing == old(self).mouse_drawing,
    {
        &mut self.pens
    }

    pub fn sheet(&self) -> (r: &Sheet)
        ensures
            r == &self.sheet,
    {
        &self.sheet
    }

    /// Mutable access to the sheet, for persistence and direct edits.
    pub fn sheet_mut(&mut self) -> (r: &mut Sheet)
        ensures
            *r == old(self).sheet,
            final(self).sheet == *final(r),
            final(self).pens == old(self).pens,
            final(self).current_pen == old(self).current_pen,
            final(self).scalefactor == old(self).scalefactor,
            final(self).visual_debug == old(self).visual_debug,
            final(self).mouse_drawing == old(self).mouse_drawing,
    {
        &mut self.sheet
    }

    pub fn scalefactor(&self) -> (r: u32)
        ensures
            r == self.scalefactor,
    {
        self.scalefactor
    }

    /// Sets the zoom factor, clamped into the accepted range, and
    /// refreshes every cached render node at the new zoom.
    pub fn set_scalefactor(&mut self, scalefactor: u32)
        requires
            old(self).wf(),
        ensures
            final(self).scalefactor as int == spec_clamp_scale(scalefactor as int),
            final(self).sheet.strokes@ == old(self).sheet.strokes@.map_values(
                |s: StrokeStyle|
                    s.spec_with_rendernode(spec_clamp_scale(scalefactor as int) as u32),
            ),
            final(self).sheet.selection.strokes@ == old(self).sheet.selection.strokes@.map_values(
                |s: StrokeStyle|
                    s.spec_with_rendernode(spec_clamp_scale(scalefactor as int) as u32),
            ),
            final(self).sheet.strokes_trash@ == old(self).sheet.strokes_trash@,
            final(self).sheet.selection.bounds == old(self).sheet.selection.bounds,
            final(self).sheet.selection.shown == old(self).sheet.selection.shown,
            frame_eq(final(self).sheet, old(self).sheet),
            final(self).sheet.height == old(self).sheet.height,
            final(self).pens == old(self).pens,
            final(self).current_pen == old(self).current_pen,
            final(self).visual_debug == old(self).visual_debug,
            final(self).mouse_drawing == old(self).mouse_drawing,
            final(self).wf(),
    {
        let clamped: u32 = if scalefactor < SCALE_MIN {
            SCALE_MIN
        } else if scalefactor > SCALE_MAX {
            SCALE_MAX
        } else {
            scalefactor
        };
        self.scalefactor = clamped;
        crate::strokes::update_all_rendernodes(&mut self.sheet.strokes, clamped);
        crate::strokes::update_all_rendernodes(&mut self.sheet.selection.strokes, clamped);
        proof {
            crate::strokes::lemma_with_rendernode_all_wf(old(self).sheet.strokes@, clamped);
            crate::strokes::lemma_with_rendernode_all_wf(
                old(self).sheet.selection.strokes@,
                clamped,
            );
        }
    }

    /// The widget extent the host should reserve for one direction: the
    /// sheet's extent at the current zoom, rounded to the nearest pixel,
    /// plus its offset.
    pub fn measure(&self, vertical: bool) -> (r: i64)
        requires
            self.wf(),
        ensures
            vertical ==> r == crate::input::spec_round_scale(
                self.sheet.height as int,
                self.scalefactor as int,
            ) + self.sheet.y as int,
            !vertical ==> r == crate::input::spec_round_scale(
                self.sheet.width as int,
                self.scalefactor as int,
            ) + self.sheet.x as int,
    {
        if vertical {
            let scaled = crate::input::round_scale(self.sheet.height as i64, self.scalefactor);
            scaled + self.sheet.y as i64
        } else {
            let scaled = crate::input::round_scale(self.sheet.width as i64, self.scalefactor);
            scaled + self.sheet.x as i64
        }
    }

    /// Maps a raw input batch to sheet coordinates: add the drag offset,
    /// divide by the zoom factor.
    pub fn map_inputdata(&self, data_entries: &Vec<InputSample>, offset: Vector2) -> (r: Vec<
        InputSample,
    >)
        requires
            self.wf(),
            offset.wf(),
            forall|i: int| 0 <= i < data_entries@.len() ==> (#[trigger] data_entries@[i]).pos.wf(),
        ensures
            r@ == data_entries@.map_values(map_fn(offset, self.scalefactor as int)),
    {
        let n = data_entries.len();
        let mut r: Vec<InputSample> = Vec::new();
        let mut i: usize = 0;
        proof {
            assert(r@ =~= data_entries@.take(0).map_values(map_fn(offset, self.scalefactor as int)));
        }
        while i < n
            invariant
                0 <= i <= n,
                n == data_entries@.len(),
                self.wf(),
                offset.wf(),
                forall|k: int|
                    0 <= k < data_entries@.len() ==> (#[trigger] data_entries@[k]).pos.wf(),
                r@ == data_entries@.take(i as int).map_values(
                    map_fn(offset, self.scalefactor as int),
                ),
            decreases n - i,
        {
            let mapped = map_sample(&data_entries[i], offset, self.scalefactor);
            r.push(mapped);
            proof {
                assert(mapped == spec_map_sample(
                    data_entries@[i as int],
                    offset,
                    self.scalefactor as int,
                ));
                assert(r@ =~= data_entries@.take(i as int + 1).map_values(
                    map_fn(offset, self.scalefactor as int),
                ));
            }
            i += 1;
        }
        proof {
            assert(data_entries@.take(n as int) =~= data_entries@);
        }
        r
    }

    /// Clips a batch to the sheet's extent plus the input overshoot,
    /// dropping out-of-range samples with it.
    pub fn filter_inputdata(&self, data_entries: Vec<InputSample>) -> (r: Vec<InputSample>)
        ensures
            r@ == data_entries@.filter(keep_sample_fn(self.sheet)),
            forall|i: int| 0 <= i < r@.len() ==> (#[trigger] r@[i]).pos.wf(),
    {
        let fb_mins = Vector2 {
            x: self.sheet.x as i64 - INPUT_OVERSHOOT,
            y: self.sheet.y as i64 - INPUT_OVERSHOOT,
        };
        let fb_maxs = Vector2 {
            x: self.sheet.x as i64 + self.sheet.width as i64 + INPUT_OVERSHOOT,
            y: self.sheet.y as i64 + self.sheet.height as i64 + INPUT_OVERSHOOT,
        };
        let fb = Aabb { mins: fb_mins, maxs: fb_maxs };
        proof {
            assert(fb == spec_filter_bounds(self.sheet));
        }
        let n = data_entries.len();
        let mut r: Vec<InputSample> = Vec::new();
        let mut i: usize = 0;
        proof {
            assert(data_entries@.take(0) =~= Seq::<InputSample>::empty());
        }
        while i < n
            invariant
                0 <= i <= n,
                n == data_entries@.len(),
                fb == spec_filter_bounds(self.sheet),
                r@ == data_entries@.take(i as int).filter(keep_sample_fn(self.sheet)),
            decreases n - i,
        {
            let s = data_entries[i];
            let keep = fb.contains_point(&s.pos) && s.pos.x >= -crate::geometry::MAX_COORD
                && s.pos.x <= crate::geometry::MAX_COORD && s.pos.y >= -crate::geometry::MAX_COORD
                && s.pos.y <= crate::geometry::MAX_COORD;
            if keep {
                r.push(s);
            }
            proof {
                let t1 = data_entries@.take(i as int + 1);
                assert(t1.drop_last() =~= data_entries@.take(i as int));
                assert(t1.last() == data_entries@[i as int]);
                reveal(Seq::filter);
                assert(keep == keep_sample_fn(self.sheet)(data_entries@[i as int]));
            }
            i += 1;
        }
        proof {
            assert(data_entries@.take(n as int) =~= data_entries@);
            let kept = data_entries@.filter(keep_sample_fn(self.sheet));
            broadcast use vstd::seq_lib::group_filter_ensures;

            assert(forall|k: int|
                0 <= k < kept.len() ==> keep_sample_fn(self.sheet)(#[trigger] kept[k]));
        }
        r
    }

    /// Begins a draw gesture: the batch is mapped and clipped, any live
    /// selection is flushed back onto the sheet, and the active pen
    /// dispatches. Reports whether the sheet height changed. A gesture
    /// the host never ended needs no fitting here: the maintained
    /// invariant keeps every stroke's cached geometry exact, so an
    /// unfinished stroke is already in its fitted form.
    pub fn processing_draw_begin(&mut self, data_entries: Vec<InputSample>, offset: Vector2) -> (resize_needed: bool)
        requires
            old(self).wf(),
            offset.wf(),
            forall|i: int| 0 <= i < data_entries@.len() ==> (#[trigger] data_entries@[i]).pos.wf(),
        ensures
            final(self).wf(),
            begin_common(*old(self), *final(self)),
            ({
                let filt = spec_preprocessed(*old(self), data_entries@, offset);
                &&& ((old(self).current_pen == PenStyle::Marker || old(self).current_pen
                    == PenStyle::Brush) ==> begin_pen_post(*old(self), *final(self), filt,
                    resize_needed))
                &&& (old(self).current_pen == PenStyle::Eraser ==> begin_eraser_post(
                    *old(self),
                    *final(self),
                    filt,
                    resize_needed,
                ))
                &&& (old(self).current_pen == PenStyle::Selector ==> begin_selector_post(
                    *old(self),
                    *final(self),
                    filt,
                    resize_needed,
                ))
                &&& (old(self).current_pen == PenStyle::Unknown ==> final(self).pens == old(self).pens && final(self).sheet.strokes@ == begin_base(*old(self)) && final(self).sheet.strokes_trash@ == old(self).sheet.strokes_trash@ && final(self).sheet.height
                    == old(self).sheet.height && resize_needed == false)
            }),
    {
        let mapped = self.map_inputdata(&data_entries, offset);
        let filt = self.filter_inputdata(mapped);
        let mut moved = self.sheet.selection.remove_strokes();
        self.sheet.strokes.append(&mut moved);
        let ghost base = self.sheet.strokes@;
        proof {
            assert(base == begin_base(*old(self)));
            assert forall|i: int| 0 <= i < base.len() implies (#[trigger] base[i]).wf() by {
                if i < old(self).sheet.strokes@.len() {
                    assert(base[i] == old(self).sheet.strokes@[i]);
                } else {
                    assert(base[i] == old(self).sheet.selection.strokes@[i - old(self).sheet.strokes@.len()]);
                }
            }
        }
        let mut resize_needed = false;
        match self.current_pen {
            PenStyle::Marker => {
                if filt.len() > 0 {
                    let first = filt[0];
                    new_stroke(&mut self.sheet.strokes, first, PenStyle::Marker, &self.pens);
                    update_last_rendernode(&mut self.sheet.strokes, self.scalefactor);
                    resize_needed = self.sheet.resize();
                    proof {
                        assert(self.sheet.strokes@.take(base.len() as int) =~= base);
                        crate::strokes::lemma_with_rendernode_wf(
                            self.sheet.strokes@.last(),
                            self.scalefactor,
                        );
                    }
                }
            },
            PenStyle::Brush => {
                if filt.len() > 0 {
                    let first = filt[0];
                    new_stroke(&mut self.sheet.strokes, first, PenStyle::Brush, &self.pens);
                    update_last_rendernode(&mut self.sheet.strokes, self.scalefactor);
                    resize_needed = self.sheet.resize();
                    proof {
                        assert(self.sheet.strokes@.take(base.len() as int) =~= base);
                        crate::strokes::lemma_with_rendernode_wf(
                            self.sheet.strokes@.last(),
                            self.scalefactor,
                        );
                    }
                }
            },
            PenStyle::Eraser => {
                if filt.len() > 0 {
                    let last = filt[filt.len() - 1];
                    self.pens.eraser.current_input = last;
                    self.pens.eraser.shown = true;
                    resize_needed = self.sheet.remove_colliding_strokes(&self.pens.eraser);
                }
            },
            PenStyle::Selector => {
                if filt.len() > 0 {
                    self.pens.selector.set_shown(true);
                    self.pens.selector.new_path(filt[0]);
                    let m = filt.len();
                    let mut i: usize = 1;
                    proof {
                        assert(self.pens.selector.path@ =~= filt@.take(1));
                    }
                    while i < m
                        invariant
                            1 <= i <= m,
                            m == filt@.len(),
                            forall|k: int| 0 <= k < filt@.len() ==> (#[trigger] filt@[k]).pos.wf(),
                            self.pens.selector.wf(),
                            self.pens.selector.path@ == filt@.take(i as int),
                            self.pens.selector.shown == true,
                            self.pens.selector.style == old(self).pens.selector.style,
                            self.pens.selector.rendernode == old(self).pens.selector.rendernode,
                            self.pens.marker == old(self).pens.marker,
                            self.pens.brush == old(self).pens.brush,
                            self.pens.eraser == old(self).pens.eraser,
                            self.sheet.strokes@ == base,
                            self.sheet.strokes_trash@ == old(self).sheet.strokes_trash@,
                            self.sheet.selection.strokes@.len() == 0,
                            self.sheet.selection.bounds is None,
                            self.sheet.selection.shown == old(self).sheet.selection.shown,
                            frame_eq(self.sheet, old(self).sheet),
                            self.sheet.height == old(self).sheet.height,
                            self.sheet.format == old(self).sheet.format,
                            strokes_all_wf(base),
                            self.sheet.format.wf(),
                            self.current_pen == old(self).current_pen,
                            self.scalefactor == old(self).scalefactor,
                            self.visual_debug == old(self).visual_debug,
                            self.mouse_drawing == old(self).mouse_drawing,
                        decreases m - i,
                    {
                        self.pens.selector.push_elem(filt[i]);
                        proof {
                            assert(self.pens.selector.path@ =~= filt@.take(i as int + 1));
                        }
                        i += 1;
                    }
                    proof {
                        assert(filt@.take(m as int) =~= filt@);
                    }
                    self.pens.selector.update_rendernode(self.scalefactor);
                }
            },
            PenStyle::Unknown => {},
        }
        resize_needed
    }

    /// Continues a draw gesture with a fresh batch; the active pen
    /// dispatches. Reports whether the sheet height changed.
    pub fn processing_draw_motion(&mut self, data_entries: Vec<InputSample>, offset: Vector2) -> (resize_needed: bool)
        requires
            old(self).wf(),
            offset.wf(),
            forall|i: int| 0 <= i < data_entries@.len() ==> (#[trigger] data_entries@[i]).pos.wf(),
        ensures
            final(self).wf(),
            gesture_frame_eq(*old(self), *final(self)),
            ({
                let filt = spec_preprocessed(*old(self), data_entries@, offset);
                &&& ((old(self).current_pen == PenStyle::Marker || old(self).current_pen
                    == PenStyle::Brush) ==> motion_pen_post(*old(self), *final(self), filt,
                    resize_needed))
                &&& (old(self).current_pen == PenStyle::Eraser ==> motion_eraser_post(
                    *old(self),
                    *final(self),
                    filt,
                    resize_needed,
                ))
                &&& (old(self).current_pen == PenStyle::Selector ==> motion_selector_post(
                    *old(self),
                    *final(self),
                    filt,
                    resize_needed,
                ))
                &&& (old(self).current_pen == PenStyle::Unknown ==> final(self).pens == old(self).pens && final(self).sheet == old(self).sheet && resize_needed == false)
            }),
    {
        let mapped = self.map_inputdata(&data_entries, offset);
        let filt = self.filter_inputdata(mapped);
        let mut resize_needed = false;
        match self.current_pen {
            PenStyle::Marker | PenStyle::Brush => {
                if filt.len() > 0 {
                    let popped = self.sheet.strokes.pop();
                    match popped {
                        Option::Some(mut s) => {
                            let ghost pre_last = old(self).sheet.strokes@.last();
                            let m = filt.len();
                            let mut i: usize = 0;
                            proof {
                                assert(extended_geom(pre_last, s, filt@.take(0))) by {
                                    match pre_last {
                                        StrokeStyle::MarkerStroke(m0) => {
                                            assert(m0.elements@ + elems_of(filt@.take(0))
                                                =~= m0.elements@);
                                        },
                                        StrokeStyle::BrushStroke(b0) => {
                                            assert(b0.elements@ + elems_of(filt@.take(0))
                                                =~= b0.elements@);
                                        },
                                        _ => {},
                                    }
                                }
                            }
                            while i < m
                                invariant
                                    0 <= i <= m,
                                    m == filt@.len(),
                                    forall|k: int|
                                        0 <= k < filt@.len() ==> (#[trigger] filt@[k]).pos.wf(),
                                    s.wf(),
                                    extended_geom(pre_last, s, filt@.take(i as int)),
                                decreases m - i,
                            {
                                let ghost s_pre = s;
                                s.extend(filt[i]);
                                proof {
                                    let ghost s_now = s;
                                    assert(StrokeStyle::extend_rel(s_pre, s_now, filt@[i as int]));
                                    match (pre_last, s_now) {
                                        (
                                            StrokeStyle::MarkerStroke(m0),
                                            StrokeStyle::MarkerStroke(m1),
                                        ) => {
                                            assert(m1.elements@ =~= m0.elements@ + elems_of(
                                                filt@.take(i as int + 1),
                                            ));
                                        },
                                        (
                                            StrokeStyle::BrushStroke(b0),
                                            StrokeStyle::BrushStroke(b1),
                                        ) => {
                                            assert(b1.elements@ =~= b0.elements@ + elems_of(
                                                filt@.take(i as int + 1),
                                            ));
                                        },
                                        _ => {},
                                    }
                                }
                                i += 1;
                            }
                            proof {
                                assert(filt@.take(m as int) =~= filt@);
                            }
                            s.update_rendernode(self.scalefactor);
                            self.sheet.strokes.push(s);
                            proof {
                                assert(self.sheet.strokes@.take(old(self).sheet.strokes@.len() - 1)
                                    =~= old(self).sheet.strokes@.take(
                                    old(self).sheet.strokes@.len() - 1,
                                ));
                                crate::strokes::lemma_with_rendernode_wf(
                                    self.sheet.strokes@.last(),
                                    self.scalefactor,
                                );
                                assert forall|i0: int|
                                    0 <= i0 < self.sheet.strokes@.len() implies (
                                #[trigger] self.sheet.strokes@[i0]).wf() by {
                                    if i0 < self.sheet.strokes@.len() - 1 {
                                        assert(self.sheet.strokes@[i0] == old(self).sheet.strokes@[i0]);
                                    }
                                }
                            }
                            resize_needed = self.sheet.resize();
                        },
                        Option::None => {},
                    }
                }
            },
            PenStyle::Eraser => {
                let m = filt.len();
                let ghost orig = self.sheet.strokes@;
                let ghost otrash = self.sheet.strokes_trash@;
                let ghost w = self.pens.eraser.width;
                let ghost mut acc: Seq<StrokeStyle> = Seq::empty();
                let mut i: usize = 0;
                proof {
                    assert(otrash + acc =~= otrash);
                    assert(filt@.skip(0) =~= filt@);
                    assert(acc + erase_fold_trash(orig, filt@, w) =~= erase_fold_trash(
                        orig,
                        filt@,
                        w,
                    ));
                }
                while i < m
                    invariant
                        0 <= i <= m,
                        m == filt@.len(),
                        forall|k: int| 0 <= k < filt@.len() ==> (#[trigger] filt@[k]).pos.wf(),
                        w == old(self).pens.eraser.width,
                        orig == old(self).sheet.strokes@,
                        otrash == old(self).sheet.strokes_trash@,
                        self.pens.marker == old(self).pens.marker,
                        self.pens.brush == old(self).pens.brush,
                        self.pens.selector == old(self).pens.selector,
                        self.pens.eraser.width == w,
                        self.pens.eraser.shown == old(self).pens.eraser.shown,
                        i == 0 ==> self.pens.eraser == old(self).pens.eraser,
                        i > 0 ==> self.pens.eraser.current_input == filt@[i as int - 1],
                        self.sheet.selection == old(self).sheet.selection,
                        frame_eq(self.sheet, old(self).sheet),
                        self.current_pen == old(self).current_pen,
                        self.scalefactor == old(self).scalefactor,
                        self.visual_debug == old(self).visual_debug,
                        self.mouse_drawing == old(self).mouse_drawing,
                        erase_fold_strokes(orig, filt@, w) == erase_fold_strokes(
                            self.sheet.strokes@,
                            filt@.skip(i as int),
                            w,
                        ),
                        erase_fold_trash(orig, filt@, w) == acc + erase_fold_trash(
                            self.sheet.strokes@,
                            filt@.skip(i as int),
                            w,
                        ),
                        self.sheet.strokes_trash@ == otrash + acc,
                        i == 0 ==> self.sheet.strokes@ == orig && self.sheet.height == old(self).sheet.height,
                        i == 0 ==> resize_needed == false,
                        i > 0 && old(self).sheet.autoexpand_height ==> self.sheet.height as int
                            == spec_calc_height(
                            self.sheet.strokes@,
                            old(self).sheet.format,
                            old(self).sheet.padding_bottom as int,
                        ),
                        !old(self).sheet.autoexpand_height ==> self.sheet.height == old(self).sheet.height && resize_needed == false,
                        !resize_needed ==> self.sheet.height == old(self).sheet.height,
                        self.wf(),
                    decreases m - i,
                {
                    let ghost pre_cur = self.sheet.strokes@;
                    self.pens.eraser.current_input = filt[i];
                    let r1 = self.sheet.remove_colliding_strokes(&self.pens.eraser);
                    if r1 {
                        resize_needed = true;
                    }
                    proof {
                        let b = sample_box(filt@[i as int], w);
                        assert(spec_eraser_box(self.pens.eraser) == b);
                        assert(filt@.skip(i as int)[0] == filt@[i as int]);
                        assert(filt@.skip(i as int).skip(1) =~= filt@.skip(i as int + 1));
                        assert(erase_fold_strokes(pre_cur, filt@.skip(i as int), w)
                            == erase_fold_strokes(
                            pre_cur.filter(keep_pred(b)),
                            filt@.skip(i as int + 1),
                            w,
                        ));
                        assert(erase_fold_trash(pre_cur, filt@.skip(i as int), w) == pre_cur.filter(
                            hit_pred(b),
                        ) + erase_fold_trash(
                            pre_cur.filter(keep_pred(b)),
                            filt@.skip(i as int + 1),
                            w,
                        ));
                        assert((otrash + acc) + pre_cur.filter(hit_pred(b)) =~= otrash + (acc
                            + pre_cur.filter(hit_pred(b))));
                        assert(acc + (pre_cur.filter(hit_pred(b)) + erase_fold_trash(
                            pre_cur.filter(keep_pred(b)),
                            filt@.skip(i as int + 1),
                            w,
                        )) =~= (acc + pre_cur.filter(hit_pred(b))) + erase_fold_trash(
                            pre_cur.filter(keep_pred(b)),
                            filt@.skip(i as int + 1),
                            w,
                        ));
                        acc = acc + pre_cur.filter(hit_pred(b));
                    }
                    i += 1;
                }
                proof {
                    assert(filt@.skip(m as int) =~= Seq::<InputSample>::empty());
                }
            },
            PenStyle::Selector => {
                let m = filt.len();
                let mut i: usize = 0;
                proof {
                    assert(self.pens.selector.path@ =~= old(self).pens.selector.path@ + filt@.take(
                        0,
                    ));
                }
                while i < m
                    invariant
                        0 <= i <= m,
                        m == filt@.len(),
                        forall|k: int| 0 <= k < filt@.len() ==> (#[trigger] filt@[k]).pos.wf(),
                        self.pens.selector.wf(),
                        self.pens.selector.path@ == old(self).pens.selector.path@ + filt@.take(
                            i as int,
                        ),
                        self.pens.selector.shown == old(self).pens.selector.shown,
                        self.pens.selector.style == old(self).pens.selector.style,
                        self.pens.selector.rendernode == old(self).pens.selector.rendernode,
                        self.pens.marker == old(self).pens.marker,
                        self.pens.brush == old(self).pens.brush,
                        self.pens.eraser == old(self).pens.eraser,
                        self.sheet == old(self).sheet,
                        self.current_pen == old(self).current_pen,
                        self.scalefactor == old(self).scalefactor,
                        self.visual_debug == old(self).visual_debug,
                        self.mouse_drawing == old(self).mouse_drawing,
                    decreases m - i,
                {
                    self.pens.selector.push_elem(filt[i]);
                    proof {
                        assert(self.pens.selector.path@ =~= old(self).pens.selector.path@
                            + filt@.take(i as int + 1));
                    }
                    i += 1;
                }
                proof {
                    assert(filt@.take(m as int) =~= filt@);
                }
                if filt.len() > 0 {
                    self.pens.selector.update_rendernode(self.scalefactor);
                    proof {
                        assert(self.pens.selector.path@.len() > 0);
                    }
                }
            },
            PenStyle::Unknown => {},
        }
        resize_needed
    }

    /// Ends a draw gesture: the stroke being drawn gets its end-of-stroke
    /// fitting, and the selector turns its path into a selection.
    pub fn processing_draw_end(&mut self, _data_entries: Vec<InputSample>, _offset: Vector2)
        requires
            old(self).wf(),
        ensures
            final(self).wf(),
            gesture_frame_eq(*old(self), *final(self)),
            exists|mid: Seq<StrokeStyle>|
                #[trigger] end_strokes_post(*old(self), *final(self), mid),
    {
        let popped = self.sheet.strokes.pop();
        match popped {
            Option::Some(mut s) => {
                proof {
                    assert(old(self).sheet.strokes@.last().wf());
                }
                s.complete_stroke();
                self.sheet.strokes.push(s);
                proof {
                    assert(self.sheet.strokes@.take(old(self).sheet.strokes@.len() - 1)
                        =~= old(self).sheet.strokes@.take(old(self).sheet.strokes@.len() - 1));
                    assert forall|i0: int|
                        0 <= i0 < self.sheet.strokes@.len() implies (
                    #[trigger] self.sheet.strokes@[i0]).wf() by {
                        if i0 < self.sheet.strokes@.len() - 1 {
                            assert(self.sheet.strokes@[i0] == old(self).sheet.strokes@[i0]);
                        } else {
                            match old(self).sheet.strokes@.last() {
                                StrokeStyle::VectorImage(v) => {
                                    assert(StrokeStyle::complete_rel(
                                        old(self).sheet.strokes@.last(),
                                        self.sheet.strokes@[i0],
                                    ));
                                },
                                _ => {},
                            }
                        }
                    }
                }
            },
            Option::None => {},
        }
        let ghost mid = self.sheet.strokes@;
        proof {
            assert(completed_strokes_rel(old(self).sheet.strokes@, mid));
        }
        match self.current_pen {
            PenStyle::Selector => {
                let sf = self.scalefactor;
                self.sheet.selection.update_selection(&self.pens.selector, &mut self.sheet.strokes);
                self.pens.selector.clear_path();
                self.pens.selector.update_rendernode(sf);
                self.pens.selector.set_shown(false);
                proof {
                    crate::sheet::lemma_filter_wf(mid, unsel_pred(
                        old(self).pens.selector.style,
                        old(self).pens.selector.path@,
                    ));
                    crate::sheet::lemma_filter_wf(mid, sel_pred(
                        old(self).pens.selector.style,
                        old(self).pens.selector.path@,
                    ));
                    assert forall|i0: int|
                        0 <= i0 < self.sheet.selection.strokes@.len() implies (
                    #[trigger] self.sheet.selection.strokes@[i0]).wf() by {
                        if i0 < old(self).sheet.selection.strokes@.len() {
                            assert(self.sheet.selection.strokes@[i0] == old(self).sheet.selection.strokes@[i0]);
                        } else {
                            assert(self.sheet.selection.strokes@[i0] == mid.filter(sel_pred(
                                old(self).pens.selector.style,
                                old(self).pens.selector.path@,
                            ))[i0 - old(self).sheet.selection.strokes@.len()]);
                        }
                    }
                    assert(end_strokes_post(*old(self), *self, mid));
                }
            },
            _ => {
                self.pens.eraser.set_shown(false);
                self.pens.selector.set_shown(false);
                proof {
                    assert(end_strokes_post(*old(self), *self, mid));
                }
            },
        }
    }
}

} // verus!
