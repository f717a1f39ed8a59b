//! The stroke model: marker and brush polylines, imported vector and
//! bitmap images, and the operations the sheet performs on them.

use vstd::prelude::*;

use crate::geometry::{lemma_contains_corner_box, lemma_merge_contains, Aabb, Vector2};
use crate::input::InputSample;
use crate::pens::{PenStyle, Pens, PEN_WIDTH_MAX};
use crate::render::{Color, RenderNode};

verus! {

/// One recorded point of a drawn stroke.
#[derive(Clone, Copy, PartialEq, Eq, Structural, Debug)]
pub struct Element {
    pub inputdata: InputSample,
}

impl Element {
    pub fn new(inputdata: InputSample) -> (r: Element)
        ensures
            r.inputdata == inputdata,
    {
        Element { inputdata }
    }

    pub fn inputdata(&self) -> (r: InputSample)
        ensures
            r == self.inputdata,
    {
        self.inputdata
    }
}

/// Width and color shared by the drawn stroke kinds.
#[derive(Clone, Copy, PartialEq, Eq, Structural, Debug)]
pub struct StrokeOptions {
    pub width: u32,
    pub color: Color,
}

impl StrokeOptions {
    pub open spec fn wf(self) -> bool {
        0 < self.width <= PEN_WIDTH_MAX
    }
}

/// Bounding box of a non-empty element list.
pub open spec fn elems_bounds(elems: Seq<Element>) -> Aabb
    recommends
        elems.len() > 0,
    decreases elems.len(),
{
    if elems.len() <= 1 {
        Aabb { mins: elems[0].inputdata.pos, maxs: elems[0].inputdata.pos }
    } else {
        elems_bounds(elems.drop_last()).spec_merge(
            Aabb { mins: elems.last().inputdata.pos, maxs: elems.last().inputdata.pos },
        )
    }
}

/// One hitbox tile per segment: the box spanned by two consecutive
/// element positions.
pub open spec fn hitbox_of(elems: Seq<Element>) -> Seq<Aabb> {
    Seq::new((elems.len() - 1) as nat, |i: int|
        Aabb::spec_from_corners(elems[i].inputdata.pos, elems[i + 1].inputdata.pos))
}

pub open spec fn elems_all_wf(elems: Seq<Element>) -> bool {
    forall|i: int| 0 <= i < elems.len() ==> (#[trigger] elems[i]).inputdata.pos.wf()
}

/// A freehand polyline stroke drawn with the marker pen.
pub struct MarkerStroke {
    pub elements: Vec<Element>,
    pub bounds: Aabb,
    pub hitbox: Vec<Aabb>,
    pub options: StrokeOptions,
    pub rendernode: RenderNode,
}

/// A freehand stroke drawn with the brush pen; its final geometry is
/// fitted against a template resolved by id.
pub struct BrushStroke {
    pub elements: Vec<Element>,
    pub bounds: Aabb,
    pub hitbox: Vec<Aabb>,
    pub options: StrokeOptions,
    pub template_id: u64,
    pub rendernode: RenderNode,
}

/// Geometric well-formedness of a polyline: cached bounds and hitbox
/// agree exactly with the recorded elements.
pub open spec fn polyline_wf(elems: Seq<Element>, bounds: Aabb, hitbox: Seq<Aabb>) -> bool {
    &&& elems.len() >= 1
    &&& elems_all_wf(elems)
    &&& bounds == elems_bounds(elems)
    &&& bounds.wf()
    &&& hitbox == hitbox_of(elems)
}

impl MarkerStroke {
    pub open spec fn wf(self) -> bool {
        &&& polyline_wf(self.elements@, self.bounds, self.hitbox@)
        &&& self.options.wf()
    }

    pub fn new(inputdata: InputSample, options: StrokeOptions) -> (r: MarkerStroke)
        requires
            inputdata.pos.wf(),
            options.wf(),
        ensures
            r.elements@ == seq![Element { inputdata }],
            r.bounds == (Aabb { mins: inputdata.pos, maxs: inputdata.pos }),
            r.hitbox@.len() == 0,
            r.options == options,
            r.rendernode == RenderNode::spec_empty(),
            r.wf(),
    {
        let mut elements: Vec<Element> = Vec::new();
        elements.push(Element { inputdata });
        let r = MarkerStroke {
            elements,
            bounds: Aabb::from_point(inputdata.pos),
            hitbox: Vec::new(),
            options,
            rendernode: RenderNode::empty(),
        };
        proof {
            assert(r.elements@ =~= seq![Element { inputdata }]);
            assert(r.hitbox@ =~= hitbox_of(r.elements@));
        }
        r
    }
}

impl BrushStroke {
    pub open spec fn wf(self) -> bool {
        &&& polyline_wf(self.elements@, self.bounds, self.hitbox@)
        &&& self.options.wf()
    }

    pub fn new(inputdata: InputSample, options: StrokeOptions, template_id: u64) -> (r: BrushStroke)
        requires
            inputdata.pos.wf(),
            options.wf(),
        ensures
            r.elements@ == seq![Element { inputdata }],
            r.bounds == (Aabb { mins: inputdata.pos, maxs: inputdata.pos }),
            r.hitbox@.len() == 0,
            r.options == options,
            r.template_id == template_id,
            r.rendernode == RenderNode::spec_empty(),
            r.wf(),
    {
        let mut elements: Vec<Element> = Vec::new();
        elements.push(Element { inputdata });
        let r = BrushStroke {
            elements,
            bounds: Aabb::from_point(inputdata.pos),
            hitbox: Vec::new(),
            options,
            template_id,
            rendernode: RenderNode::empty(),
        };
        proof {
            assert(r.elements@ =~= seq![Element { inputdata }]);
            assert(r.hitbox@ =~= hitbox_of(r.elements@));
        }
        r
    }
}

/// Appending an element extends the cached geometry exactly as the spec
/// relations describe; shared by the two polyline kinds.
fn extend_polyline(
    elements: &mut Vec<Element>,
    bounds: &mut Aabb,
    hitbox: &mut Vec<Aabb>,
    inputdata: InputSample,
)
    requires
        polyline_wf(old(elements)@, *old(bounds), old(hitbox)@),
        inputdata.pos.wf(),
    ensures
        final(elements)@ == old(elements)@.push(Element { inputdata }),
        *final(bounds) == old(bounds).spec_merge(
            Aabb { mins: inputdata.pos, maxs: inputdata.pos },
        ),
        final(hitbox)@ == old(hitbox)@.push(
            Aabb::spec_from_corners(old(elements)@.last().inputdata.pos, inputdata.pos),
        ),
        polyline_wf(final(elements)@, *final(bounds), final(hitbox)@),
{
    let n = elements.len();
    let prev = elements[n - 1].inputdata.pos;
    hitbox.push(Aabb::from_corners(prev, inputdata.pos));
    elements.push(Element { inputdata });
    let point_box = Aabb::from_point(inputdata.pos);
    *bounds = bounds.merge(&point_box);
    proof {
        let new_elems = elements@;
        assert(new_elems.drop_last() =~= old(elements)@);
        assert(*bounds == elems_bounds(new_elems));
        assert(hitbox@ =~= hitbox_of(new_elems)) by {
            assert(forall|j: int|
                0 <= j < old(elements)@.len() ==> new_elems[j] == #[trigger] old(elements)@[j]);
            assert(forall|j: int|
                0 <= j < old(hitbox)@.len() ==> #[trigger] hitbox_of(new_elems)[j] == hitbox_of(
                    old(elements)@,
                )[j]);
        }
    }
}

/// Recomputes bounds and hitbox from the recorded elements.
fn recompute_polyline(elements: &Vec<Element>) -> (r: (Aabb, Vec<Aabb>))
    requires
        elements@.len() >= 1,
        elems_all_wf(elements@),
    ensures
        r.0 == elems_bounds(elements@),
        r.1@ == hitbox_of(elements@),
        polyline_wf(elements@, r.0, r.1@),
{
    let n = elements.len();
    let mut bounds = Aabb::from_point(elements[0].inputdata.pos);
    let mut hitbox: Vec<Aabb> = Vec::new();
    let mut i: usize = 1;
    proof {
        assert(elements@.take(1) =~= seq![elements@[0]]);
        assert(hitbox@ =~= hitbox_of(elements@.take(1)));
    }
    while i < n
        invariant
            1 <= i <= n,
            n == elements@.len(),
            elems_all_wf(elements@),
            bounds == elems_bounds(elements@.take(i as int)),
            hitbox@ == hitbox_of(elements@.take(i as int)),
        decreases n - i,
    {
        let p = elements[i].inputdata.pos;
        let prev = elements[i - 1].inputdata.pos;
        hitbox.push(Aabb::from_corners(prev, p));
        bounds = bounds.merge(&Aabb::from_point(p));
        proof {
            let t1 = elements@.take(i as int + 1);
            assert(t1.drop_last() =~= elements@.take(i as int));
            assert(bounds == elems_bounds(t1));
            assert(hitbox@ =~= hitbox_of(t1));
        }
        i += 1;
    }
    proof {
        assert(elements@.take(n as int) =~= elements@);
        lemma_elems_bounds_wf(elements@);
    }
    (bounds, hitbox)
}

/// An imported vector graphic, kept opaque and placed at `pos`.
pub struct VectorImage {
    /// The raw image text.
    pub data_svg: Vec<u8>,
    pub bounds: Aabb,
    pub intrinsic_size: Vector2,
    pub pos: Vector2,
    pub rendernode: RenderNode,
}

impl VectorImage {
    pub open spec fn wf(self) -> bool {
        &&& self.intrinsic_size.x > 0
        &&& self.intrinsic_size.y > 0
        &&& self.intrinsic_size.wf()
        &&& self.bounds.mins == self.pos
        &&& self.bounds.maxs.x == self.pos.x + self.intrinsic_size.x
        &&& self.bounds.maxs.y == self.pos.y + self.intrinsic_size.y
        &&& self.bounds.wf()
    }
}

/// Raster image encodings accepted for import.
#[derive(Clone, Copy, PartialEq, Eq, Structural, Debug)]
pub enum ImageFormat {
    Png,
    Jpeg,
}

/// An imported raster image, kept opaque and placed at `pos`.
pub struct BitmapImage {
    pub data: Vec<u8>,
    pub format: ImageFormat,
    pub bounds: Aabb,
    pub intrinsic_size: Vector2,
    pub pos: Vector2,
    pub rendernode: RenderNode,
}

impl BitmapImage {
    pub open spec fn wf(self) -> bool {
        &&& self.intrinsic_size.x > 0
        &&& self.intrinsic_size.y > 0
        &&& self.intrinsic_size.wf()
        &&& self.bounds.mins == self.pos
        &&& self.bounds.maxs.x == self.pos.x + self.intrinsic_size.x
        &&& self.bounds.maxs.y == self.pos.y + self.intrinsic_size.y
        &&& self.bounds.wf()
    }
}

/// The tagged stroke variant the sheet stores.
pub enum StrokeStyle {
    MarkerStroke(MarkerStroke),
    BrushStroke(BrushStroke),
    VectorImage(VectorImage),
    BitmapImage(BitmapImage),
}

impl StrokeStyle {
    pub open spec fn wf(self) -> bool {
        match self {
            StrokeStyle::MarkerStroke(m) => m.wf(),
            StrokeStyle::BrushStroke(b) => b.wf(),
            StrokeStyle::VectorImage(v) => v.wf(),
            StrokeStyle::BitmapImage(b) => b.wf(),
        }
    }

    pub open spec fn spec_bounds(self) -> Aabb {
        match self {
            StrokeStyle::MarkerStroke(m) => m.bounds,
            StrokeStyle::BrushStroke(b) => b.bounds,
            StrokeStyle::VectorImage(v) => v.bounds,
            StrokeStyle::BitmapImage(b) => b.bounds,
        }
    }

    pub open spec fn spec_rendernode(self) -> RenderNode {
        match self {
            StrokeStyle::MarkerStroke(m) => m.rendernode,
            StrokeStyle::BrushStroke(b) => b.rendernode,
            StrokeStyle::VectorImage(v) => v.rendernode,
            StrokeStyle::BitmapImage(b) => b.rendernode,
        }
    }

    /// The same stroke with its render-node cache reset.
    pub open spec fn spec_clear_cache(self) -> StrokeStyle {
        match self {
            StrokeStyle::MarkerStroke(m) => StrokeStyle::MarkerStroke(
                MarkerStroke { rendernode: RenderNode::spec_empty(), ..m },
            ),
            StrokeStyle::BrushStroke(b) => StrokeStyle::BrushStroke(
                BrushStroke { rendernode: RenderNode::spec_empty(), ..b },
            ),
            StrokeStyle::VectorImage(v) => StrokeStyle::VectorImage(
                VectorImage { rendernode: RenderNode::spec_empty(), ..v },
            ),
            StrokeStyle::BitmapImage(b) => StrokeStyle::BitmapImage(
                BitmapImage { rendernode: RenderNode::spec_empty(), ..b },
            ),
        }
    }

    /// The same stroke with a render node freshly produced at `scale`.
    pub open spec fn spec_with_rendernode(self, scale: u32) -> StrokeStyle {
        let node = RenderNode { scale, bounds: self.spec_bounds() };
        match self {
            StrokeStyle::MarkerStroke(m) => StrokeStyle::MarkerStroke(
                MarkerStroke { rendernode: node, ..m },
            ),
            StrokeStyle::BrushStroke(b) => StrokeStyle::BrushStroke(
                BrushStroke { rendernode: node, ..b },
            ),
            StrokeStyle::VectorImage(v) => StrokeStyle::VectorImage(
                VectorImage { rendernode: node, ..v },
            ),
            StrokeStyle::BitmapImage(b) => StrokeStyle::BitmapImage(
                BitmapImage { rendernode: node, ..b },
            ),
        }
    }

    /// How a stroke relates to itself after one element was appended:
    /// polylines grow by one element, one hitbox tile and a bounds merge;
    /// images are left unchanged.
    pub open spec fn extend_rel(pre: StrokeStyle, post: StrokeStyle, inputdata: InputSample) -> bool {
        match (pre, post) {
            (StrokeStyle::MarkerStroke(m0), StrokeStyle::MarkerStroke(m1)) => {
                &&& m1.elements@ == m0.elements@.push(Element { inputdata })
                &&& m1.bounds == m0.bounds.spec_merge(
                    Aabb { mins: inputdata.pos, maxs: inputdata.pos },
                )
                &&& (m0.elements@.len() >= 1 ==> m1.hitbox@ == m0.hitbox@.push(
                    Aabb::spec_from_corners(m0.elements@.last().inputdata.pos, inputdata.pos),
                ))
                &&& m1.options == m0.options
                &&& m1.rendernode == m0.rendernode
            },
            (StrokeStyle::BrushStroke(b0), StrokeStyle::BrushStroke(b1)) => {
                &&& b1.elements@ == b0.elements@.push(Element { inputdata })
                &&& b1.bounds == b0.bounds.spec_merge(
                    Aabb { mins: inputdata.pos, maxs: inputdata.pos },
                )
                &&& (b0.elements@.len() >= 1 ==> b1.hitbox@ == b0.hitbox@.push(
                    Aabb::spec_from_corners(b0.elements@.last().inputdata.pos, inputdata.pos),
                ))
                &&& b1.options == b0.options
                &&& b1.template_id == b0.template_id
                &&& b1.rendernode == b0.rendernode
            },
            (StrokeStyle::VectorImage(_), _) => post == pre,
            (StrokeStyle::BitmapImage(_), _) => post == pre,
            _ => false,
        }
    }

    /// How a stroke relates to itself after end-of-stroke fitting: bounds
    /// and hitbox are recomputed from the elements, which are unchanged;
    /// images are left unchanged.
    pub open spec fn complete_rel(pre: StrokeStyle, post: StrokeStyle) -> bool {
        match (pre, post) {
            (StrokeStyle::MarkerStroke(m0), StrokeStyle::MarkerStroke(m1)) => {
                &&& m1.elements@ == m0.elements@
                &&& m1.bounds == elems_bounds(m0.elements@)
                &&& m1.hitbox@ == hitbox_of(m0.elements@)
                &&& m1.options == m0.options
                &&& m1.rendernode == m0.rendernode
            },
            (StrokeStyle::BrushStroke(b0), StrokeStyle::BrushStroke(b1)) => {
                &&& b1.elements@ == b0.elements@
                &&& b1.bounds == elems_bounds(b0.elements@)
                &&& b1.hitbox@ == hitbox_of(b0.elements@)
                &&& b1.options == b0.options
                &&& b1.template_id == b0.template_id
                &&& b1.rendernode == b0.rendernode
            },
            (StrokeStyle::VectorImage(_), _) => post == pre,
            (StrokeStyle::BitmapImage(_), _) => post == pre,
            _ => false,
        }
    }

    /// Whether an eraser box hits this stroke: images collide on their
    /// bounds, polylines collide when the bounds match coarsely and some
    /// hitbox tile is hit.
    pub open spec fn spec_hit(self, probe: Aabb) -> bool {
        match self {
            StrokeStyle::MarkerStroke(m) => probe.spec_intersects(m.bounds) && (exists|i: int|
                0 <= i < m.hitbox@.len() && probe.spec_intersects(#[trigger] m.hitbox@[i])),
            StrokeStyle::BrushStroke(b) => probe.spec_intersects(b.bounds) && (exists|i: int|
                0 <= i < b.hitbox@.len() && probe.spec_intersects(#[trigger] b.hitbox@[i])),
            StrokeStyle::VectorImage(v) => probe.spec_intersects(v.bounds),
            StrokeStyle::BitmapImage(b) => probe.spec_intersects(b.bounds),
        }
    }

    pub fn bounds(&self) -> (r: Aabb)
        ensures
            r == self.spec_bounds(),
    {
        match self {
            StrokeStyle::MarkerStroke(m) => m.bounds,
            StrokeStyle::BrushStroke(b) => b.bounds,
            StrokeStyle::VectorImage(v) => v.bounds,
            StrokeStyle::BitmapImage(b) => b.bounds,
        }
    }

    pub fn rendernode(&self) -> (r: RenderNode)
        ensures
            r == self.spec_rendernode(),
    {
        match self {
            StrokeStyle::MarkerStroke(m) => m.rendernode,
            StrokeStyle::BrushStroke(b) => b.rendernode,
            StrokeStyle::VectorImage(v) => v.rendernode,
            StrokeStyle::BitmapImage(b) => b.rendernode,
        }
    }

    /// Refreshes this stroke's cached render node for the given zoom.
    pub fn update_rendernode(&mut self, scale: u32)
        ensures
            *final(self) == old(self).spec_with_rendernode(scale),
    {
        let node = RenderNode { scale, bounds: self.bounds() };
        match self {
            StrokeStyle::MarkerStroke(m) => {
                m.rendernode = node;
            },
            StrokeStyle::BrushStroke(b) => {
                b.rendernode = node;
            },
            StrokeStyle::VectorImage(v) => {
                v.rendernode = node;
            },
            StrokeStyle::BitmapImage(b) => {
                b.rendernode = node;
            },
        }
    }

    /// Appends one sample to a polyline stroke; images are unchanged.
    pub fn extend(&mut self, inputdata: InputSample)
        requires
            old(self).wf(),
            inputdata.pos.wf(),
        ensures
            StrokeStyle::extend_rel(*old(self), *final(self), inputdata),
            final(self).wf(),
    {
        match self {
            StrokeStyle::MarkerStroke(m) => {
                extend_polyline(&mut m.elements, &mut m.bounds, &mut m.hitbox, inputdata);
            },
            StrokeStyle::BrushStroke(b) => {
                extend_polyline(&mut b.elements, &mut b.bounds, &mut b.hitbox, inputdata);
            },
            StrokeStyle::VectorImage(_) => {},
            StrokeStyle::BitmapImage(_) => {},
        }
    }

    /// End-of-stroke fitting: recomputes bounds and hitbox from the
    /// elements. Idempotent, since it only depends on the elements.
    pub fn complete_stroke(&mut self)
        requires
            old(self).completable(),
        ensures
            StrokeStyle::complete_rel(*old(self), *final(self)),
            old(self).wf() ==> final(self).wf(),
            old(self) matches StrokeStyle::MarkerStroke(_) ==> final(self).wf(),
            old(self) matches StrokeStyle::BrushStroke(_) ==> final(self).wf(),
    {
        match self {
            StrokeStyle::MarkerStroke(m) => {
                let r = recompute_polyline(&m.elements);
                m.bounds = r.0;
                m.hitbox = r.1;
            },
            StrokeStyle::BrushStroke(b) => {
                let r = recompute_polyline(&b.elements);
                b.bounds = r.0;
                b.hitbox = r.1;
            },
            StrokeStyle::VectorImage(_) => {},
            StrokeStyle::BitmapImage(_) => {},
        }
    }

    /// What end-of-stroke fitting needs: a polyline must have at least
    /// one in-range element; images carry no fitted geometry.
    pub open spec fn completable(self) -> bool {
        match self {
            StrokeStyle::MarkerStroke(m) => m.elements@.len() >= 1 && elems_all_wf(m.elements@)
                && m.options.wf(),
            StrokeStyle::BrushStroke(b) => b.elements@.len() >= 1 && elems_all_wf(b.elements@)
                && b.options.wf(),
            StrokeStyle::VectorImage(_) => true,
            StrokeStyle::BitmapImage(_) => true,
        }
    }

    /// Broad-phase on the bounds, then narrow-phase over the hitbox
    /// tiles; images collide on their bounds alone.
    pub fn collides_with(&self, probe: &Aabb) -> (r: bool)
        ensures
            r == self.spec_hit(*probe),
    {
        match self {
            StrokeStyle::MarkerStroke(m) => {
                if probe.intersects(&m.bounds) {
                    hitbox_any_hit(&m.hitbox, probe)
                } else {
                    false
                }
            },
            StrokeStyle::BrushStroke(b) => {
                if probe.intersects(&b.bounds) {
                    hitbox_any_hit(&b.hitbox, probe)
                } else {
                    false
                }
            },
            StrokeStyle::VectorImage(v) => probe.intersects(&v.bounds),
            StrokeStyle::BitmapImage(b) => probe.intersects(&b.bounds),
        }
    }
}

/// Whether any tile of a hitbox intersects the probe box.
fn hitbox_any_hit(hitbox: &Vec<Aabb>, probe: &Aabb) -> (r: bool)
    ensures
        r == (exists|i: int| 0 <= i < hitbox@.len() && probe.spec_intersects(#[trigger] hitbox@[i])),
{
    let n = hitbox.len();
    let mut i: usize = 0;
    while i < n
        invariant
            0 <= i <= n,
            n == hitbox@.len(),
            forall|j: int| 0 <= j < i ==> !probe.spec_intersects(#[trigger] hitbox@[j]),
        decreases n - i,
    {
        if probe.intersects(&hitbox[i]) {
            return true;
        }
        i += 1;
    }
    false
}

/// Starts a new stroke from the first sample of a draw gesture, for the
/// pens that produce strokes; other pens add nothing.
pub fn new_stroke(
    strokes: &mut Vec<StrokeStyle>,
    inputdata: InputSample,
    current_pen: PenStyle,
    pens: &Pens,
)
    requires
        inputdata.pos.wf(),
        pens.wf(),
    ensures
        current_pen == PenStyle::Marker ==> final(strokes)@ == old(strokes)@.push(
            final(strokes)@.last(),
        ) && is_fresh_marker(final(strokes)@.last(), inputdata, pens.marker.width,
            pens.marker.color) && final(strokes)@.last().wf(),
        current_pen == PenStyle::Brush ==> final(strokes)@ == old(strokes)@.push(
            final(strokes)@.last(),
        ) && is_fresh_brush(final(strokes)@.last(), inputdata, pens.brush.width, pens.brush.color,
            pens.brush.template_id) && final(strokes)@.last().wf(),
        current_pen != PenStyle::Marker && current_pen != PenStyle::Brush ==> final(strokes)@
            == old(strokes)@,
{
    match current_pen {
        PenStyle::Marker => {
            let options = StrokeOptions { width: pens.marker.width, color: pens.marker.color };
            strokes.push(StrokeStyle::MarkerStroke(MarkerStroke::new(inputdata, options)));
        },
        PenStyle::Brush => {
            let options = StrokeOptions { width: pens.brush.width, color: pens.brush.color };
            strokes.push(
                StrokeStyle::BrushStroke(
                    BrushStroke::new(inputdata, options, pens.brush.template_id),
                ),
            );
        },
        _ => {},
    }
}

/// The shape a stroke has right after the marker pen began it, with the
/// given render node.
pub open spec fn is_fresh_marker_at(
    s: StrokeStyle,
    inputdata: InputSample,
    width: u32,
    color: Color,
    node: RenderNode,
) -> bool {
    &&& s matches StrokeStyle::MarkerStroke(m)
    &&& s->MarkerStroke_0.elements@ == seq![Element { inputdata }]
    &&& s->MarkerStroke_0.bounds == (Aabb { mins: inputdata.pos, maxs: inputdata.pos })
    &&& s->MarkerStroke_0.hitbox@.len() == 0
    &&& s->MarkerStroke_0.options == (StrokeOptions { width, color })
    &&& s->MarkerStroke_0.rendernode == node
}

/// The shape a stroke has right after the marker pen began it.
pub open spec fn is_fresh_marker(
    s: StrokeStyle,
    inputdata: InputSample,
    width: u32,
    color: Color,
) -> bool {
    is_fresh_marker_at(s, inputdata, width, color, RenderNode::spec_empty())
}

/// The shape a stroke has right after the brush pen began it, with the
/// given render node.
pub open spec fn is_fresh_brush_at(
    s: StrokeStyle,
    inputdata: InputSample,
    width: u32,
    color: Color,
    template_id: u64,
    node: RenderNode,
) -> bool {
    &&& s matches StrokeStyle::BrushStroke(b)
    &&& s->BrushStroke_0.elements@ == seq![Element { inputdata }]
    &&& s->BrushStroke_0.bounds == (Aabb { mins: inputdata.pos, maxs: inputdata.pos })
    &&& s->BrushStroke_0.hitbox@.len() == 0
    &&& s->BrushStroke_0.options == (StrokeOptions { width, color })
    &&& s->BrushStroke_0.template_id == template_id
    &&& s->BrushStroke_0.rendernode == node
}

/// The shape a stroke has right after the brush pen began it.
pub open spec fn is_fresh_brush(
    s: StrokeStyle,
    inputdata: InputSample,
    width: u32,
    color: Color,
    template_id: u64,
) -> bool {
    is_fresh_brush_at(s, inputdata, width, color, template_id, RenderNode::spec_empty())
}

/// The elements a run of samples records.
pub open spec fn elems_of(samples: Seq<InputSample>) -> Seq<Element> {
    samples.map_values(|s: InputSample| Element { inputdata: s })
}

/// How a stroke relates to itself after a whole run of samples was
/// appended and its render node refreshed at `scale`: polylines carry
/// the new elements with recomputed geometry; images only get the new
/// render node.
pub open spec fn extended_with(
    pre: StrokeStyle,
    post: StrokeStyle,
    samples: Seq<InputSample>,
    scale: u32,
) -> bool {
    match (pre, post) {
        (StrokeStyle::MarkerStroke(m0), StrokeStyle::MarkerStroke(m1)) => {
            &&& m1.elements@ == m0.elements@ + elems_of(samples)
            &&& m1.bounds == elems_bounds(m1.elements@)
            &&& m1.hitbox@ == hitbox_of(m1.elements@)
            &&& m1.options == m0.options
            &&& m1.rendernode == (RenderNode { scale, bounds: m1.bounds })
        },
        (StrokeStyle::BrushStroke(b0), StrokeStyle::BrushStroke(b1)) => {
            &&& b1.elements@ == b0.elements@ + elems_of(samples)
            &&& b1.bounds == elems_bounds(b1.elements@)
            &&& b1.hitbox@ == hitbox_of(b1.elements@)
            &&& b1.options == b0.options
            &&& b1.template_id == b0.template_id
            &&& b1.rendernode == (RenderNode { scale, bounds: b1.bounds })
        },
        (StrokeStyle::VectorImage(_), _) => post == pre.spec_with_rendernode(scale),
        (StrokeStyle::BitmapImage(_), _) => post == pre.spec_with_rendernode(scale),
        _ => false,
    }
}

/// Refreshes the render node of the stroke being drawn, the last one.
pub fn update_last_rendernode(strokes: &mut Vec<StrokeStyle>, scale: u32)
    ensures
        old(strokes)@.len() == 0 ==> final(strokes)@ == old(strokes)@,
        old(strokes)@.len() > 0 ==> final(strokes)@ == old(strokes)@.update(
            old(strokes)@.len() - 1,
            old(strokes)@.last().spec_with_rendernode(scale),
        ),
{
    let popped = strokes.pop();
    match popped {
        Option::Some(mut s) => {
            s.update_rendernode(scale);
            strokes.push(s);
            proof {
                assert(final(strokes)@ =~= old(strokes)@.update(
                    old(strokes)@.len() - 1,
                    old(strokes)@.last().spec_with_rendernode(scale),
                ));
            }
        },
        Option::None => {},
    }
}

/// Appends one sample to the stroke being drawn, the last one; an empty
/// stroke list is left untouched.
pub fn add_to_last_stroke(strokes: &mut Vec<StrokeStyle>, inputdata: InputSample, _pens: &Pens)
    requires
        inputdata.pos.wf(),
        old(strokes)@.len() > 0 ==> old(strokes)@.last().wf(),
    ensures
        old(strokes)@.len() == 0 ==> final(strokes)@ == old(strokes)@,
        old(strokes)@.len() > 0 ==> final(strokes)@ == old(strokes)@.update(
            old(strokes)@.len() - 1,
            final(strokes)@.last(),
        ) && StrokeStyle::extend_rel(old(strokes)@.last(), final(strokes)@.last(), inputdata)
            && final(strokes)@.last().wf(),
{
    let popped = strokes.pop();
    match popped {
        Option::Some(mut s) => {
            s.extend(inputdata);
            strokes.push(s);
            proof {
                assert(final(strokes)@ =~= old(strokes)@.update(
                    old(strokes)@.len() - 1,
                    final(strokes)@.last(),
                ));
            }
        },
        Option::None => {},
    }
}

/// What decoding must have established before end-of-stroke fitting can
/// recompute every stroke's geometry.
pub open spec fn strokes_completable(ss: Seq<StrokeStyle>) -> bool {
    forall|i: int| 0 <= i < ss.len() ==> (#[trigger] ss[i]).completable()
}

pub open spec fn strokes_all_wf(ss: Seq<StrokeStyle>) -> bool {
    forall|i: int| 0 <= i < ss.len() ==> (#[trigger] ss[i]).wf()
}

/// Recomputes the geometry of every stroke in the list.
pub fn complete_all_strokes(strokes: &mut Vec<StrokeStyle>)
    requires
        strokes_completable(old(strokes)@),
    ensures
        final(strokes)@.len() == old(strokes)@.len(),
        forall|i: int|
            0 <= i < old(strokes)@.len() ==> StrokeStyle::complete_rel(
                old(strokes)@[i],
                #[trigger] final(strokes)@[i],
            ),
        (forall|i: int|
            0 <= i < old(strokes)@.len() ==> (#[trigger] old(strokes)@[i] matches
            StrokeStyle::VectorImage(v) ==> v.wf()) && (old(strokes)@[i] matches
            StrokeStyle::BitmapImage(b) ==> b.wf())) ==> strokes_all_wf(final(strokes)@),
{
    let n = strokes.len();
    let mut i: usize = 0;
    while i < n
        invariant
            0 <= i <= n,
            n == old(strokes)@.len(),
            strokes@.len() == n,
            strokes_completable(old(strokes)@),
            forall|j: int|
                0 <= j < i ==> StrokeStyle::complete_rel(old(strokes)@[j], #[trigger] strokes@[j]),
            forall|j: int| i <= j < n ==> #[trigger] strokes@[j] == old(strokes)@[j],
        decreases n - i,
    {
        let mut s = strokes.remove(i);
        s.complete_stroke();
        strokes.insert(i, s);
        i += 1;
    }
    proof {
        assert forall|i0: int|
            0 <= i0 < old(strokes)@.len() && (forall|k: int|
                0 <= k < old(strokes)@.len() ==> (#[trigger] old(strokes)@[k] matches
                StrokeStyle::VectorImage(v) ==> v.wf()) && (old(strokes)@[k] matches
                StrokeStyle::BitmapImage(b) ==> b.wf())) implies (#[trigger] strokes@[i0]).wf() by {
            assert(StrokeStyle::complete_rel(old(strokes)@[i0], strokes@[i0]));
            assert(old(strokes)@[i0].completable());
            match old(strokes)@[i0] {
                StrokeStyle::MarkerStroke(m0) => {
                    lemma_elems_bounds_wf(m0.elements@);
                },
                StrokeStyle::BrushStroke(b0) => {
                    lemma_elems_bounds_wf(b0.elements@);
                },
                StrokeStyle::VectorImage(_) => {},
                StrokeStyle::BitmapImage(_) => {},
            }
        }
    }
}

/// Refreshes every cached render node for a new zoom factor.
pub fn update_all_rendernodes(strokes: &mut Vec<StrokeStyle>, scale: u32)
    ensures
        final(strokes)@ == old(strokes)@.map_values(
            |s: StrokeStyle| s.spec_with_rendernode(scale),
        ),
{
    let n = strokes.len();
    let mut i: usize = 0;
    while i < n
        invariant
            0 <= i <= n,
            n == old(strokes)@.len(),
            strokes@.len() == n,
            forall|j: int|
                0 <= j < i ==> #[trigger] strokes@[j] == old(strokes)@[j].spec_with_rendernode(
                    scale,
                ),
            forall|j: int| i <= j < n ==> #[trigger] strokes@[j] == old(strokes)@[j],
        decreases n - i,
    {
        let mut s = strokes.remove(i);
        s.update_rendernode(scale);
        strokes.insert(i, s);
        i += 1;
    }
    proof {
        assert(strokes@ =~= old(strokes)@.map_values(
            |s: StrokeStyle| s.spec_with_rendernode(scale),
        ));
    }
}

/// Every brush stroke's template id must be known to the registry.
pub open spec fn templates_ok(ss: Seq<StrokeStyle>, registry: Seq<u64>) -> bool {
    forall|i: int|
        0 <= i < ss.len() ==> ((#[trigger] ss[i]) matches StrokeStyle::BrushStroke(b)
            ==> registry.contains(b.template_id))
}

fn registry_contains(registry: &Vec<u64>, id: u64) -> (r: bool)
    ensures
        r == registry@.contains(id),
{
    let n = registry.len();
    let mut i: usize = 0;
    while i < n
        invariant
            0 <= i <= n,
            n == registry@.len(),
            forall|j: int| 0 <= j < i ==> registry@[j] != id,
        decreases n - i,
    {
        if registry[i] == id {
            return true;
        }
        i += 1;
    }
    false
}

/// Checks that every brush stroke's template id resolves against the
/// registry; the index of the first unresolved stroke is reported.
pub fn register_custom_templates(strokes: &Vec<StrokeStyle>, registry: &Vec<u64>) -> (r: Result<
    (),
    usize,
>)
    ensures
        r is Ok <==> templates_ok(strokes@, registry@),
        r matches Err(i) ==> 0 <= i < strokes@.len() && (strokes@[i as int] matches
            StrokeStyle::BrushStroke(b) && !registry@.contains(b.template_id)),
{
    let n = strokes.len();
    let mut i: usize = 0;
    while i < n
        invariant
            0 <= i <= n,
            n == strokes@.len(),
            forall|j: int|
                0 <= j < i ==> ((#[trigger] strokes@[j]) matches StrokeStyle::BrushStroke(b)
                    ==> registry@.contains(b.template_id)),
        decreases n - i,
    {
        match &strokes[i] {
            StrokeStyle::BrushStroke(b) => {
                if !registry_contains(registry, b.template_id) {
                    return Err(i);
                }
            },
            _ => {},
        }
        i += 1;
    }
    Ok(())
}

/// Every element position of a well-formed polyline lies inside its
/// bounds.
pub proof fn lemma_elems_bounds_cover(elems: Seq<Element>)
    requires
        elems.len() >= 1,
    ensures
        forall|i: int|
            0 <= i < elems.len() ==> elems_bounds(elems).spec_contains_point(
                (#[trigger] elems[i]).inputdata.pos,
            ),
    decreases elems.len(),
{
    if elems.len() > 1 {
        lemma_elems_bounds_cover(elems.drop_last());
        let b = elems_bounds(elems.drop_last());
        let last_box = Aabb { mins: elems.last().inputdata.pos, maxs: elems.last().inputdata.pos };
        lemma_merge_contains(b, last_box);
        assert forall|i: int| 0 <= i < elems.len() implies elems_bounds(elems).spec_contains_point(
            (#[trigger] elems[i]).inputdata.pos,
        ) by {
            if i < elems.len() - 1 {
                assert(elems.drop_last()[i] == elems[i]);
                assert(b.spec_contains_point(elems[i].inputdata.pos));
            }
        }
    }
}

/// The bounds of a well-formed polyline hold every hitbox tile and every
/// element position.
pub proof fn lemma_polyline_bounds_cover(elems: Seq<Element>, bounds: Aabb, hitbox: Seq<Aabb>)
    requires
        polyline_wf(elems, bounds, hitbox),
    ensures
        forall|i: int|
            0 <= i < elems.len() ==> bounds.spec_contains_point(
                (#[trigger] elems[i]).inputdata.pos,
            ),
        forall|i: int| 0 <= i < hitbox.len() ==> bounds.spec_contains(#[trigger] hitbox[i]),
{
    lemma_elems_bounds_cover(elems);
    assert forall|i: int| 0 <= i < hitbox.len() implies bounds.spec_contains(
        #[trigger] hitbox[i],
    ) by {
        lemma_contains_corner_box(bounds, elems[i].inputdata.pos, elems[i + 1].inputdata.pos);
    }
}

/// Refreshing a stroke's render node does not touch its geometry.
pub proof fn lemma_with_rendernode_wf(s: StrokeStyle, scale: u32)
    ensures
        s.wf() ==> s.spec_with_rendernode(scale).wf(),
{
}

/// Refreshing render nodes does not touch geometry, so it preserves
/// well-formedness across a whole list.
pub proof fn lemma_with_rendernode_all_wf(ss: Seq<StrokeStyle>, scale: u32)
    requires
        strokes_all_wf(ss),
    ensures
        strokes_all_wf(ss.map_values(|s: StrokeStyle| s.spec_with_rendernode(scale))),
{
    let mapped = ss.map_values(|s: StrokeStyle| s.spec_with_rendernode(scale));
    assert forall|i: int| 0 <= i < mapped.len() implies (#[trigger] mapped[i]).wf() by {
        assert(ss[i].wf());
        assert(mapped[i] == ss[i].spec_with_rendernode(scale));
    }
}

/// A well-formed stroke's bounds are a well-formed box.
pub proof fn lemma_stroke_bounds_wf(s: StrokeStyle)
    requires
        s.wf(),
    ensures
        s.spec_bounds().wf(),
{
}

/// The bounds of a well-formed polyline stay within coordinate range.
pub proof fn lemma_elems_bounds_wf(elems: Seq<Element>)
    requires
        elems.len() >= 1,
        elems_all_wf(elems),
    ensures
        elems_bounds(elems).wf(),
    decreases elems.len(),
{
    if elems.len() > 1 {
        assert(elems_all_wf(elems.drop_last())) by {
            assert(forall|i: int|
                0 <= i < elems.len() - 1 ==> elems.drop_last()[i] == #[trigger] elems[i]);
        }
        lemma_elems_bounds_wf(elems.drop_last());
    }
}

} // verus!
