//! Loading, saving, exporting and importing: the sheet's persistence
//! surface, over plain byte buffers.

use vstd::prelude::*;

use crate::codec::{decode_sheet, enc_sheet, encode_sheet, sheet_decode_valid};
use crate::compose::{spec_svg_fragment, spec_wrap_svg, wrap_svg};
use crate::error::{DecodeError, DecodeReason, ExportError, FieldId, ImportError};
use crate::filetype::FileType;
use crate::geometry::{Aabb, Vector2, MAX_COORD};
use crate::render::RenderNode;
use crate::sheet::Sheet;
use crate::strokes::{
    complete_all_strokes, register_custom_templates, strokes_all_wf, templates_ok, StrokeStyle,
    VectorImage, BitmapImage, ImageFormat,
};

verus! {

/// What loading a document leaves behind, stated over the decoded sheet
/// `dec`: the bytes were its exact canonical encoding, every brush
/// template resolved against the registry, and every stroke list had its
/// geometry recomputed in place.
pub open spec fn open_sheet_post(
    dec: Sheet,
    post: Sheet,
    data: Seq<u8>,
    templates: Seq<u64>,
) -> bool {
    &&& data == enc_sheet(dec)
    &&& sheet_decode_valid(dec)
    &&& templates_ok(dec.strokes@, templates)
    &&& templates_ok(dec.strokes_trash@, templates)
    &&& templates_ok(dec.selection.strokes@, templates)
    &&& post.strokes@.len() == dec.strokes@.len()
    &&& (forall|i: int|
        0 <= i < dec.strokes@.len() ==> StrokeStyle::complete_rel(
            dec.strokes@[i],
            #[trigger] post.strokes@[i],
        ))
    &&& post.strokes_trash@.len() == dec.strokes_trash@.len()
    &&& (forall|i: int|
        0 <= i < dec.strokes_trash@.len() ==> StrokeStyle::complete_rel(
            dec.strokes_trash@[i],
            #[trigger] post.strokes_trash@[i],
        ))
    &&& post.selection.strokes@.len() == dec.selection.strokes@.len()
    &&& (forall|i: int|
        0 <= i < dec.selection.strokes@.len() ==> StrokeStyle::complete_rel(
            dec.selection.strokes@[i],
            #[trigger] post.selection.strokes@[i],
        ))
    &&& post.selection.bounds == dec.selection.bounds
    &&& post.selection.shown == dec.selection.shown
    &&& post.format == dec.format
    &&& post.background == dec.background
    &&& post.x == dec.x
    &&& post.y == dec.y
    &&& post.width == dec.width
    &&& post.height == dec.height
    &&& post.autoexpand_height == dec.autoexpand_height
    &&& post.format_borders == dec.format_borders
    &&& post.padding_bottom == dec.padding_bottom
}

/// A structurally equal stroke list resolves against the same registry.
proof fn lemma_templates_ok_like(a: Seq<StrokeStyle>, b: Seq<StrokeStyle>, registry: Seq<u64>)
    requires
        crate::eq::strokes_like(a, b),
        templates_ok(b, registry),
    ensures
        templates_ok(a, registry),
{
    assert forall|i: int|
        0 <= i < a.len() implies ((#[trigger] a[i]) matches StrokeStyle::BrushStroke(br)
        ==> registry.contains(br.template_id)) by {
        assert(crate::eq::stroke_like(a[i], b[i]));
    }
}

impl Sheet {
    /// Loads a native document over this sheet: decode, resolve the
    /// brush templates against the registry, then recompute all stroke
    /// geometry. A failed load leaves the sheet untouched, and a load is
    /// owed success whenever the bytes are a canonical valid document
    /// whose brush templates all resolve.
    pub fn open_sheet(&mut self, data: &Vec<u8>, templates: &Vec<u64>) -> (r: Result<
        (),
        DecodeError,
    >)
        ensures
            r is Err ==> *final(self) == *old(self),
            r is Ok ==> final(self).wf() && (exists|dec: Sheet|
                #[trigger] open_sheet_post(dec, *final(self), data@, templates@)),
            forall|s0: Sheet|
                (#[trigger] crate::codec::sheet_doc_hyp(data@, s0)) && templates_ok(
                    s0.strokes@,
                    templates@,
                ) && templates_ok(s0.strokes_trash@, templates@) && templates_ok(
                    s0.selection.strokes@,
                    templates@,
                ) ==> r is Ok,
    {
        let mut sheet = match decode_sheet(data) {
            Ok(s) => s,
            Err(e) => {
                return Err(e);
            },
        };
        proof {
            assert forall|s0: Sheet|
                (#[trigger] crate::codec::sheet_doc_hyp(data@, s0)) && templates_ok(
                    s0.strokes@,
                    templates@,
                ) && templates_ok(s0.strokes_trash@, templates@) && templates_ok(
                    s0.selection.strokes@,
                    templates@,
                ) implies templates_ok(sheet.strokes@, templates@) && templates_ok(
                sheet.strokes_trash@,
                templates@,
            ) && templates_ok(sheet.selection.strokes@, templates@) by {
                lemma_templates_ok_like(sheet.strokes@, s0.strokes@, templates@);
                lemma_templates_ok_like(sheet.strokes_trash@, s0.strokes_trash@, templates@);
                lemma_templates_ok_like(
                    sheet.selection.strokes@,
                    s0.selection.strokes@,
                    templates@,
                );
            }
        }
        match register_custom_templates(&sheet.strokes, templates) {
            Ok(()) => {},
            Err(_) => {
                return Err(
                    DecodeError::new(
                        Option::Some(FieldId::Strokes),
                        DecodeReason::UnknownTemplate,
                    ),
                );
            },
        }
        match register_custom_templates(&sheet.strokes_trash, templates) {
            Ok(()) => {},
            Err(_) => {
                return Err(
                    DecodeError::new(
                        Option::Some(FieldId::StrokesTrash),
                        DecodeReason::UnknownTemplate,
                    ),
                );
            },
        }
        match register_custom_templates(&sheet.selection.strokes, templates) {
            Ok(()) => {},
            Err(_) => {
                return Err(
                    DecodeError::new(
                        Option::Some(FieldId::SelectionField),
                        DecodeReason::UnknownTemplate,
                    ),
                );
            },
        }
        let ghost dec = sheet;
        complete_all_strokes(&mut sheet.strokes);
        complete_all_strokes(&mut sheet.strokes_trash);
        complete_all_strokes(&mut sheet.selection.strokes);
        proof {
            assert(strokes_all_wf(sheet.strokes@));
            assert(strokes_all_wf(sheet.strokes_trash@));
            assert(strokes_all_wf(sheet.selection.strokes@));
        }
        *self = sheet;
        proof {
            assert(open_sheet_post(dec, *self, data@, templates@));
        }
        Ok(())
    }

    /// Serializes the sheet for saving, provided the target file is of
    /// the native kind; any other kind is refused.
    pub fn save_sheet(&self, file_type: FileType) -> (r: Result<Vec<u8>, ExportError>)
        ensures
            file_type == FileType::RnoteFile <==> r is Ok,
            r matches Ok(b) ==> b@ == enc_sheet(*self),
    {
        match file_type {
            FileType::RnoteFile => Ok(encode_sheet(self)),
            _ => Err(ExportError::InvalidFileType),
        }
    }

    /// The exported document: every live stroke's fragment in draw
    /// order, wrapped in a root whose view box equals the sheet bounds.
    pub open spec fn spec_export_svg(self) -> Seq<u8> {
        spec_wrap_svg(svg_fragments(self.strokes@), self.spec_sheet_bounds())
    }

    /// Exports the sheet as one SVG document.
    pub fn export_sheet_as_svg(&self) -> (r: Vec<u8>)
        requires
            self.wf(),
            0 <= self.width,
            0 <= self.height,
        ensures
            r@ == self.spec_export_svg(),
    {
        let mut data: Vec<u8> = Vec::new();
        let n = self.strokes.len();
        let mut i: usize = 0;
        proof {
            assert(svg_fragments(self.strokes@.take(0)) =~= Seq::<u8>::empty());
            assert(data@ =~= svg_fragments(self.strokes@.take(0)));
        }
        while i < n
            invariant
                0 <= i <= n,
                n == self.strokes@.len(),
                strokes_all_wf(self.strokes@),
                data@ == svg_fragments(self.strokes@.take(i as int)),
            decreases n - i,
        {
            let mut frag = self.strokes[i].gen_svg_data(Vector2 { x: 0, y: 0 });
            data.append(&mut frag);
            proof {
                let t1 = self.strokes@.take(i as int + 1);
                assert(t1.drop_last() =~= self.strokes@.take(i as int));
                assert(t1.last() == self.strokes@[i as int]);
            }
            i += 1;
        }
        proof {
            assert(self.strokes@.take(n as int) =~= self.strokes@);
        }
        let bounds = Aabb {
            mins: Vector2 { x: self.x as i64, y: self.y as i64 },
            maxs: Vector2 {
                x: self.x as i64 + self.width as i64,
                y: self.y as i64 + self.height as i64,
            },
        };
        proof {
            assert(bounds == self.spec_sheet_bounds());
        }
        wrap_svg(&data, &bounds)
    }

    /// Imports raw vector-image text as a stroke placed at `pos`: the
    /// selection is flushed back onto the sheet first, then the image
    /// becomes the new selection, for the user to place.
    pub fn import_file_as_svg(&mut self, pos: Vector2, svg: Vec<u8>, intrinsic_size: Vector2) -> (r:
        Result<(), ImportError>)
        requires
            old(self).wf(),
            pos.wf(),
        ensures
            final(self).wf(),
            final(self).strokes@ == old(self).strokes@ + old(self).selection.strokes@,
            final(self).strokes_trash@ == old(self).strokes_trash@,
            frame_fields_eq(*final(self), *old(self)),
            final(self).height == old(self).height,
            r is Ok <==> (1 <= intrinsic_size.x && 1 <= intrinsic_size.y && intrinsic_size.x
                <= MAX_COORD && intrinsic_size.y <= MAX_COORD && pos.x + intrinsic_size.x
                <= MAX_COORD && pos.y + intrinsic_size.y <= MAX_COORD),
            r is Ok ==> final(self).selection.strokes@.len() == 1 && (final(self).selection.strokes@[0] matches StrokeStyle::VectorImage(v) && v.data_svg@ == svg@
                && v.pos == pos && v.intrinsic_size == intrinsic_size && v.wf()),
            r is Err ==> final(self).selection.strokes@.len() == 0,
    {
        let mut moved = self.selection.remove_strokes();
        self.strokes.append(&mut moved);
        proof {
            lemma_concat_wf(old(self).strokes@, old(self).selection.strokes@);
        }
        if !(intrinsic_size.x >= 1 && intrinsic_size.y >= 1 && intrinsic_size.x <= MAX_COORD
            && intrinsic_size.y <= MAX_COORD && pos.x <= MAX_COORD - intrinsic_size.x && pos.y
            <= MAX_COORD - intrinsic_size.y) {
            return Err(ImportError::Geometry);
        }
        let bounds = Aabb {
            mins: pos,
            maxs: Vector2 { x: pos.x + intrinsic_size.x, y: pos.y + intrinsic_size.y },
        };
        let image = VectorImage {
            data_svg: svg,
            bounds,
            intrinsic_size,
            pos,
            rendernode: RenderNode::empty(),
        };
        self.selection.push_to_selection(StrokeStyle::VectorImage(image));
        Ok(())
    }

    /// Imports raster-image bytes as a stroke placed at `pos`, exactly
    /// like the vector import.
    pub fn import_file_as_bitmapimage(
        &mut self,
        pos: Vector2,
        data: Vec<u8>,
        format: ImageFormat,
        intrinsic_size: Vector2,
    ) -> (r: Result<(), ImportError>)
        requires
            old(self).wf(),
            pos.wf(),
        ensures
            final(self).wf(),
            final(self).strokes@ == old(self).strokes@ + old(self).selection.strokes@,
            final(self).strokes_trash@ == old(self).strokes_trash@,
            frame_fields_eq(*final(self), *old(self)),
            final(self).height == old(self).height,
            r is Ok <==> (1 <= intrinsic_size.x && 1 <= intrinsic_size.y && intrinsic_size.x
                <= MAX_COORD && intrinsic_size.y <= MAX_COORD && pos.x + intrinsic_size.x
                <= MAX_COORD && pos.y + intrinsic_size.y <= MAX_COORD),
            r is Ok ==> final(self).selection.strokes@.len() == 1 && (final(self).selection.strokes@[0] matches StrokeStyle::BitmapImage(b) && b.data@ == data@
                && b.format == format && b.pos == pos && b.intrinsic_size == intrinsic_size
                && b.wf()),
            r is Err ==> final(self).selection.strokes@.len() == 0,
    {
        let mut moved = self.selection.remove_strokes();
        self.strokes.append(&mut moved);
        proof {
            lemma_concat_wf(old(self).strokes@, old(self).selection.strokes@);
        }
        if !(intrinsic_size.x >= 1 && intrinsic_size.y >= 1 && intrinsic_size.x <= MAX_COORD
            && intrinsic_size.y <= MAX_COORD && pos.x <= MAX_COORD - intrinsic_size.x && pos.y
            <= MAX_COORD - intrinsic_size.y) {
            return Err(ImportError::Geometry);
        }
        let bounds = Aabb {
            mins: pos,
            maxs: Vector2 { x: pos.x + intrinsic_size.x, y: pos.y + intrinsic_size.y },
        };
        let image = BitmapImage {
            data,
            format,
            bounds,
            intrinsic_size,
            pos,
            rendernode: RenderNode::empty(),
        };
        self.selection.push_to_selection(StrokeStyle::BitmapImage(image));
        Ok(())
    }
}

/// The fragments of the live strokes, concatenated in draw order.
pub open spec fn svg_fragments(ss: Seq<StrokeStyle>) -> Seq<u8>
    decreases ss.len(),
{
    if ss.len() == 0 {
        Seq::empty()
    } else {
        svg_fragments(ss.drop_last()) + spec_svg_fragment(
            ss.last(),
            Vector2 { x: 0, y: 0 },
        )
    }
}

/// The sheet fields the imports leave untouched.
pub open spec fn frame_fields_eq(a: Sheet, b: Sheet) -> bool {
    &&& a.format == b.format
    &&& a.background == b.background
    &&& a.x == b.x
    &&& a.y == b.y
    &&& a.width == b.width
    &&& a.autoexpand_height == b.autoexpand_height
    &&& a.format_borders == b.format_borders
    &&& a.padding_bottom == b.padding_bottom
}

/// Joining two lists of well-formed strokes gives one.
proof fn lemma_concat_wf(a: Seq<StrokeStyle>, b: Seq<StrokeStyle>)
    requires
        strokes_all_wf(a),
        strokes_all_wf(b),
    ensures
        strokes_all_wf(a + b),
{
    assert forall|i: int| 0 <= i < (a + b).len() implies (#[trigger] (a + b)[i]).wf() by {
        if i < a.len() {
            assert((a + b)[i] == a[i]);
        } else {
            assert((a + b)[i] == b[i - a.len()]);
        }
    }
}

} // verus!
