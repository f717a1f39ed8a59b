//! The sheet: the one scrollable document holding all strokes, the
//! trash used for undo, the selection, page format and background, and
//! the layout rules that grow the sheet to fit its strokes.

use vstd::prelude::*;

use crate::background::Background;
use crate::format::Format;
use crate::geometry::Aabb;
use crate::geometry::Vector2;
use crate::input::{lemma_div_bounds, muldiv_tz, spec_muldiv_tz, SCALE_MAX, SCALE_MIN};
use crate::pens::Eraser;
use crate::render::{scale_aabb, spec_scale_aabb, Color, DrawCommand};
use crate::selection::Selection;
use crate::strokes::{strokes_all_wf, StrokeStyle};

verus! {

/// Width of the sheet's drop shadow, in pixels before zoom.
pub const SHADOW_WIDTH: i64 = 15;

pub const I32_MAX: i64 = 0x7fff_ffff;

pub const I32_MIN: i64 = -0x8000_0000;

pub struct Sheet {
    pub strokes: Vec<StrokeStyle>,
    pub strokes_trash: Vec<StrokeStyle>,
    pub selection: Selection,
    pub format: Format,
    pub background: Background,
    pub x: i32,
    pub y: i32,
    pub width: i32,
    pub height: i32,
    pub autoexpand_height: bool,
    pub format_borders: bool,
    pub padding_bottom: i32,
}

/// Clamping into the range of `i32`, as the stored height must fit it.
pub open spec fn clamp_i32(v: int) -> int {
    if v < I32_MIN {
        I32_MIN as int
    } else if v > I32_MAX {
        I32_MAX as int
    } else {
        v
    }
}

/// The lowest bottom edge over a non-empty stroke list.
pub open spec fn max_maxs_y(ss: Seq<StrokeStyle>) -> int
    recommends
        ss.len() >= 1,
    decreases ss.len(),
{
    if ss.len() <= 1 {
        ss[0].spec_bounds().maxs.y as int
    } else {
        let rest = max_maxs_y(ss.drop_last());
        let last = ss.last().spec_bounds().maxs.y as int;
        if last >= rest {
            last
        } else {
            rest
        }
    }
}

/// What the sheet's height should be: the page height for an empty
/// sheet, else the lowest stroke bottom plus the bottom padding, and
/// never less than one page.
pub open spec fn spec_calc_height(ss: Seq<StrokeStyle>, format: Format, padding: int) -> int {
    if ss.len() == 0 {
        format.height as int
    } else {
        let grown = clamp_i32(max_maxs_y(ss) + padding);
        if grown >= format.height {
            grown
        } else {
            format.height as int
        }
    }
}

/// Division rounding up, for positive divisors.
pub open spec fn ceil_div(a: int, b: int) -> int
    recommends
        b > 0,
{
    if a >= 0 {
        (a + b - 1) / b
    } else {
        -((-a) / b)
    }
}

/// The height snapped up to the nearest multiple of the page height that
/// covers the computed height.
pub open spec fn spec_fit_height(ss: Seq<StrokeStyle>, format: Format, padding: int) -> int {
    clamp_i32(ceil_div(spec_calc_height(ss, format, padding), format.height as int) * (
    format.height as int))
}

/// The sheet after an auto-resize: with autoexpand on the height becomes
/// the computed height; otherwise nothing changes.
pub open spec fn spec_resized(s: Sheet) -> Sheet {
    if s.autoexpand_height {
        Sheet {
            height: spec_calc_height(s.strokes@, s.format, s.padding_bottom as int) as i32,
            ..s
        }
    } else {
        s
    }
}

/// Whether an auto-resize changes the height, so the host must relayout.
pub open spec fn spec_resize_flag(s: Sheet) -> bool {
    s.autoexpand_height && spec_calc_height(s.strokes@, s.format, s.padding_bottom as int)
        != s.height as int
}

/// The frame fields no stroke operation touches.
pub open spec fn frame_eq(a: Sheet, b: Sheet) -> bool {
    &&& a.format == b.format
    &&& a.background == b.background
    &&& a.x == b.x
    &&& a.y == b.y
    &&& a.width == b.width
    &&& a.autoexpand_height == b.autoexpand_height
    &&& a.format_borders == b.format_borders
    &&& a.padding_bottom == b.padding_bottom
}

/// The square box the eraser covers at its current position.
pub open spec fn spec_eraser_box(e: Eraser) -> Aabb {
    e.spec_box()
}

/// The predicate picking strokes the eraser box hits.
pub open spec fn hit_pred(b: Aabb) -> spec_fn(StrokeStyle) -> bool {
    |s: StrokeStyle| s.spec_hit(b)
}

/// The predicate keeping strokes the eraser box misses.
pub open spec fn keep_pred(b: Aabb) -> spec_fn(StrokeStyle) -> bool {
    |s: StrokeStyle| !s.spec_hit(b)
}

/// The drop-shadow command for the given sheet bounds, scaled.
pub open spec fn spec_shadow_cmd(bounds: Aabb, width: int, scale: int) -> DrawCommand {
    DrawCommand::Shadow {
        bounds: spec_scale_aabb(bounds, scale),
        width: spec_muldiv_tz(width, scale, 1000) as i64,
        color: Color { r: 0, g: 0, b: 0, a: 128 },
    }
}

/// Sequential removal by index, skipping indices that are out of range
/// at their turn.
pub open spec fn spec_remove_indices(ss: Seq<StrokeStyle>, idx: Seq<usize>) -> Seq<StrokeStyle>
    decreases idx.len(),
{
    if idx.len() == 0 {
        ss
    } else {
        spec_remove_indices(
            if (idx[0] as int) < ss.len() {
                ss.remove(idx[0] as int)
            } else {
                ss
            },
            idx.skip(1),
        )
    }
}

/// Filtering keeps only members, so well-formedness survives it.
pub proof fn lemma_filter_wf(ss: Seq<StrokeStyle>, p: spec_fn(StrokeStyle) -> bool)
    requires
        strokes_all_wf(ss),
    ensures
        strokes_all_wf(ss.filter(p)),
    decreases ss.len(),
{
    reveal(Seq::filter);
    if ss.len() > 0 {
        assert(strokes_all_wf(ss.drop_last())) by {
            assert(forall|i: int|
                0 <= i < ss.len() - 1 ==> ss.drop_last()[i] == #[trigger] ss[i]);
        }
        lemma_filter_wf(ss.drop_last(), p);
        let sub = ss.drop_last().filter(p);
        if p(ss.last()) {
            assert forall|i: int| 0 <= i < ss.filter(p).len() implies (
            #[trigger] ss.filter(p)[i]).wf() by {
                if i < sub.len() {
                    assert(ss.filter(p)[i] == sub[i]);
                } else {
                    assert(ss.filter(p)[i] == ss.last());
                }
            }
        }
    }
}

impl Sheet {
    /// A sheet is well-formed when its format is sane and every stroke
    /// in each of the three homes carries consistent in-range geometry.
    pub open spec fn wf(self) -> bool {
        &&& self.format.wf()
        &&& strokes_all_wf(self.strokes@)
        &&& strokes_all_wf(self.strokes_trash@)
        &&& strokes_all_wf(self.selection.strokes@)
    }

    /// A fresh sheet: one empty page in the default format.
    pub fn new() -> (r: Sheet)
        ensures
            r.strokes@.len() == 0,
            r.strokes_trash@.len() == 0,
            r.selection.strokes@.len() == 0,
            r.selection.bounds is None,
            r.selection.shown == false,
            r.format == (Format { width: 1240i32, height: 1754i32, dpi: 96i32 }),
            r.background == Background::spec_default(),
            r.x == 0,
            r.y == 0,
            r.width == 1240,
            r.height == 1754,
            r.autoexpand_height == true,
            r.format_borders == true,
            r.padding_bottom == 3508,
            r.wf(),
    {
        let format = Format::default();
        Sheet {
            strokes: Vec::new(),
            strokes_trash: Vec::new(),
            selection: Selection::new(),
            format,
            background: Background::default(),
            x: 0,
            y: 0,
            width: 1240,
            height: 1754,
            autoexpand_height: true,
            format_borders: true,
            padding_bottom: 3508,
        }
    }

    pub fn strokes(&self) -> (r: &Vec<StrokeStyle>)
        ensures
            r@ == self.strokes@,
    {
        &self.strokes
    }

    pub fn strokes_trash(&self) -> (r: &Vec<StrokeStyle>)
        ensures
            r@ == self.strokes_trash@,
    {
        &self.strokes_trash
    }

    pub fn selection(&self) -> (r: &Selection)
        ensures
            r == &self.selection,
    {
        &self.selection
    }

    pub fn x(&self) -> (r: i32)
        ensures
            r == self.x,
    {
        self.x
    }

    pub fn set_x(&mut self, x: i32)
        ensures
            *final(self) == (Sheet { x, ..*old(self) }),
    {
        self.x = x;
    }

    pub fn y(&self) -> (r: i32)
        ensures
            r == self.y,
    {
        self.y
    }

    pub fn set_y(&mut self, y: i32)
        ensures
            *final(self) == (Sheet { y, ..*old(self) }),
    {
        self.y = y;
    }

    pub fn width(&self) -> (r: i32)
        ensures
            r == self.width,
    {
        self.width
    }

    pub fn set_width(&mut self, width: i32)
        ensures
            *final(self) == (Sheet { width, ..*old(self) }),
    {
        self.width = width;
    }

    pub fn height(&self) -> (r: i32)
        ensures
            r == self.height,
    {
        self.height
    }

    pub fn set_height(&mut self, height: i32)
        ensures
            *final(self) == (Sheet { height, ..*old(self) }),
    {
        self.height = height;
    }

    pub fn autoexpand_height(&self) -> (r: bool)
        ensures
            r == self.autoexpand_height,
    {
        self.autoexpand_height
    }

    pub fn format(&self) -> (r: Format)
        ensures
            r == self.format,
    {
        self.format
    }

    pub fn format_borders(&self) -> (r: bool)
        ensures
            r == self.format_borders,
    {
        self.format_borders
    }

    pub fn set_format_borders(&mut self, format_borders: bool)
        ensures
            *final(self) == (Sheet { format_borders, ..*old(self) }),
    {
        self.format_borders = format_borders;
    }

    pub fn padding_bottom(&self) -> (r: i32)
        ensures
            r == self.padding_bottom,
    {
        self.padding_bottom
    }

    pub fn set_padding_bottom(&mut self, padding_bottom: i32)
        ensures
            *final(self) == (Sheet { padding_bottom, ..*old(self) }),
    {
        self.padding_bottom = padding_bottom;
    }

    pub fn background(&self) -> (r: &Background)
        ensures
            r == &self.background,
    {
        &self.background
    }

    /// The height the sheet should have right now.
    pub fn calc_height(&self) -> (r: i32)
        requires
            self.wf(),
        ensures
            r as int == spec_calc_height(self.strokes@, self.format, self.padding_bottom as int),
    {
        let n = self.strokes.len();
        if n == 0 {
            return self.format.height;
        }
        let mut m: i64 = self.strokes[0].bounds().maxs.y;
        proof {
            crate::strokes::lemma_stroke_bounds_wf(self.strokes@[0]);
            assert(self.strokes@.take(1) =~= seq![self.strokes@[0]]);
        }
        let mut i: usize = 1;
        while i < n
            invariant
                1 <= i <= n,
                n == self.strokes@.len(),
                strokes_all_wf(self.strokes@),
                m == max_maxs_y(self.strokes@.take(i as int)),
                -0x4000_0000_0000 <= m <= 0x4000_0000_0000,
            decreases n - i,
        {
            let b = self.strokes[i].bounds();
            proof {
                crate::strokes::lemma_stroke_bounds_wf(self.strokes@[i as int]);
                assert(self.strokes@.take(i as int + 1).drop_last() =~= self.strokes@.take(
                    i as int,
                ));
            }
            if b.maxs.y > m {
                m = b.maxs.y;
            }
            i += 1;
        }
        proof {
            assert(self.strokes@.take(n as int) =~= self.strokes@);
        }
        let total: i64 = m + (self.padding_bottom as i64);
        let grown: i32 = if total > I32_MAX {
            I32_MAX as i32
        } else if total < I32_MIN {
            I32_MIN as i32
        } else {
            total as i32
        };
        if grown >= self.format.height {
            grown
        } else {
            self.format.height
        }
    }

    /// Grows or shrinks the sheet to the computed height when autoexpand
    /// is on; reports whether the height changed.
    pub fn resize(&mut self) -> (r: bool)
        requires
            old(self).wf(),
        ensures
            *final(self) == spec_resized(*old(self)),
            r == spec_resize_flag(*old(self)),
            final(self).wf(),
    {
        if !self.autoexpand_height {
            return false;
        }
        let new_height = self.calc_height();
        if new_height != self.height {
            self.height = new_height;
            true
        } else {
            false
        }
    }

    /// Snaps the height up to the nearest page multiple covering the
    /// computed height; used when autoexpand turns off.
    pub fn fit_to_format(&mut self)
        requires
            old(self).wf(),
        ensures
            *final(self) == (Sheet {
                height: spec_fit_height(
                    old(self).strokes@,
                    old(self).format,
                    old(self).padding_bottom as int,
                ) as i32,
                ..*old(self)
            }),
            final(self).wf(),
    {
        let new_height = self.calc_height();
        let fh: i64 = self.format.height as i64;
        let q: i64 = ceil_div_exec(new_height as i64, fh);
        proof {
            if new_height >= 0 {
                lemma_div_bounds(new_height as int + fh - 1, fh as int);
                assert(q * fh <= new_height + fh - 1) by (nonlinear_arith)
                    requires
                        q == (new_height as int + fh - 1) / (fh as int),
                        fh > 0,
                        ((new_height as int + fh - 1) / (fh as int)) * fh <= new_height as int + fh
                            - 1,
                ;
                assert(q >= 0);
            } else {
                lemma_div_bounds(-(new_height as int), fh as int);
                assert(0 >= q && -q <= -(new_height as int)) by (nonlinear_arith)
                    requires
                        q == -((-(new_height as int)) / (fh as int)),
                        fh > 0,
                        0 <= (-(new_height as int)) / (fh as int) <= -(new_height as int),
                ;
                assert(-(q * fh) == (-q) * fh) by (nonlinear_arith);
                assert((-q) * fh <= 0x2_0000_0000 * 0x2000_0000) by (nonlinear_arith)
                    requires
                        0 <= -q <= 0x2_0000_0000,
                        0 < fh <= 0x2000_0000,
                ;
            }
            assert(q * fh <= 0x2_0000_0000 * 0x2000_0000) by (nonlinear_arith)
                requires
                    q <= 0x2_0000_0000,
                    0 < fh <= 0x2000_0000,
            ;
            assert(-(0x2_0000_0000 * 0x2000_0000) <= q * fh) by (nonlinear_arith)
                requires
                    -0x2_0000_0000 <= q,
                    0 < fh <= 0x2000_0000,
            ;
        }
        let prod: i64 = q * fh;
        let clamped: i32 = if prod > I32_MAX {
            I32_MAX as i32
        } else if prod < I32_MIN {
            I32_MIN as i32
        } else {
            prod as i32
        };
        self.height = clamped;
    }

    /// Turns autoexpand on or off: on restores the double-page padding
    /// and resizes; off drops the padding and snaps to page multiples.
    pub fn set_autoexpand_height(&mut self, autoexpand_height: bool)
        requires
            old(self).wf(),
        ensures
            final(self).autoexpand_height == autoexpand_height,
            final(self).padding_bottom as int == (if autoexpand_height {
                2 * old(self).format.height as int
            } else {
                0
            }),
            final(self).strokes@ == old(self).strokes@,
            final(self).strokes_trash@ == old(self).strokes_trash@,
            final(self).selection == old(self).selection,
            final(self).format == old(self).format,
            final(self).background == old(self).background,
            final(self).x == old(self).x,
            final(self).y == old(self).y,
            final(self).width == old(self).width,
            final(self).format_borders == old(self).format_borders,
            final(self).height as int == (if autoexpand_height {
                spec_calc_height(old(self).strokes@, old(self).format, 2 * old(
                    self,
                ).format.height as int)
            } else {
                spec_fit_height(old(self).strokes@, old(self).format, 0)
            }),
            final(self).wf(),
    {
        self.autoexpand_height = autoexpand_height;
        if autoexpand_height {
            self.padding_bottom = 2 * self.format.height;
            self.resize();
        } else {
            self.padding_bottom = 0;
            self.fit_to_format();
        }
    }

    /// Empties all three stroke homes and restores the default layout of
    /// the active autoexpand mode; the height falls back to one page.
    pub fn clear(&mut self)
        requires
            old(self).wf(),
        ensures
            final(self).strokes@.len() == 0,
            final(self).strokes_trash@.len() == 0,
            final(self).selection.strokes@.len() == 0,
            final(self).selection.bounds is None,
            final(self).selection.shown == old(self).selection.shown,
            final(self).format == old(self).format,
            final(self).background == old(self).background,
            final(self).x == old(self).x,
            final(self).y == old(self).y,
            final(self).width == old(self).width,
            final(self).autoexpand_height == old(self).autoexpand_height,
            final(self).format_borders == old(self).format_borders,
            final(self).padding_bottom as int == (if old(self).autoexpand_height {
                2 * old(self).format.height as int
            } else {
                0
            }),
            final(self).height == old(self).format.height,
            final(self).wf(),
    {
        self.strokes = Vec::new();
        self.strokes_trash = Vec::new();
        self.selection.strokes = Vec::new();
        self.selection.bounds = Option::None;
        if self.autoexpand_height {
            self.padding_bottom = 2 * self.format.height;
            self.resize();
        } else {
            self.padding_bottom = 0;
            self.fit_to_format();
            proof {
                let fh = self.format.height as int;
                lemma_div_bounds(2 * fh - 1, fh);
                assert(ceil_div(fh, fh) == 1) by {
                    let q = (2 * fh - 1) / fh;
                    assert(q * fh <= 2 * fh - 1 && 2 * fh - 1 < q * fh + fh);
                    assert(q == 1) by (nonlinear_arith)
                        requires
                            q * fh <= 2 * fh - 1,
                            2 * fh - 1 < q * fh + fh,
                            fh > 0,
                    ;
                }
                assert(1 * fh == fh) by (nonlinear_arith);
            }
        }
    }

    /// Replaces the page format `(width, height, dpi)`, resets the sheet
    /// extent to one page of it, and resizes.
    pub fn change_format(&mut self, format_tuple: (i32, i32, i32))
        requires
            old(self).wf(),
            0 < format_tuple.0 <= crate::format::FORMAT_SIZE_MAX,
            0 < format_tuple.1 <= crate::format::FORMAT_SIZE_MAX,
            0 < format_tuple.2 <= crate::format::FORMAT_DPI_MAX,
        ensures
            final(self).format == (Format {
                width: format_tuple.0,
                height: format_tuple.1,
                dpi: format_tuple.2,
            }),
            final(self).width == format_tuple.0,
            final(self).padding_bottom as int == 2 * format_tuple.1 as int,
            final(self).strokes@ == old(self).strokes@,
            final(self).strokes_trash@ == old(self).strokes_trash@,
            final(self).selection == old(self).selection,
            final(self).background == old(self).background,
            final(self).x == old(self).x,
            final(self).y == old(self).y,
            final(self).autoexpand_height == old(self).autoexpand_height,
            final(self).format_borders == old(self).format_borders,
            final(self).height as int == (if old(self).autoexpand_height {
                spec_calc_height(
                    old(self).strokes@,
                    Format { width: format_tuple.0, height: format_tuple.1, dpi: format_tuple.2 },
                    2 * format_tuple.1 as int,
                )
            } else {
                format_tuple.1 as int
            }),
            final(self).wf(),
    {
        self.format = Format { width: format_tuple.0, height: format_tuple.1, dpi: format_tuple.2 };
        self.width = format_tuple.0;
        self.height = format_tuple.1;
        self.padding_bottom = 2 * format_tuple.1;
        self.resize();
    }

    /// Moves the last stroke onto the trash and resizes; reports whether
    /// the host must relayout. Undoing an empty sheet is a no-op.
    pub fn undo_last_stroke(&mut self) -> (r: bool)
        requires
            old(self).wf(),
        ensures
            old(self).strokes@.len() == 0 ==> final(self).strokes@ == old(self).strokes@
                && final(self).strokes_trash@ == old(self).strokes_trash@,
            old(self).strokes@.len() > 0 ==> final(self).strokes@ == old(self).strokes@.drop_last()
                && final(self).strokes_trash@ == old(self).strokes_trash@.push(
                old(self).strokes@.last(),
            ),
            final(self).selection == old(self).selection,
            frame_eq(*final(self), *old(self)),
            final(self).height as int == (if old(self).autoexpand_height {
                spec_calc_height(
                    final(self).strokes@,
                    old(self).format,
                    old(self).padding_bottom as int,
                )
            } else {
                old(self).height as int
            }),
            r == (old(self).autoexpand_height && spec_calc_height(
                final(self).strokes@,
                old(self).format,
                old(self).padding_bottom as int,
            ) != old(self).height as int),
            final(self).wf(),
    {
        let popped = self.strokes.pop();
        match popped {
            Option::Some(s) => {
                proof {
                    assert(old(self).strokes@.last().wf());
                }
                self.strokes_trash.push(s);
            },
            Option::None => {},
        }
        self.resize()
    }

    /// Moves the last trashed stroke back onto the sheet and resizes;
    /// reports whether the host must relayout.
    pub fn redo_last_stroke(&mut self) -> (r: bool)
        requires
            old(self).wf(),
        ensures
            old(self).strokes_trash@.len() == 0 ==> final(self).strokes@ == old(self).strokes@
                && final(self).strokes_trash@ == old(self).strokes_trash@,
            old(self).strokes_trash@.len() > 0 ==> final(self).strokes_trash@ == old(
                self,
            ).strokes_trash@.drop_last() && final(self).strokes@ == old(self).strokes@.push(
                old(self).strokes_trash@.last(),
            ),
            final(self).selection == old(self).selection,
            frame_eq(*final(self), *old(self)),
            final(self).height as int == (if old(self).autoexpand_height {
                spec_calc_height(
                    final(self).strokes@,
                    old(self).format,
                    old(self).padding_bottom as int,
                )
            } else {
                old(self).height as int
            }),
            r == (old(self).autoexpand_height && spec_calc_height(
                final(self).strokes@,
                old(self).format,
                old(self).padding_bottom as int,
            ) != old(self).height as int),
            final(self).wf(),
    {
        let popped = self.strokes_trash.pop();
        match popped {
            Option::Some(s) => {
                proof {
                    assert(old(self).strokes_trash@.last().wf());
                }
                self.strokes.push(s);
            },
            Option::None => {},
        }
        self.resize()
    }

    /// Erases by collision: every stroke the eraser box hits moves to the
    /// trash, in order; then the sheet resizes. Reports whether the host
    /// must relayout.
    pub fn remove_colliding_strokes(&mut self, eraser: &Eraser) -> (r: bool)
        requires
            old(self).wf(),
            eraser.wf(),
        ensures
            final(self).strokes@ == old(self).strokes@.filter(keep_pred(spec_eraser_box(*eraser))),
            final(self).strokes_trash@ == old(self).strokes_trash@ + old(self).strokes@.filter(
                hit_pred(spec_eraser_box(*eraser)),
            ),
            final(self).selection == old(self).selection,
            frame_eq(*final(self), *old(self)),
            final(self).height as int == (if old(self).autoexpand_height {
                spec_calc_height(
                    final(self).strokes@,
                    old(self).format,
                    old(self).padding_bottom as int,
                )
            } else {
                old(self).height as int
            }),
            r == (old(self).autoexpand_height && spec_calc_height(
                final(self).strokes@,
                old(self).format,
                old(self).padding_bottom as int,
            ) != old(self).height as int),
            final(self).wf(),
    {
        let w2: i64 = (eraser.width / 2) as i64;
        let ex = eraser.current_input.pos.x;
        let ey = eraser.current_input.pos.y;
        let eraser_bounds = Aabb {
            mins: Vector2 { x: ex - w2, y: ey - w2 },
            maxs: Vector2 { x: ex + w2, y: ey + w2 },
        };
        proof {
            assert(eraser_bounds == spec_eraser_box(*eraser));
        }
        let ghost hitp = hit_pred(spec_eraser_box(*eraser));
        let ghost keepp = keep_pred(spec_eraser_box(*eraser));
        let ghost orig = self.strokes@;
        let mut kept: Vec<StrokeStyle> = Vec::new();
        let mut removed: Vec<StrokeStyle> = Vec::new();
        let ghost mut j: int = 0;
        let ghost n = orig.len();
        proof {
            assert(orig.take(0) =~= Seq::<StrokeStyle>::empty());
        }
        while self.strokes.len() > 0
            invariant
                0 <= j <= n,
                n == orig.len(),
                self.strokes@ == orig.skip(j),
                hitp == hit_pred(spec_eraser_box(*eraser)),
                keepp == keep_pred(spec_eraser_box(*eraser)),
                eraser_bounds == spec_eraser_box(*eraser),
                kept@ == orig.take(j).filter(keepp),
                removed@ == orig.take(j).filter(hitp),
                self.strokes_trash@ == old(self).strokes_trash@,
                self.selection == old(self).selection,
                frame_eq(*self, *old(self)),
                self.height == old(self).height,
                self.format == old(self).format,
                strokes_all_wf(orig),
                strokes_all_wf(self.strokes_trash@),
                strokes_all_wf(self.selection.strokes@),
                self.format.wf(),
            decreases self.strokes@.len(),
        {
            let s = self.strokes.remove(0);
            proof {
                assert(orig.skip(j)[0] == orig[j]);
                assert(self.strokes@ =~= orig.skip(j + 1));
                assert(0 <= j < orig.len());
            }
            let hit = s.collides_with(&eraser_bounds);
            if hit {
                removed.push(s);
            } else {
                kept.push(s);
            }
            proof {
                let t1 = orig.take(j + 1);
                assert(t1.drop_last() =~= orig.take(j));
                assert(t1.last() == orig[j]);
                reveal(Seq::filter);
                assert(t1.filter(keepp) == if keepp(orig[j]) {
                    orig.take(j).filter(keepp).push(orig[j])
                } else {
                    orig.take(j).filter(keepp)
                });
                assert(t1.filter(hitp) == if hitp(orig[j]) {
                    orig.take(j).filter(hitp).push(orig[j])
                } else {
                    orig.take(j).filter(hitp)
                });
                j = j + 1;
            }
        }
        proof {
            assert(j == n);
            assert(orig.take(n as int) =~= orig);
            assert(self.strokes@ =~= orig.skip(n as int));
        }
        self.strokes = kept;
        self.strokes_trash.append(&mut removed);
        proof {
            lemma_filter_wf(orig, keepp);
            lemma_filter_wf(orig, hitp);
            assert forall|i0: int|
                0 <= i0 < self.strokes_trash@.len() implies (
            #[trigger] self.strokes_trash@[i0]).wf() by {
                if i0 < old(self).strokes_trash@.len() {
                    assert(old(self).strokes_trash@[i0].wf());
                } else {
                    assert(self.strokes_trash@[i0] == orig.filter(hitp)[i0 - old(
                        self,
                    ).strokes_trash@.len()]);
                }
            }
        }
        self.resize()
    }

    /// Removes the strokes at the given indices, one at a time in the
    /// given order; an out-of-range index is skipped.
    pub fn remove_strokes(&mut self, indices: Vec<usize>)
        requires
            old(self).wf(),
        ensures
            final(self).strokes@ == spec_remove_indices(old(self).strokes@, indices@),
            final(self).strokes_trash@ == old(self).strokes_trash@,
            final(self).selection == old(self).selection,
            frame_eq(*final(self), *old(self)),
            final(self).height == old(self).height,
            final(self).wf(),
    {
        let n = indices.len();
        let mut k: usize = 0;
        proof {
            assert(indices@.skip(0) =~= indices@);
        }
        while k < n
            invariant
                0 <= k <= n,
                n == indices@.len(),
                spec_remove_indices(old(self).strokes@, indices@) == spec_remove_indices(
                    self.strokes@,
                    indices@.skip(k as int),
                ),
                self.strokes_trash@ == old(self).strokes_trash@,
                self.selection == old(self).selection,
                frame_eq(*self, *old(self)),
                self.height == old(self).height,
                strokes_all_wf(self.strokes@),
                strokes_all_wf(self.strokes_trash@),
                strokes_all_wf(self.selection.strokes@),
                self.format.wf(),
            decreases n - k,
        {
            let i = indices[k];
            proof {
                assert(indices@.skip(k as int)[0] == indices@[k as int]);
                assert(indices@.skip(k as int).skip(1) =~= indices@.skip(k as int + 1));
            }
            if i < self.strokes.len() {
                let ghost pre = self.strokes@;
                self.strokes.remove(i);
                proof {
                    assert forall|i0: int|
                        0 <= i0 < self.strokes@.len() implies (#[trigger] self.strokes@[i0]).wf() by {
                        if i0 < i {
                            assert(self.strokes@[i0] == pre[i0]);
                        } else {
                            assert(self.strokes@[i0] == pre[i0 + 1]);
                        }
                    }
                }
            }
            k += 1;
        }
        proof {
            assert(indices@.skip(n as int) =~= Seq::<usize>::empty());
        }
    }

    /// The sheet's extent in sheet space.
    pub open spec fn spec_sheet_bounds(self) -> Aabb {
        Aabb {
            mins: Vector2 { x: self.x as i64, y: self.y as i64 },
            maxs: Vector2 {
                x: (self.x as int + self.width as int) as i64,
                y: (self.y as int + self.height as int) as i64,
            },
        }
    }

    /// Everything one draw of the sheet appends: the drop shadow, a clip
    /// around the scaled sheet, the background, the page borders when
    /// they are shown, each stroke's render node in draw order, and the
    /// closing pop.
    pub open spec fn spec_draw_cmds(self, scale: int) -> Seq<DrawCommand> {
        let sb = self.spec_sheet_bounds();
        let scaled = spec_scale_aabb(sb, scale);
        seq![spec_shadow_cmd(sb, SHADOW_WIDTH as int, scale)] + seq![
            DrawCommand::PushClip { bounds: scaled },
        ] + self.background.spec_draw_cmds(scaled) + (if self.format_borders {
            Seq::new(
                self.format.spec_num_borders(self.height as int) as nat,
                |k: int| self.format.spec_border_cmd(k + 1, scale),
            )
        } else {
            Seq::empty()
        }) + Seq::new(
            self.strokes@.len(),
            |i: int| DrawCommand::Node { node: self.strokes@[i].spec_rendernode() },
        ) + seq![DrawCommand::PopClip]
    }

    /// Appends the sheet's drop shadow, scaled to the view.
    pub fn draw_shadow(&self, bounds: &Aabb, width: i64, scale: u32, snapshot: &mut Vec<
        DrawCommand,
    >)
        requires
            -crate::input::MULDIV_MAX_IN <= bounds.mins.x <= crate::input::MULDIV_MAX_IN,
            -crate::input::MULDIV_MAX_IN <= bounds.mins.y <= crate::input::MULDIV_MAX_IN,
            -crate::input::MULDIV_MAX_IN <= bounds.maxs.x <= crate::input::MULDIV_MAX_IN,
            -crate::input::MULDIV_MAX_IN <= bounds.maxs.y <= crate::input::MULDIV_MAX_IN,
            0 <= width <= 1000,
            SCALE_MIN <= scale <= SCALE_MAX,
        ensures
            final(snapshot)@ == old(snapshot)@ + seq![
                spec_shadow_cmd(*bounds, width as int, scale as int),
            ],
    {
        let scaled_width = muldiv_tz(width, scale, 1000);
        let scaled = scale_aabb(bounds, scale);
        snapshot.push(
            DrawCommand::Shadow {
                bounds: scaled,
                width: scaled_width,
                color: Color { r: 0, g: 0, b: 0, a: 128 },
            },
        );
        proof {
            assert(snapshot@ =~= old(snapshot)@ + seq![
                spec_shadow_cmd(*bounds, width as int, scale as int),
            ]);
        }
    }

    /// Draws the whole sheet in the order the rendering contract fixes.
    pub fn draw(&self, scale: u32, snapshot: &mut Vec<DrawCommand>)
        requires
            self.wf(),
            SCALE_MIN <= scale <= SCALE_MAX,
        ensures
            final(snapshot)@ == old(snapshot)@ + self.spec_draw_cmds(scale as int),
    {
        let sb = Aabb {
            mins: Vector2 { x: self.x as i64, y: self.y as i64 },
            maxs: Vector2 {
                x: self.x as i64 + self.width as i64,
                y: self.y as i64 + self.height as i64,
            },
        };
        proof {
            assert(sb == self.spec_sheet_bounds());
        }
        self.draw_shadow(&sb, SHADOW_WIDTH, scale, snapshot);
        let scaled = scale_aabb(&sb, scale);
        snapshot.push(DrawCommand::PushClip { bounds: scaled });
        self.background.draw(snapshot, &scaled);
        if self.format_borders {
            self.format.draw(self.height, snapshot, scale);
        }
        let ghost before_nodes = snapshot@;
        let n = self.strokes.len();
        let mut i: usize = 0;
        while i < n
            invariant
                0 <= i <= n,
                n == self.strokes@.len(),
                snapshot@ == before_nodes + Seq::new(i as nat, |k: int|
                    DrawCommand::Node { node: self.strokes@[k].spec_rendernode() }),
            decreases n - i,
        {
            let node = self.strokes[i].rendernode();
            snapshot.push(DrawCommand::Node { node });
            proof {
                assert(snapshot@ =~= before_nodes + Seq::new(i as nat + 1, |k: int|
                    DrawCommand::Node { node: self.strokes@[k].spec_rendernode() }));
            }
            i += 1;
        }
        snapshot.push(DrawCommand::PopClip);
        proof {
            assert(snapshot@ =~= old(snapshot)@ + self.spec_draw_cmds(scale as int));
        }
    }
}

/// Division rounding up, computed through unsigned division.
fn ceil_div_exec(a: i64, b: i64) -> (r: i64)
    requires
        0 < b <= 0x2000_0000,
        -0x1_0000_0000 <= a <= 0x1_0000_0000,
    ensures
        r == ceil_div(a as int, b as int),
        -0x1_0000_0000 <= r <= 0x2_0000_0000,
{
    if a >= 0 {
        let q: u64 = ((a as u64) + (b as u64) - 1) / (b as u64);
        proof {
            lemma_div_bounds(a as int + b - 1, b as int);
            crate::input::lemma_mul_div_le(q as int, b as int, a as int + b - 1);
            assert(q * b <= a + b - 1 ==> q <= a + b - 1) by (nonlinear_arith)
                requires
                    b >= 1,
                    q >= 0,
            ;
        }
        q as i64
    } else {
        let q: u64 = ((-a) as u64) / (b as u64);
        proof {
            lemma_div_bounds(-(a as int), b as int);
        }
        -(q as i64)
    }
}

} // verus!
