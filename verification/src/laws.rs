//! The library's standing laws: layout height, stroke conservation
//! across the three homes, undo/redo inversion and eraser idempotence.

use vstd::prelude::*;

use crate::format::FORMAT_SIZE_MAX;
use crate::geometry::{Aabb, MAX_COORD};
use crate::sheet::{
    ceil_div, hit_pred, keep_pred, max_maxs_y, spec_calc_height, spec_fit_height, spec_resized,
    Sheet,
};
use crate::strokes::{strokes_all_wf, StrokeStyle};

verus! {

/// The lowest bottom edge of well-formed strokes stays in range, and is
/// non-negative when every stroke ends at or below the sheet's top.
proof fn lemma_max_maxs_y_bounds(ss: Seq<StrokeStyle>)
    requires
        ss.len() >= 1,
        strokes_all_wf(ss),
    ensures
        -MAX_COORD <= max_maxs_y(ss) <= MAX_COORD,
        (forall|i: int| 0 <= i < ss.len() ==> (#[trigger] ss[i]).spec_bounds().maxs.y >= 0)
            ==> max_maxs_y(ss) >= 0,
    decreases ss.len(),
{
    crate::strokes::lemma_stroke_bounds_wf(ss[ss.len() - 1]);
    if ss.len() > 1 {
        assert(strokes_all_wf(ss.drop_last())) by {
            assert(forall|i: int| 0 <= i < ss.len() - 1 ==> ss.drop_last()[i] == #[trigger] ss[i]);
        }
        lemma_max_maxs_y_bounds(ss.drop_last());
    }
}

/// With autoexpand on, resizing yields exactly the computed height —
/// the lowest stroke bottom plus the padding, never under one page, and
/// exactly one page when the sheet is empty.
pub proof fn lemma_height_autoexpand(s: Sheet)
    requires
        s.wf(),
        s.autoexpand_height,
    ensures
        spec_resized(s).height as int == spec_calc_height(
            s.strokes@,
            s.format,
            s.padding_bottom as int,
        ),
        spec_resized(s).height as int >= s.format.height as int,
{
}

/// With autoexpand off and no padding, fitting snaps the height to the
/// smallest positive multiple of the page height covering the computed
/// height — so it too never falls below one page.
pub proof fn lemma_height_fitted(s: Sheet)
    requires
        s.wf(),
        !s.autoexpand_height,
        s.padding_bottom == 0,
    ensures
        spec_fit_height(s.strokes@, s.format, 0) >= s.format.height,
        spec_fit_height(s.strokes@, s.format, 0) % (s.format.height as int) == 0,
        spec_fit_height(s.strokes@, s.format, 0) >= spec_calc_height(s.strokes@, s.format, 0),
        spec_fit_height(s.strokes@, s.format, 0) < spec_calc_height(s.strokes@, s.format, 0)
            + s.format.height,
{
    let calc = spec_calc_height(s.strokes@, s.format, 0);
    let fh = s.format.height as int;
    if s.strokes@.len() > 0 {
        lemma_max_maxs_y_bounds(s.strokes@);
    }
    assert(1 <= calc <= MAX_COORD);
    let q = ceil_div(calc, fh);
    crate::input::lemma_div_bounds(calc + fh - 1, fh);
    assert(q == (calc + fh - 1) / fh);
    // fh <= q * fh <= calc + fh - 1, and calc <= q * fh.
    assert(1 <= q) by {
        crate::input::lemma_mul_div_le(1, fh, calc + fh - 1);
        assert(1 * fh == fh) by (nonlinear_arith);
    }
    assert(q * fh <= calc + fh - 1) by (nonlinear_arith)
        requires
            q == (calc + fh - 1) / fh,
            ((calc + fh - 1) / fh) * fh <= calc + fh - 1,
    ;
    assert(fh <= q * fh) by (nonlinear_arith)
        requires
            1 <= q,
            0 < fh,
    ;
    assert(calc <= q * fh) by (nonlinear_arith)
        requires
            q == (calc + fh - 1) / fh,
            calc + fh - 1 < ((calc + fh - 1) / fh) * fh + fh,
    ;
    assert(q * fh <= MAX_COORD + FORMAT_SIZE_MAX);
    assert((q * fh) % fh == 0) by (nonlinear_arith)
        requires
            fh > 0,
    ;
}

/// A sequence filtered by a predicate every member satisfies is itself.
proof fn lemma_filter_all<A>(s: Seq<A>, p: spec_fn(A) -> bool)
    requires
        forall|i: int| 0 <= i < s.len() ==> p(#[trigger] s[i]),
    ensures
        s.filter(p) == s,
    decreases s.len(),
{
    reveal(Seq::filter);
    if s.len() > 0 {
        assert(forall|i: int| 0 <= i < s.len() - 1 ==> s.drop_last()[i] == #[trigger] s[i]);
        lemma_filter_all(s.drop_last(), p);
        assert(s.filter(p) =~= s);
    }
}

/// A sequence filtered by a predicate no member satisfies is empty.
proof fn lemma_filter_none<A>(s: Seq<A>, p: spec_fn(A) -> bool)
    requires
        forall|i: int| 0 <= i < s.len() ==> !p(#[trigger] s[i]),
    ensures
        s.filter(p) == Seq::<A>::empty(),
    decreases s.len(),
{
    reveal(Seq::filter);
    if s.len() > 0 {
        assert(forall|i: int| 0 <= i < s.len() - 1 ==> s.drop_last()[i] == #[trigger] s[i]);
        lemma_filter_none(s.drop_last(), p);
        assert(s.filter(p) =~= Seq::<A>::empty());
    }
}

/// Erasing twice with the same eraser box is the same as erasing once:
/// everything surviving the first pass misses the box, so the second
/// pass keeps everything and removes nothing.
pub proof fn lemma_erase_idempotent(ss: Seq<StrokeStyle>, b: Aabb)
    ensures
        ss.filter(keep_pred(b)).filter(keep_pred(b)) == ss.filter(keep_pred(b)),
        ss.filter(keep_pred(b)).filter(hit_pred(b)) == Seq::<StrokeStyle>::empty(),
{
    let kept = ss.filter(keep_pred(b));
    broadcast use vstd::seq_lib::group_filter_ensures;

    assert(forall|i: int| 0 <= i < kept.len() ==> keep_pred(b)(#[trigger] kept[i]));
    assert(forall|i: int| 0 <= i < kept.len() ==> !hit_pred(b)(#[trigger] kept[i]));
    lemma_filter_all(kept, keep_pred(b));
    lemma_filter_none(kept, hit_pred(b));
}

/// The eraser's coarse test on a stroke's bounds loses nothing: for a
/// well-formed polyline, a hitbox tile is hit exactly when the bounds
/// are hit and a tile is hit, since every tile lies inside the bounds.
pub proof fn lemma_hit_narrow_phase(s: StrokeStyle, probe: Aabb)
    requires
        s.wf(),
    ensures
        s matches StrokeStyle::MarkerStroke(m) ==> (s.spec_hit(probe) <==> (exists|i: int|
            0 <= i < m.hitbox@.len() && probe.spec_intersects(#[trigger] m.hitbox@[i]))),
        s matches StrokeStyle::BrushStroke(b) ==> (s.spec_hit(probe) <==> (exists|i: int|
            0 <= i < b.hitbox@.len() && probe.spec_intersects(#[trigger] b.hitbox@[i]))),
{
    match s {
        StrokeStyle::MarkerStroke(m) => {
            crate::strokes::lemma_polyline_bounds_cover(m.elements@, m.bounds, m.hitbox@);
            if exists|i: int|
                0 <= i < m.hitbox@.len() && probe.spec_intersects(#[trigger] m.hitbox@[i]) {
                let i = choose|i: int|
                    0 <= i < m.hitbox@.len() && probe.spec_intersects(#[trigger] m.hitbox@[i]);
                crate::geometry::lemma_intersects_monotone(m.bounds, m.hitbox@[i], probe);
            }
        },
        StrokeStyle::BrushStroke(b) => {
            crate::strokes::lemma_polyline_bounds_cover(b.elements@, b.bounds, b.hitbox@);
            if exists|i: int|
                0 <= i < b.hitbox@.len() && probe.spec_intersects(#[trigger] b.hitbox@[i]) {
                let i = choose|i: int|
                    0 <= i < b.hitbox@.len() && probe.spec_intersects(#[trigger] b.hitbox@[i]);
                crate::geometry::lemma_intersects_monotone(b.bounds, b.hitbox@[i], probe);
            }
        },
        _ => {},
    }
}

/// A partition by a predicate and its complement is a permutation of the
/// original: nothing is lost and nothing is duplicated.
pub proof fn lemma_filter_partition<A>(s: Seq<A>, p: spec_fn(A) -> bool, q: spec_fn(A) -> bool)
    requires
        forall|x: A| #[trigger] q(x) == !p(x),
    ensures
        s.filter(p).to_multiset().add(s.filter(q).to_multiset()) == s.to_multiset(),
    decreases s.len(),
{
    broadcast use vstd::seq_lib::group_to_multiset_ensures;

    reveal(Seq::filter);
    if s.len() == 0 {
        assert(s.filter(p) =~= Seq::<A>::empty());
        assert(s.filter(q) =~= Seq::<A>::empty());
        assert(s.filter(p).to_multiset().add(s.filter(q).to_multiset())
            =~= s.to_multiset());
    } else {
        let d = s.drop_last();
        lemma_filter_partition(d, p, q);
        assert(s =~= d.push(s.last()));
        if p(s.last()) {
            assert(s.filter(p) == d.filter(p).push(s.last()));
            assert(s.filter(q) == d.filter(q));
            assert(s.filter(p).to_multiset() =~= d.filter(p).to_multiset().insert(s.last()));
            assert(s.to_multiset() =~= d.to_multiset().insert(s.last()));
            assert(s.filter(p).to_multiset().add(s.filter(q).to_multiset())
                =~= d.filter(p).to_multiset().add(d.filter(q).to_multiset()).insert(s.last()));
        } else {
            assert(s.filter(q) == d.filter(q).push(s.last()));
            assert(s.filter(p) == d.filter(p));
            assert(s.filter(q).to_multiset() =~= d.filter(q).to_multiset().insert(s.last()));
            assert(s.to_multiset() =~= d.to_multiset().insert(s.last()));
            assert(s.filter(p).to_multiset().add(s.filter(q).to_multiset())
                =~= d.filter(p).to_multiset().add(d.filter(q).to_multiset()).insert(s.last()));
        }
    }
}

/// The multiset of strokes over all three homes together — the form in
/// which "every stroke has exactly one home" is conserved.
pub open spec fn homes_multiset(
    ss: Seq<StrokeStyle>,
    trash: Seq<StrokeStyle>,
    sel: Seq<StrokeStyle>,
) -> vstd::multiset::Multiset<StrokeStyle> {
    ss.to_multiset().add(trash.to_multiset()).add(sel.to_multiset())
}

/// Erasing only moves strokes from the live list to the trash: taken
/// over all three homes, the strokes are conserved.
pub proof fn lemma_erase_conserves_homes(
    ss: Seq<StrokeStyle>,
    trash: Seq<StrokeStyle>,
    sel: Seq<StrokeStyle>,
    b: Aabb,
)
    ensures
        homes_multiset(ss.filter(keep_pred(b)), trash + ss.filter(hit_pred(b)), sel)
            == homes_multiset(ss, trash, sel),
{
    broadcast use vstd::seq_lib::group_to_multiset_ensures;

    assert(forall|x: StrokeStyle| #[trigger] hit_pred(b)(x) == !keep_pred(b)(x));
    lemma_filter_partition(ss, keep_pred(b), hit_pred(b));
    vstd::seq_lib::lemma_multiset_commutative(trash, ss.filter(hit_pred(b)));
    assert(homes_multiset(ss.filter(keep_pred(b)), trash + ss.filter(hit_pred(b)), sel)
        =~= homes_multiset(ss, trash, sel));
}

/// Moving a selection out of the live list conserves the strokes over
/// all three homes.
pub proof fn lemma_selection_conserves_homes(
    ss: Seq<StrokeStyle>,
    trash: Seq<StrokeStyle>,
    sel: Seq<StrokeStyle>,
    p: spec_fn(StrokeStyle) -> bool,
    q: spec_fn(StrokeStyle) -> bool,
)
    requires
        forall|x: StrokeStyle| #[trigger] q(x) == !p(x),
    ensures
        homes_multiset(ss.filter(q), trash, sel + ss.filter(p)) == homes_multiset(ss, trash, sel),
{
    broadcast use vstd::seq_lib::group_to_multiset_ensures;

    lemma_filter_partition(ss, p, q);
    vstd::seq_lib::lemma_multiset_commutative(sel, ss.filter(p));
    assert(homes_multiset(ss.filter(q), trash, sel + ss.filter(p)) =~= homes_multiset(
        ss,
        trash,
        sel,
    ));
}

/// Undoing moves the last stroke to the trash and conserves the strokes
/// over all three homes.
pub proof fn lemma_undo_conserves_homes(
    ss: Seq<StrokeStyle>,
    trash: Seq<StrokeStyle>,
    sel: Seq<StrokeStyle>,
)
    requires
        ss.len() > 0,
    ensures
        homes_multiset(ss.drop_last(), trash.push(ss.last()), sel) == homes_multiset(
            ss,
            trash,
            sel,
        ),
{
    broadcast use vstd::seq_lib::group_to_multiset_ensures;

    assert(ss =~= ss.drop_last().push(ss.last()));
    assert(ss.to_multiset() =~= ss.drop_last().to_multiset().insert(ss.last()));
    assert(trash.push(ss.last()).to_multiset() =~= trash.to_multiset().insert(ss.last()));
    assert(homes_multiset(ss.drop_last(), trash.push(ss.last()), sel) =~= homes_multiset(
        ss,
        trash,
        sel,
    ));
}

/// Undo then redo restores both stroke lists exactly, on an otherwise
/// unchanged sheet; the recomputed height then agrees as well, since it
/// is a function of the restored lists.
pub proof fn lemma_undo_redo_inverse(ss: Seq<StrokeStyle>, trash: Seq<StrokeStyle>)
    requires
        ss.len() > 0,
    ensures
        trash.push(ss.last()).len() > 0,
        ss.drop_last().push(trash.push(ss.last()).last()) == ss,
        trash.push(ss.last()).drop_last() == trash,
{
    assert(ss.drop_last().push(trash.push(ss.last()).last()) =~= ss);
    assert(trash.push(ss.last()).drop_last() =~= trash);
}

/// Redo then undo restores both stroke lists exactly as well.
pub proof fn lemma_redo_undo_inverse(ss: Seq<StrokeStyle>, trash: Seq<StrokeStyle>)
    requires
        trash.len() > 0,
    ensures
        ss.push(trash.last()).len() > 0,
        trash.drop_last().push(ss.push(trash.last()).last()) == trash,
        ss.push(trash.last()).drop_last() == ss,
{
    assert(trash.drop_last().push(ss.push(trash.last()).last()) =~= trash);
    assert(ss.push(trash.last()).drop_last() =~= ss);
}

} // verus!
