//! The native document format: a keyed, human-readable text encoding of
//! the whole sheet, with exact decoding. Whatever the decoder accepts
//! re-encodes to the very bytes it consumed.

use vstd::prelude::*;

use crate::background::Background;
use crate::digits::{
    fold_digits, lemma_fold_digits_bound, lemma_pow10_le, lemma_u64_digits_shape,
    lemma_u64_fits_twenty_digits, pow10, u64_digits, u64_digits_rec,
};
use crate::error::{DecodeError, DecodeReason, FieldId};
use crate::format::Format;
use crate::geometry::{Aabb, Vector2};
use crate::input::InputSample;
use crate::render::{Color, PatternStyle, RenderNode};
use crate::selection::Selection;
use crate::sheet::Sheet;
use crate::strokes::{BitmapImage, BrushStroke, Element, ImageFormat, MarkerStroke, StrokeOptions, StrokeStyle, VectorImage};

verus! {

broadcast use crate::digits::lemma_u64_digits_len_ambient;

pub open spec fn enc_u64(v: u64) -> Seq<u8> {
    u64_digits(v).push(10u8)
}

/// A signed number: a sign byte, then the magnitude as an unsigned one.
pub open spec fn i64_mag(v: i64) -> u64 {
    if v >= 0 {
        v as u64
    } else {
        (-(v as int)) as u64
    }
}

pub open spec fn enc_i64(v: i64) -> Seq<u8> {
    seq![if v < 0 { 45u8 } else { 43u8 }].add(enc_u64(i64_mag(v)))
}

/// A boolean: one byte, `0` or `1`, and a newline.
pub open spec fn enc_bool(v: bool) -> Seq<u8> {
    seq![if v { 49u8 } else { 48u8 }, 10u8]
}

/// A blob: its length, then its raw bytes.
pub open spec fn enc_bytes(v: Seq<u8>) -> Seq<u8> {
    enc_u64(v.len() as u64).add(v)
}

/// Whether the byte string `e` stands in `b` exactly at `pos`.
pub open spec fn enc_at(b: Seq<u8>, pos: int, e: Seq<u8>) -> bool {
    0 <= pos && pos + e.len() <= b.len() && b.subrange(pos, pos + e.len()) == e
}

/// Appends the last `k` digits of `v`, most significant first.
fn write_digits_rec(out: &mut Vec<u8>, v: u64, k: usize)
    ensures
        final(out)@ == old(out)@ + u64_digits_rec(v as nat, k as nat),
    decreases k,
{
    if k > 0 {
        write_digits_rec(out, v / 10, k - 1);
        out.push(48 + ((v % 10) as u8));
        proof {
            assert(final(out)@ =~= old(out)@ + u64_digits_rec(v as nat, k as nat));
        }
    } else {
        proof {
            assert(final(out)@ =~= old(out)@ + u64_digits_rec(v as nat, 0));
        }
    }
}

/// Appends the fixed-width digits of `v` and the closing newline.
pub fn write_u64(out: &mut Vec<u8>, v: u64)
    ensures
        final(out)@ == old(out)@ + enc_u64(v),
{
    write_digits_rec(out, v, 20);
    out.push(10);
    proof {
        assert(final(out)@ =~= old(out)@ + enc_u64(v));
    }
}

pub fn write_i64(out: &mut Vec<u8>, v: i64)
    ensures
        final(out)@ == old(out)@ + enc_i64(v),
{
    if v >= 0 {
        out.push(43);
        write_u64(out, v as u64);
    } else {
        out.push(45);
        let mag: u64 = if v == -0x8000_0000_0000_0000i64 {
            0x8000_0000_0000_0000u64
        } else {
            (-v) as u64
        };
        write_u64(out, mag);
    }
    proof {
        assert(final(out)@ =~= old(out)@ + enc_i64(v));
    }
}

pub fn write_bool(out: &mut Vec<u8>, v: bool)
    ensures
        final(out)@ == old(out)@ + enc_bool(v),
{
    out.push(if v {
        49
    } else {
        48
    });
    out.push(10);
    proof {
        assert(final(out)@ =~= old(out)@ + enc_bool(v));
    }
}

pub fn write_bytes(out: &mut Vec<u8>, v: &Vec<u8>)
    ensures
        final(out)@ == old(out)@ + enc_bytes(v@),
{
    write_u64(out, v.len() as u64);
    let n = v.len();
    let ghost mid = out@;
    let mut i: usize = 0;
    while i < n
        invariant
            0 <= i <= n,
            n == v@.len(),
            out@ == mid + v@.take(i as int),
        decreases n - i,
    {
        out.push(v[i]);
        proof {
            assert(out@ =~= mid + v@.take(i as int + 1));
        }
        i += 1;
    }
    proof {
        assert(v@.take(n as int) =~= v@);
        assert(out@ =~= old(out)@ + enc_bytes(v@));
    }
}

/// Whether `pat` occurs in `buf` exactly at `pos`.
pub fn matches_at(buf: &Vec<u8>, pos: usize, pat: &Vec<u8>) -> (r: bool)
    requires
        pos <= buf@.len(),
    ensures
        r == enc_at(buf@, pos as int, pat@),
{
    let m = pat.len();
    if buf.len() - pos < m {
        return false;
    }
    let mut i: usize = 0;
    while i < m
        invariant
            0 <= i <= m,
            m == pat@.len(),
            pos + m <= buf@.len(),
            buf@.len() <= usize::MAX,
            forall|j: int| 0 <= j < i ==> buf@[pos + j] == pat@[j],
        decreases m - i,
    {
        if buf[pos + i] != pat[i] {
            proof {
                assert(buf@.subrange(pos as int, pos as int + pat@.len())[i as int] == buf@[pos
                    + i]);
            }
            return false;
        }
        i += 1;
    }
    proof {
        assert(buf@.subrange(pos as int, pos as int + pat@.len()) =~= pat@);
    }
    true
}

/// Reads an unsigned number: the result re-encodes to the very bytes
/// consumed, and every encoded number is read back as itself.
pub fn read_u64(buf: &Vec<u8>, pos: usize) -> (r: Result<(u64, usize), DecodeError>)
    requires
        pos <= buf@.len(),
    ensures
        r matches Ok(p) ==> p.1 == pos + 21 && pos + 21 <= buf@.len() && buf@.subrange(
            pos as int,
            p.1 as int,
        ) == enc_u64(p.0),
        forall|v: u64| #[trigger] enc_at(buf@, pos as int, enc_u64(v)) ==> r == Ok::<
            (u64, usize),
            DecodeError,
        >((v, (pos + 21) as usize)),
{
    if buf.len() - pos < 21 {
        proof {
            assert forall|v: u64| !enc_at(buf@, pos as int, enc_u64(v)) by {
                if enc_at(buf@, pos as int, enc_u64(v)) {
                    lemma_enc_at_u64_shape(buf@, pos as int, v);
                }
            }
        }
        return Err(DecodeError::new(Option::None, DecodeReason::Truncated));
    }
    let mut acc: u128 = 0;
    let mut i: usize = 0;
    proof {
        assert(buf@.subrange(pos as int, pos as int) =~= Seq::<u8>::empty());
    }
    while i < 20
        invariant
            0 <= i <= 20,
            pos + 21 <= buf@.len(),
            buf@.len() <= usize::MAX,
            forall|j: int| 0 <= j < i ==> 48 <= #[trigger] buf@[pos + j] <= 57,
            acc == fold_digits(buf@.subrange(pos as int, pos as int + i as int)),
            acc < 0x1_0000_0000_0000_0000_0000,
        decreases 20 - i,
    {
        let b = buf[pos + i];
        if b < 48 || b > 57 {
            proof {
                assert forall|v: u64| !enc_at(buf@, pos as int, enc_u64(v)) by {
                    if enc_at(buf@, pos as int, enc_u64(v)) {
                        lemma_enc_at_u64_shape(buf@, pos as int, v);
                    }
                }
            }
            return Err(DecodeError::new(Option::None, DecodeReason::BadDigit));
        }
        proof {
            assert(acc * 10 + 9 < 0xa_0000_0000_0000_0000_0009) by (nonlinear_arith)
                requires
                    acc < 0x1_0000_0000_0000_0000_0000,
            ;
        }
        acc = acc * 10 + ((b - 48) as u128);
        proof {
            let t1 = buf@.subrange(pos as int, pos as int + i as int + 1);
            assert(t1.drop_last() =~= buf@.subrange(pos as int, pos as int + i as int));
            assert(t1.last() == buf@[pos + i]);
            assert forall|j: int| 0 <= j < t1.len() implies 48 <= #[trigger] t1[j] <= 57 by {
                assert(t1[j] == buf@[pos + j]);
                if j == i {
                    assert(buf@[pos + j] == b);
                }
            }
            lemma_fold_digits_bound(t1);
            assert(pow10(t1.len() as nat) <= pow10(20)) by {
                lemma_pow10_le(t1.len() as nat, 20);
            }
            reveal_with_fuel(pow10, 21);
            assert(pow10(20) == 100_000_000_000_000_000_000);
        }
        i += 1;
    }
    if buf[pos + 20] != 10 {
        proof {
            assert forall|v: u64| !enc_at(buf@, pos as int, enc_u64(v)) by {
                if enc_at(buf@, pos as int, enc_u64(v)) {
                    lemma_enc_at_u64_shape(buf@, pos as int, v);
                }
            }
        }
        return Err(DecodeError::new(Option::None, DecodeReason::BadDigit));
    }
    if acc > 0xffff_ffff_ffff_ffffu128 {
        proof {
            assert forall|v: u64| !enc_at(buf@, pos as int, enc_u64(v)) by {
                if enc_at(buf@, pos as int, enc_u64(v)) {
                    lemma_enc_at_u64_shape(buf@, pos as int, v);
                    lemma_u64_fits_twenty_digits(v);
                    lemma_u64_digits_shape(v as nat, 20);
                }
            }
        }
        return Err(DecodeError::new(Option::None, DecodeReason::Overflow));
    }
    let v: u64 = acc as u64;
    // The parsed value must reproduce the consumed bytes exactly.
    let mut check: Vec<u8> = Vec::new();
    write_u64(&mut check, v);
    if matches_at(buf, pos, &check) {
        proof {
            assert forall|v0: u64| #[trigger] enc_at(buf@, pos as int, enc_u64(v0)) implies v0
                == v by {
                lemma_enc_at_u64_shape(buf@, pos as int, v0);
                lemma_u64_fits_twenty_digits(v0);
                lemma_u64_digits_shape(v0 as nat, 20);
            }
            assert(enc_u64(v).len() == 21) by {
                lemma_u64_fits_twenty_digits(v);
                lemma_u64_digits_shape(v as nat, 20);
            }
        }
        Ok((v, pos + 21))
    } else {
        proof {
            assert forall|v0: u64| !enc_at(buf@, pos as int, enc_u64(v0)) by {
                if enc_at(buf@, pos as int, enc_u64(v0)) {
                    lemma_enc_at_u64_shape(buf@, pos as int, v0);
                    lemma_u64_fits_twenty_digits(v0);
                    lemma_u64_digits_shape(v0 as nat, 20);
                    assert(check@ == enc_u64(v));
                    assert(v0 == v);
                    assert(enc_at(buf@, pos as int, check@));
                }
            }
        }
        Err(DecodeError::new(Option::None, DecodeReason::Malformed))
    }
}

/// An encoded number pins the buffer down to its shape.
pub proof fn lemma_enc_at_u64_shape(b: Seq<u8>, pos: int, v: u64)
    requires
        enc_at(b, pos, enc_u64(v)),
    ensures
        hyp_u64_shape(b, pos, v),
{
    lemma_u64_fits_twenty_digits(v);
    lemma_u64_digits_shape(v as nat, 20);
    assert forall|j: int| 0 <= j < 20 implies 48 <= #[trigger] b[pos + j] <= 57 by {
        assert(b.subrange(pos, pos + 21)[j] == b[pos + j]);
        assert(enc_u64(v)[j] == u64_digits(v)[j]);
    }
    assert(b[pos + 20] == b.subrange(pos, pos + 21)[20]);
    assert(b.subrange(pos, pos + 20) =~= u64_digits(v));
}

/// What an encoded number pins down about the buffer: twenty digit
/// bytes spelling the value, then a newline.
pub open spec fn hyp_u64_shape(b: Seq<u8>, pos: int, v: u64) -> bool {
    &&& pos + 21 <= b.len()
    &&& (forall|j: int| 0 <= j < 20 ==> 48 <= #[trigger] b[pos + j] <= 57)
    &&& b[pos + 20] == 10
    &&& b.subrange(pos, pos + 20) == u64_digits(v)
    &&& fold_digits(b.subrange(pos, pos + 20)) == v
}

/// An encoded number is twenty-one bytes.
pub proof fn lemma_enc_u64_len(v: u64)
    ensures
        enc_u64(v).len() == 21,
        u64_digits(v).len() == 20,
{
    lemma_u64_fits_twenty_digits(v);
    lemma_u64_digits_shape(v as nat, 20);
}

/// An encoded signed number is twenty-two bytes.
pub proof fn lemma_enc_i64_len(v: i64)
    ensures
        enc_i64(v).len() == 22,
{
    lemma_enc_u64_len(i64_mag(v));
}

/// Reads a signed number.
pub fn read_i64(buf: &Vec<u8>, pos: usize) -> (r: Result<(i64, usize), DecodeError>)
    requires
        pos <= buf@.len(),
    ensures
        r matches Ok(p) ==> p.1 == pos + 22 && pos + 22 <= buf@.len() && buf@.subrange(
            pos as int,
            p.1 as int,
        ) == enc_i64(p.0),
        forall|v: i64| #[trigger] enc_at(buf@, pos as int, enc_i64(v)) ==> r == Ok::<
            (i64, usize),
            DecodeError,
        >((v, (pos + 22) as usize)),
{
    proof {
        assert forall|v: i64| enc_at(buf@, pos as int, enc_i64(v)) implies pos + 22 <= buf@.len()
            && buf@[pos as int] == (if v < 0 {
            45u8
        } else {
            43u8
        }) && enc_at(buf@, pos as int + 1, enc_u64(i64_mag(v))) by {
            lemma_enc_i64_len(v);
            lemma_enc_u64_len(i64_mag(v));
            assert(buf@.subrange(pos as int, pos as int + 22)[0] == buf@[pos as int]);
            assert(buf@.subrange(pos as int + 1, pos as int + 22) =~= enc_i64(v).subrange(1, 22));
            assert(enc_i64(v).subrange(1, 22) =~= enc_u64(i64_mag(v)));
        }
    }
    if buf.len() - pos < 1 {
        return Err(DecodeError::new(Option::None, DecodeReason::Truncated));
    }
    let sign = buf[pos];
    if sign != 43 && sign != 45 {
        return Err(DecodeError::new(Option::None, DecodeReason::BadTag));
    }
    let res = read_u64(buf, pos + 1);
    let (mag, end) = match res {
        Ok(p) => p,
        Err(e) => {
            return Err(e);
        },
    };
    let v: i64 = if sign == 43 {
        if mag > 0x7fff_ffff_ffff_ffffu64 {
            return Err(DecodeError::new(Option::None, DecodeReason::Overflow));
        }
        mag as i64
    } else {
        if mag > 0x8000_0000_0000_0000u64 {
            return Err(DecodeError::new(Option::None, DecodeReason::Overflow));
        }
        if mag == 0x8000_0000_0000_0000u64 {
            -0x8000_0000_0000_0000i64
        } else {
            -(mag as i64)
        }
    };
    if sign == 45 && mag == 0 {
        // A negative zero never comes from the encoder.
        return Err(DecodeError::new(Option::None, DecodeReason::Malformed));
    }
    proof {
        assert(i64_mag(v) == mag);
        assert(buf@.subrange(pos as int, end as int) =~= seq![sign].add(buf@.subrange(
            pos as int + 1,
            end as int,
        )));
        assert(buf@.subrange(pos as int, end as int) =~= enc_i64(v));
        assert forall|v0: i64| #[trigger] enc_at(buf@, pos as int, enc_i64(v0)) implies v0 == v by {
            lemma_enc_i64_len(v0);
            assert(res == Ok::<(u64, usize), DecodeError>((i64_mag(v0), (pos + 22) as usize)));
        }
    }
    Ok((v, end))
}

/// Reads a boolean.
pub fn read_bool(buf: &Vec<u8>, pos: usize) -> (r: Result<(bool, usize), DecodeError>)
    requires
        pos <= buf@.len(),
    ensures
        r matches Ok(p) ==> p.1 == pos + 2 && pos + 2 <= buf@.len() && buf@.subrange(
            pos as int,
            p.1 as int,
        ) == enc_bool(p.0),
        forall|v: bool| #[trigger] enc_at(buf@, pos as int, enc_bool(v)) ==> r == Ok::<
            (bool, usize),
            DecodeError,
        >((v, (pos + 2) as usize)),
{
    proof {
        assert forall|v: bool| enc_at(buf@, pos as int, enc_bool(v)) implies pos + 2 <= buf@.len()
            && buf@[pos as int] == (if v {
            49u8
        } else {
            48u8
        }) && buf@[pos as int + 1] == 10u8 by {
            assert(buf@.subrange(pos as int, pos as int + 2)[0] == buf@[pos as int]);
            assert(buf@.subrange(pos as int, pos as int + 2)[1] == buf@[pos as int + 1]);
        }
    }
    if buf.len() - pos < 2 {
        return Err(DecodeError::new(Option::None, DecodeReason::Truncated));
    }
    let b = buf[pos];
    if b != 48 && b != 49 {
        return Err(DecodeError::new(Option::None, DecodeReason::BadTag));
    }
    if buf[pos + 1] != 10 {
        return Err(DecodeError::new(Option::None, DecodeReason::BadTag));
    }
    let v = b == 49;
    proof {
        assert(buf@.subrange(pos as int, pos as int + 2) =~= enc_bool(v));
    }
    Ok((v, pos + 2))
}

/// An encoded blob splits into its length and its raw bytes in place.
proof fn lemma_enc_at_bytes_split(b: Seq<u8>, pos: int, bs: Seq<u8>)
    requires
        bs.len() <= usize::MAX,
        enc_at(b, pos, enc_bytes(bs)),
    ensures
        enc_at(b, pos, enc_u64(bs.len() as u64)),
        b.subrange(pos + 21, pos + 21 + bs.len() as int) == bs,
{
    lemma_enc_u64_len(bs.len() as u64);
    let e = enc_bytes(bs);
    assert(b.subrange(pos, pos + 21) =~= e.subrange(0, 21));
    assert(e.subrange(0, 21) =~= enc_u64(bs.len() as u64));
    assert(b.subrange(pos + 21, pos + 21 + bs.len() as int) =~= e.subrange(21, e.len() as int));
    assert(e.subrange(21, e.len() as int) =~= bs);
}

/// Reads a blob.
#[verifier::rlimit(100)]
pub fn read_blob(buf: &Vec<u8>, pos: usize) -> (r: Result<(Vec<u8>, usize), DecodeError>)
    requires
        pos <= buf@.len(),
    ensures
        r matches Ok(p) ==> pos <= p.1 <= buf@.len() && buf@.subrange(pos as int, p.1 as int)
            == enc_bytes(p.0@),
        forall|bs: Seq<u8>|
            bs.len() <= usize::MAX && #[trigger] enc_at(buf@, pos as int, enc_bytes(bs)) ==> (
            r matches Ok(p) && p.0@ == bs && p.1 == pos + 21 + bs.len()),
{
    let res = read_u64(buf, pos);
    let (len, mid) = match res {
        Ok(p) => p,
        Err(e) => {
            proof {
                assert forall|bs: Seq<u8>|
                    !(bs.len() <= usize::MAX && enc_at(buf@, pos as int, enc_bytes(bs))) by {
                    if bs.len() <= usize::MAX && enc_at(buf@, pos as int, enc_bytes(bs)) {
                        lemma_enc_at_bytes_split(buf@, pos as int, bs);
                    }
                }
            }
            return Err(e);
        },
    };
    if len > (usize::MAX as u64) || ((buf.len() - mid) as u64) < len {
        proof {
            assert forall|bs: Seq<u8>|
                !(bs.len() <= usize::MAX && enc_at(buf@, pos as int, enc_bytes(bs))) by {
                if bs.len() <= usize::MAX && enc_at(buf@, pos as int, enc_bytes(bs)) {
                    lemma_enc_at_bytes_split(buf@, pos as int, bs);
                    assert(res == Ok::<(u64, usize), DecodeError>((
                        bs.len() as u64,
                        (pos + 21) as usize,
                    )));
                    lemma_enc_u64_len(bs.len() as u64);
                    assert(pos + enc_bytes(bs).len() <= buf@.len());
                }
            }
        }
        return Err(DecodeError::new(Option::None, DecodeReason::Truncated));
    }
    let n = len as usize;
    let mut v: Vec<u8> = Vec::new();
    let mut i: usize = 0;
    while i < n
        invariant
            0 <= i <= n,
            mid + n <= buf@.len(),
            buf@.len() <= usize::MAX,
            v@ == buf@.subrange(mid as int, mid as int + i as int),
        decreases n - i,
    {
        v.push(buf[mid + i]);
        proof {
            assert(v@ =~= buf@.subrange(mid as int, mid as int + i as int + 1));
        }
        i += 1;
    }
    proof {
        assert(buf@.subrange(pos as int, mid as int + n as int) =~= enc_bytes(v@));
        assert forall|bs: Seq<u8>|
            bs.len() <= usize::MAX && #[trigger] enc_at(buf@, pos as int, enc_bytes(bs)) implies v@
            == bs && mid as int + n as int == pos + 21 + bs.len() by {
            lemma_enc_at_bytes_split(buf@, pos as int, bs);
            assert(res == Ok::<(u64, usize), DecodeError>((bs.len() as u64, (pos + 21) as usize)));
            assert(n == bs.len());
            assert(v@ =~= bs);
        }
    }
    Ok((v, mid + n))
}

/// A 2D vector: two signed numbers.
pub open spec fn enc_vector2(v: Vector2) -> Seq<u8> {
    enc_i64(v.x) + enc_i64(v.y)
}

/// A box: its two corners.
pub open spec fn enc_aabb(b: Aabb) -> Seq<u8> {
    enc_vector2(b.mins) + enc_vector2(b.maxs)
}

/// An optional box: a presence flag, then the box when present.
pub open spec fn enc_opt_aabb(o: Option<Aabb>) -> Seq<u8> {
    match o {
        Option::None => enc_bool(false),
        Option::Some(b) => enc_bool(true) + enc_aabb(b),
    }
}

/// A color: its four channels.
pub open spec fn enc_color(c: Color) -> Seq<u8> {
    enc_u64(c.r as u64) + enc_u64(c.g as u64) + enc_u64(c.b as u64) + enc_u64(c.a as u64)
}

/// An input sample: its position and pressure.
pub open spec fn enc_sample(s: InputSample) -> Seq<u8> {
    enc_vector2(s.pos) + enc_u64(s.pressure as u64)
}

pub open spec fn enc_element(e: Element) -> Seq<u8> {
    enc_sample(e.inputdata)
}

pub open spec fn enc_elements_items(es: Seq<Element>) -> Seq<u8>
    decreases es.len(),
{
    if es.len() == 0 {
        Seq::empty()
    } else {
        enc_elements_items(es.drop_last()) + enc_element(es.last())
    }
}

/// An element list: its length, then the elements.
pub open spec fn enc_elements(es: Seq<Element>) -> Seq<u8> {
    enc_u64(es.len() as u64) + enc_elements_items(es)
}

pub open spec fn enc_aabbs_items(bs: Seq<Aabb>) -> Seq<u8>
    decreases bs.len(),
{
    if bs.len() == 0 {
        Seq::empty()
    } else {
        enc_aabbs_items(bs.drop_last()) + enc_aabb(bs.last())
    }
}

/// A box list: its length, then the boxes.
pub open spec fn enc_aabbs(bs: Seq<Aabb>) -> Seq<u8> {
    enc_u64(bs.len() as u64) + enc_aabbs_items(bs)
}

/// Stroke width and color.
pub open spec fn enc_options(o: StrokeOptions) -> Seq<u8> {
    enc_u64(o.width as u64) + enc_color(o.color)
}

/// A background pattern: one tag byte and a newline.
pub open spec fn enc_pattern(p: PatternStyle) -> Seq<u8> {
    match p {
        PatternStyle::Blank => seq![110u8, 10u8],
        PatternStyle::Lines => seq![108u8, 10u8],
        PatternStyle::Grid => seq![103u8, 10u8],
        PatternStyle::Dots => seq![100u8, 10u8],
    }
}

/// A raster encoding: one tag byte and a newline.
pub open spec fn enc_image_format(f: ImageFormat) -> Seq<u8> {
    match f {
        ImageFormat::Png => seq![112u8, 10u8],
        ImageFormat::Jpeg => seq![106u8, 10u8],
    }
}

pub open spec fn enc_format(f: Format) -> Seq<u8> {
    enc_i64(f.width as i64) + enc_i64(f.height as i64) + enc_i64(f.dpi as i64)
}

pub open spec fn enc_background(b: Background) -> Seq<u8> {
    enc_color(b.color) + enc_pattern(b.pattern) + enc_vector2(b.pattern_size) + enc_color(
        b.pattern_color,
    )
}

/// One stroke: a variant tag, then its fields. Render-node caches are
/// not persisted.
pub open spec fn enc_stroke(s: StrokeStyle) -> Seq<u8> {
    match s {
        StrokeStyle::MarkerStroke(m) => seq![109u8, 10u8] + enc_options(m.options) + enc_elements(
            m.elements@,
        ) + enc_aabb(m.bounds) + enc_aabbs(m.hitbox@),
        StrokeStyle::BrushStroke(b) => seq![98u8, 10u8] + enc_options(b.options) + enc_u64(
            b.template_id,
        ) + enc_elements(b.elements@) + enc_aabb(b.bounds) + enc_aabbs(b.hitbox@),
        StrokeStyle::VectorImage(v) => seq![118u8, 10u8] + enc_bytes(v.data_svg@) + enc_vector2(
            v.pos,
        ) + enc_vector2(v.intrinsic_size) + enc_aabb(v.bounds),
        StrokeStyle::BitmapImage(b) => seq![105u8, 10u8] + enc_bytes(b.data@) + enc_image_format(
            b.format,
        ) + enc_vector2(b.pos) + enc_vector2(b.intrinsic_size) + enc_aabb(b.bounds),
    }
}

pub open spec fn enc_strokes_items(ss: Seq<StrokeStyle>) -> Seq<u8>
    decreases ss.len(),
{
    if ss.len() == 0 {
        Seq::empty()
    } else {
        enc_strokes_items(ss.drop_last()) + enc_stroke(ss.last())
    }
}

/// A stroke list: its length, then the strokes in order.
pub open spec fn enc_strokes(ss: Seq<StrokeStyle>) -> Seq<u8> {
    enc_u64(ss.len() as u64) + enc_strokes_items(ss)
}

pub open spec fn enc_selection(s: Selection) -> Seq<u8> {
    enc_strokes(s.strokes@) + enc_opt_aabb(s.bounds) + enc_bool(s.shown)
}

/// A field's key, as ASCII text.
pub open spec fn spec_key(f: FieldId) -> Seq<u8> {
    match f {
        FieldId::Strokes => seq![115u8, 116u8, 114u8, 111u8, 107u8, 101u8, 115u8],
        FieldId::StrokesTrash => seq![
            115u8, 116u8, 114u8, 111u8, 107u8, 101u8, 115u8, 95u8, 116u8, 114u8, 97u8, 115u8,
            104u8,
        ],
        FieldId::SelectionField => seq![
            115u8, 101u8, 108u8, 101u8, 99u8, 116u8, 105u8, 111u8, 110u8,
        ],
        FieldId::FormatField => seq![102u8, 111u8, 114u8, 109u8, 97u8, 116u8],
        FieldId::BackgroundField => seq![
            98u8, 97u8, 99u8, 107u8, 103u8, 114u8, 111u8, 117u8, 110u8, 100u8,
        ],
        FieldId::X => seq![120u8],
        FieldId::Y => seq![121u8],
        FieldId::Width => seq![119u8, 105u8, 100u8, 116u8, 104u8],
        FieldId::Height => seq![104u8, 101u8, 105u8, 103u8, 104u8, 116u8],
        FieldId::AutoexpandHeight => seq![
            97u8, 117u8, 116u8, 111u8, 101u8, 120u8, 112u8, 97u8, 110u8, 100u8, 95u8, 104u8,
            101u8, 105u8, 103u8, 104u8, 116u8,
        ],
        FieldId::FormatBorders => seq![
            102u8, 111u8, 114u8, 109u8, 97u8, 116u8, 95u8, 98u8, 111u8, 114u8, 100u8, 101u8,
            114u8, 115u8,
        ],
        FieldId::PaddingBottom => seq![
            112u8, 97u8, 100u8, 100u8, 105u8, 110u8, 103u8, 95u8, 98u8, 111u8, 116u8, 116u8,
            111u8, 109u8,
        ],
    }
}

pub open spec fn enc_key(f: FieldId) -> Seq<u8> {
    enc_bytes(spec_key(f))
}

/// The first three fields of the document: the stroke lists and the
/// selection, keyed.
pub open spec fn enc_sheet_lists(s: Sheet) -> Seq<u8> {
    enc_key(FieldId::Strokes) + enc_strokes(s.strokes@) + enc_key(FieldId::StrokesTrash)
        + enc_strokes(s.strokes_trash@) + enc_key(FieldId::SelectionField) + enc_selection(
        s.selection,
    )
}

/// The scalar tail of the document, keyed.
pub open spec fn enc_sheet_scalars(s: Sheet) -> Seq<u8> {
    enc_key(FieldId::X) + enc_i64(s.x as i64) + enc_key(FieldId::Y) + enc_i64(s.y as i64)
        + enc_key(FieldId::Width) + enc_i64(s.width as i64) + enc_key(FieldId::Height) + enc_i64(
        s.height as i64,
    ) + enc_key(FieldId::AutoexpandHeight) + enc_bool(s.autoexpand_height) + enc_key(
        FieldId::FormatBorders,
    ) + enc_bool(s.format_borders) + enc_key(FieldId::PaddingBottom) + enc_i64(
        s.padding_bottom as i64,
    )
}

/// The keyed format and background fields.
pub open spec fn enc_sheet_frame(s: Sheet) -> Seq<u8> {
    enc_key(FieldId::FormatField) + enc_format(s.format) + enc_key(FieldId::BackgroundField)
        + enc_background(s.background)
}

/// The whole document: every field keyed by name, in canonical order.
pub open spec fn enc_sheet(s: Sheet) -> Seq<u8> {
    enc_sheet_lists(s) + enc_sheet_frame(s) + enc_sheet_scalars(s)
}

pub fn write_vector2(out: &mut Vec<u8>, v: &Vector2)
    ensures
        final(out)@ == old(out)@ + enc_vector2(*v),
{
    write_i64(out, v.x);
    write_i64(out, v.y);
    proof {
        assert(final(out)@ =~= old(out)@ + enc_vector2(*v));
    }
}

pub fn write_aabb(out: &mut Vec<u8>, b: &Aabb)
    ensures
        final(out)@ == old(out)@ + enc_aabb(*b),
{
    write_vector2(out, &b.mins);
    write_vector2(out, &b.maxs);
    proof {
        assert(final(out)@ =~= old(out)@ + enc_aabb(*b));
    }
}

pub fn write_opt_aabb(out: &mut Vec<u8>, o: &Option<Aabb>)
    ensures
        final(out)@ == old(out)@ + enc_opt_aabb(*o),
{
    match o {
        Option::None => {
            write_bool(out, false);
        },
        Option::Some(b) => {
            write_bool(out, true);
            write_aabb(out, b);
        },
    }
    proof {
        assert(final(out)@ =~= old(out)@ + enc_opt_aabb(*o));
    }
}

pub fn write_color(out: &mut Vec<u8>, c: &Color)
    ensures
        final(out)@ == old(out)@ + enc_color(*c),
{
    write_u64(out, c.r as u64);
    write_u64(out, c.g as u64);
    write_u64(out, c.b as u64);
    write_u64(out, c.a as u64);
    proof {
        assert(final(out)@ =~= old(out)@ + enc_color(*c));
    }
}

pub fn write_element(out: &mut Vec<u8>, e: &Element)
    ensures
        final(out)@ == old(out)@ + enc_element(*e),
{
    write_vector2(out, &e.inputdata.pos);
    write_u64(out, e.inputdata.pressure as u64);
    proof {
        assert(final(out)@ =~= old(out)@ + enc_element(*e));
    }
}

pub fn write_elements(out: &mut Vec<u8>, es: &Vec<Element>)
    ensures
        final(out)@ == old(out)@ + enc_elements(es@),
{
    write_u64(out, es.len() as u64);
    let n = es.len();
    let ghost mid = out@;
    let mut i: usize = 0;
    proof {
        assert(enc_elements_items(es@.take(0)) =~= Seq::<u8>::empty());
        assert(out@ =~= mid + enc_elements_items(es@.take(0)));
    }
    while i < n
        invariant
            0 <= i <= n,
            n == es@.len(),
            out@ == mid + enc_elements_items(es@.take(i as int)),
        decreases n - i,
    {
        write_element(out, &es[i]);
        proof {
            let t1 = es@.take(i as int + 1);
            assert(t1.drop_last() =~= es@.take(i as int));
            assert(t1.last() == es@[i as int]);
            assert(out@ =~= mid + enc_elements_items(t1));
        }
        i += 1;
    }
    proof {
        assert(es@.take(n as int) =~= es@);
        assert(out@ =~= old(out)@ + enc_elements(es@));
    }
}

pub fn write_aabbs(out: &mut Vec<u8>, bs: &Vec<Aabb>)
    ensures
        final(out)@ == old(out)@ + enc_aabbs(bs@),
{
    write_u64(out, bs.len() as u64);
    let n = bs.len();
    let ghost mid = out@;
    let mut i: usize = 0;
    proof {
        assert(enc_aabbs_items(bs@.take(0)) =~= Seq::<u8>::empty());
        assert(out@ =~= mid + enc_aabbs_items(bs@.take(0)));
    }
    while i < n
        invariant
            0 <= i <= n,
            n == bs@.len(),
            out@ == mid + enc_aabbs_items(bs@.take(i as int)),
        decreases n - i,
    {
        write_aabb(out, &bs[i]);
        proof {
            let t1 = bs@.take(i as int + 1);
            assert(t1.drop_last() =~= bs@.take(i as int));
            assert(t1.last() == bs@[i as int]);
            assert(out@ =~= mid + enc_aabbs_items(t1));
        }
        i += 1;
    }
    proof {
        assert(bs@.take(n as int) =~= bs@);
        assert(out@ =~= old(out)@ + enc_aabbs(bs@));
    }
}

pub fn write_options(out: &mut Vec<u8>, o: &StrokeOptions)
    ensures
        final(out)@ == old(out)@ + enc_options(*o),
{
    write_u64(out, o.width as u64);
    write_color(out, &o.color);
    proof {
        assert(final(out)@ =~= old(out)@ + enc_options(*o));
    }
}

pub fn write_pattern(out: &mut Vec<u8>, p: &PatternStyle)
    ensures
        final(out)@ == old(out)@ + enc_pattern(*p),
{
    match p {
        PatternStyle::Blank => out.push(110),
        PatternStyle::Lines => out.push(108),
        PatternStyle::Grid => out.push(103),
        PatternStyle::Dots => out.push(100),
    }
    out.push(10);
    proof {
        assert(final(out)@ =~= old(out)@ + enc_pattern(*p));
    }
}

pub fn write_image_format(out: &mut Vec<u8>, f: &ImageFormat)
    ensures
        final(out)@ == old(out)@ + enc_image_format(*f),
{
    match f {
        ImageFormat::Png => out.push(112),
        ImageFormat::Jpeg => out.push(106),
    }
    out.push(10);
    proof {
        assert(final(out)@ =~= old(out)@ + enc_image_format(*f));
    }
}

pub fn write_format(out: &mut Vec<u8>, f: &Format)
    ensures
        final(out)@ == old(out)@ + enc_format(*f),
{
    write_i64(out, f.width as i64);
    write_i64(out, f.height as i64);
    write_i64(out, f.dpi as i64);
    proof {
        assert(final(out)@ =~= old(out)@ + enc_format(*f));
    }
}

pub fn write_background(out: &mut Vec<u8>, b: &Background)
    ensures
        final(out)@ == old(out)@ + enc_background(*b),
{
    write_color(out, &b.color);
    write_pattern(out, &b.pattern);
    write_vector2(out, &b.pattern_size);
    write_color(out, &b.pattern_color);
    proof {
        assert(final(out)@ =~= old(out)@ + enc_background(*b));
    }
}

#[verifier::rlimit(60)]
pub fn write_stroke(out: &mut Vec<u8>, s: &StrokeStyle)
    ensures
        final(out)@ == old(out)@ + enc_stroke(*s),
{
    match s {
        StrokeStyle::MarkerStroke(m) => {
            out.push(109);
            out.push(10);
            write_options(out, &m.options);
            write_elements(out, &m.elements);
            write_aabb(out, &m.bounds);
            write_aabbs(out, &m.hitbox);
        },
        StrokeStyle::BrushStroke(b) => {
            out.push(98);
            out.push(10);
            write_options(out, &b.options);
            write_u64(out, b.template_id);
            write_elements(out, &b.elements);
            write_aabb(out, &b.bounds);
            write_aabbs(out, &b.hitbox);
        },
        StrokeStyle::VectorImage(v) => {
            out.push(118);
            out.push(10);
            write_bytes(out, &v.data_svg);
            write_vector2(out, &v.pos);
            write_vector2(out, &v.intrinsic_size);
            write_aabb(out, &v.bounds);
        },
        StrokeStyle::BitmapImage(b) => {
            out.push(105);
            out.push(10);
            write_bytes(out, &b.data);
            write_image_format(out, &b.format);
            write_vector2(out, &b.pos);
            write_vector2(out, &b.intrinsic_size);
            write_aabb(out, &b.bounds);
        },
    }
    proof {
        assert(final(out)@ =~= old(out)@ + enc_stroke(*s));
    }
}

pub fn write_strokes(out: &mut Vec<u8>, ss: &Vec<StrokeStyle>)
    ensures
        final(out)@ == old(out)@ + enc_strokes(ss@),
{
    write_u64(out, ss.len() as u64);
    let n = ss.len();
    let ghost mid = out@;
    let mut i: usize = 0;
    proof {
        assert(enc_strokes_items(ss@.take(0)) =~= Seq::<u8>::empty());
        assert(out@ =~= mid + enc_strokes_items(ss@.take(0)));
    }
    while i < n
        invariant
            0 <= i <= n,
            n == ss@.len(),
            out@ == mid + enc_strokes_items(ss@.take(i as int)),
        decreases n - i,
    {
        write_stroke(out, &ss[i]);
        proof {
            let t1 = ss@.take(i as int + 1);
            assert(t1.drop_last() =~= ss@.take(i as int));
            assert(t1.last() == ss@[i as int]);
            assert(out@ =~= mid + enc_strokes_items(t1));
        }
        i += 1;
    }
    proof {
        assert(ss@.take(n as int) =~= ss@);
        assert(out@ =~= old(out)@ + enc_strokes(ss@));
    }
}

pub fn write_selection(out: &mut Vec<u8>, s: &Selection)
    ensures
        final(out)@ == old(out)@ + enc_selection(*s),
{
    write_strokes(out, &s.strokes);
    write_opt_aabb(out, &s.bounds);
    write_bool(out, s.shown);
    proof {
        assert(final(out)@ =~= old(out)@ + enc_selection(*s));
    }
}

/// The bytes of a field's key name.
pub fn key_bytes(f: FieldId) -> (r: Vec<u8>)
    ensures
        r@ == spec_key(f),
{
    let mut r: Vec<u8> = Vec::new();
    match f {
        FieldId::Strokes => {
            r.push(115);
            r.push(116);
            r.push(114);
            r.push(111);
            r.push(107);
            r.push(101);
            r.push(115);
        },
        FieldId::StrokesTrash => {
            r.push(115);
            r.push(116);
            r.push(114);
            r.push(111);
            r.push(107);
            r.push(101);
            r.push(115);
            r.push(95);
            r.push(116);
            r.push(114);
            r.push(97);
            r.push(115);
            r.push(104);
        },
        FieldId::SelectionField => {
            r.push(115);
            r.push(101);
            r.push(108);
            r.push(101);
            r.push(99);
            r.push(116);
            r.push(105);
            r.push(111);
            r.push(110);
        },
        FieldId::FormatField => {
            r.push(102);
            r.push(111);
            r.push(114);
            r.push(109);
            r.push(97);
            r.push(116);
        },
        FieldId::BackgroundField => {
            r.push(98);
            r.push(97);
            r.push(99);
            r.push(107);
            r.push(103);
            r.push(114);
            r.push(111);
            r.push(117);
            r.push(110);
            r.push(100);
        },
        FieldId::X => {
            r.push(120);
        },
        FieldId::Y => {
            r.push(121);
        },
        FieldId::Width => {
            r.push(119);
            r.push(105);
            r.push(100);
            r.push(116);
            r.push(104);
        },
        FieldId::Height => {
            r.push(104);
            r.push(101);
            r.push(105);
            r.push(103);
            r.push(104);
            r.push(116);
        },
        FieldId::AutoexpandHeight => {
            r.push(97);
            r.push(117);
            r.push(116);
            r.push(111);
            r.push(101);
            r.push(120);
            r.push(112);
            r.push(97);
            r.push(110);
            r.push(100);
            r.push(95);
            r.push(104);
            r.push(101);
            r.push(105);
            r.push(103);
            r.push(104);
            r.push(116);
        },
        FieldId::FormatBorders => {
            r.push(102);
            r.push(111);
            r.push(114);
            r.push(109);
            r.push(97);
            r.push(116);
            r.push(95);
            r.push(98);
            r.push(111);
            r.push(114);
            r.push(100);
            r.push(101);
            r.push(114);
            r.push(115);
        },
        FieldId::PaddingBottom => {
            r.push(112);
            r.push(97);
            r.push(100);
            r.push(100);
            r.push(105);
            r.push(110);
            r.push(103);
            r.push(95);
            r.push(98);
            r.push(111);
            r.push(116);
            r.push(116);
            r.push(111);
            r.push(109);
        },
    }
    proof {
        assert(r@ =~= spec_key(f));
    }
    r
}

pub fn write_key(out: &mut Vec<u8>, f: FieldId)
    ensures
        final(out)@ == old(out)@ + enc_key(f),
{
    let k = key_bytes(f);
    write_bytes(out, &k);
}

fn write_sheet_lists(out: &mut Vec<u8>, s: &Sheet)
    ensures
        final(out)@ == old(out)@ + enc_sheet_lists(*s),
{
    write_key(out, FieldId::Strokes);
    write_strokes(out, &s.strokes);
    write_key(out, FieldId::StrokesTrash);
    write_strokes(out, &s.strokes_trash);
    write_key(out, FieldId::SelectionField);
    write_selection(out, &s.selection);
    proof {
        assert(final(out)@ =~= old(out)@ + enc_sheet_lists(*s));
    }
}

fn write_sheet_frame(out: &mut Vec<u8>, s: &Sheet)
    ensures
        final(out)@ == old(out)@ + enc_sheet_frame(*s),
{
    write_key(out, FieldId::FormatField);
    write_format(out, &s.format);
    write_key(out, FieldId::BackgroundField);
    write_background(out, &s.background);
    proof {
        assert(final(out)@ =~= old(out)@ + enc_sheet_frame(*s));
    }
}

#[verifier::rlimit(100)]
fn write_sheet_scalars(out: &mut Vec<u8>, s: &Sheet)
    ensures
        final(out)@ == old(out)@ + enc_sheet_scalars(*s),
{
    write_key(out, FieldId::X);
    write_i64(out, s.x as i64);
    write_key(out, FieldId::Y);
    write_i64(out, s.y as i64);
    write_key(out, FieldId::Width);
    write_i64(out, s.width as i64);
    write_key(out, FieldId::Height);
    write_i64(out, s.height as i64);
    write_key(out, FieldId::AutoexpandHeight);
    write_bool(out, s.autoexpand_height);
    write_key(out, FieldId::FormatBorders);
    write_bool(out, s.format_borders);
    write_key(out, FieldId::PaddingBottom);
    write_i64(out, s.padding_bottom as i64);
    proof {
        assert(final(out)@ =~= old(out)@ + enc_sheet_scalars(*s));
    }
}

/// Serializes the whole sheet into its native document.
pub fn encode_sheet(s: &Sheet) -> (r: Vec<u8>)
    ensures
        r@ == enc_sheet(*s),
{
    let mut out: Vec<u8> = Vec::new();
    write_sheet_lists(&mut out, s);
    write_sheet_frame(&mut out, s);
    write_sheet_scalars(&mut out, s);
    proof {
        assert(out@ =~= enc_sheet(*s));
    }
    out
}

/// What decoding guarantees of each stroke it accepts: fit for
/// end-of-stroke recomputation, well-formed when it is an image, and a
/// fresh (empty) render-node cache.
pub open spec fn stroke_decode_valid(s: StrokeStyle) -> bool {
    &&& s.completable()
    &&& (s matches StrokeStyle::MarkerStroke(m) ==> aabb_corners_wf(m.bounds) && aabbs_corners_wf(
        m.hitbox@,
    ))
    &&& (s matches StrokeStyle::BrushStroke(b) ==> aabb_corners_wf(b.bounds) && aabbs_corners_wf(
        b.hitbox@,
    ))
    &&& (s matches StrokeStyle::VectorImage(v) ==> v.wf())
    &&& (s matches StrokeStyle::BitmapImage(b) ==> b.wf())
    &&& s.spec_rendernode() == RenderNode::spec_empty()
}

/// Both corners of a box stay in coordinate range.
pub open spec fn aabb_corners_wf(b: Aabb) -> bool {
    b.mins.wf() && b.maxs.wf()
}

pub open spec fn aabbs_corners_wf(bs: Seq<Aabb>) -> bool {
    forall|i: int| 0 <= i < bs.len() ==> aabb_corners_wf(#[trigger] bs[i])
}

pub open spec fn strokes_decode_valid(ss: Seq<StrokeStyle>) -> bool {
    forall|i: int| 0 <= i < ss.len() ==> stroke_decode_valid(#[trigger] ss[i])
}

/// What decoding guarantees of a whole accepted document.
pub open spec fn sheet_decode_valid(s: Sheet) -> bool {
    &&& strokes_decode_valid(s.strokes@)
    &&& strokes_decode_valid(s.strokes_trash@)
    &&& strokes_decode_valid(s.selection.strokes@)
    &&& (s.selection.bounds matches Option::Some(b) ==> aabb_corners_wf(b))
    &&& s.format.wf()
    &&& s.background.pattern_size.wf()
}

/// Two byte strings standing concatenated at a position stand there one
/// after the other.
pub proof fn lemma_enc_at_pair(b: Seq<u8>, pos: int, e1: Seq<u8>, e2: Seq<u8>)
    requires
        enc_at(b, pos, e1 + e2),
    ensures
        enc_at(b, pos, e1),
        enc_at(b, pos + e1.len(), e2),
{
    let e = e1 + e2;
    assert(b.subrange(pos, pos + e1.len() as int) =~= e.subrange(0, e1.len() as int));
    assert(e.subrange(0, e1.len() as int) =~= e1);
    assert(b.subrange(pos + e1.len(), pos + e.len() as int) =~= e.subrange(
        e1.len() as int,
        e.len() as int,
    ));
    assert(e.subrange(e1.len() as int, e.len() as int) =~= e2);
}

pub fn read_vector2(buf: &Vec<u8>, pos: usize) -> (r: Result<(Vector2, usize), DecodeError>)
    requires
        pos <= buf@.len(),
    ensures
        r matches Ok(p) ==> pos <= p.1 <= buf@.len() && buf@.subrange(pos as int, p.1 as int)
            == enc_vector2(p.0) && p.0.wf(),
        forall|v: Vector2|
            (#[trigger] enc_at(buf@, pos as int, enc_vector2(v))) && v.wf() ==> r == Ok::<
                (Vector2, usize),
                DecodeError,
            >((v, (pos + 44) as usize)),
{
    let res1 = read_i64(buf, pos);
    let (x, m1) = match res1 {
        Ok(p) => p,
        Err(e) => {
            proof {
                vector2_hyp_split(buf@, pos as int);
            }
            return Err(e);
        },
    };
    let res2 = read_i64(buf, m1);
    let (y, m2) = match res2 {
        Ok(p) => p,
        Err(e) => {
            proof {
                vector2_hyp_split(buf@, pos as int);
            }
            return Err(e);
        },
    };
    if x < -crate::geometry::MAX_COORD || x > crate::geometry::MAX_COORD
        || y < -crate::geometry::MAX_COORD || y > crate::geometry::MAX_COORD {
        proof {
            vector2_hyp_split(buf@, pos as int);
        }
        return Err(DecodeError::new(Option::None, DecodeReason::OutOfRange));
    }
    let v = Vector2 { x, y };
    proof {
        vector2_hyp_split(buf@, pos as int);
        assert(buf@.subrange(pos as int, m2 as int) =~= buf@.subrange(pos as int, m1 as int)
            + buf@.subrange(m1 as int, m2 as int));
    }
    Ok((v, m2))
}

/// Splits every hypothesized vector encoding at `pos` into its parts.
proof fn vector2_hyp_split(b: Seq<u8>, pos: int)
    ensures
        forall|v: Vector2|
            (#[trigger] enc_at(b, pos, enc_vector2(v))) ==> enc_at(b, pos, enc_i64(v.x)) && enc_at(
                b,
                pos + 22,
                enc_i64(v.y),
            ),
{
    assert forall|v: Vector2| (#[trigger] enc_at(b, pos, enc_vector2(v))) implies enc_at(
        b,
        pos,
        enc_i64(v.x),
    ) && enc_at(b, pos + 22, enc_i64(v.y)) by {
        lemma_enc_at_pair(b, pos, enc_i64(v.x), enc_i64(v.y));
    }
}

pub fn read_aabb(buf: &Vec<u8>, pos: usize) -> (r: Result<(Aabb, usize), DecodeError>)
    requires
        pos <= buf@.len(),
    ensures
        r matches Ok(p) ==> pos <= p.1 <= buf@.len() && buf@.subrange(pos as int, p.1 as int)
            == enc_aabb(p.0) && aabb_corners_wf(p.0),
        forall|v: Aabb|
            (#[trigger] enc_at(buf@, pos as int, enc_aabb(v))) && aabb_corners_wf(v) ==> r == Ok::<
                (Aabb, usize),
                DecodeError,
            >((v, (pos + 88) as usize)),
{
    proof {
        assert forall|v: Aabb| (#[trigger] enc_at(buf@, pos as int, enc_aabb(v))) implies enc_at(
            buf@,
            pos as int,
            enc_vector2(v.mins),
        ) && enc_at(buf@, pos as int + 44, enc_vector2(v.maxs)) by {
            lemma_enc_at_pair(buf@, pos as int, enc_vector2(v.mins), enc_vector2(v.maxs));
        }
    }
    let res1 = read_vector2(buf, pos);
    let (mins, m1) = match res1 {
        Ok(p) => p,
        Err(e) => {
            return Err(e);
        },
    };
    let res2 = read_vector2(buf, m1);
    let (maxs, m2) = match res2 {
        Ok(p) => p,
        Err(e) => {
            return Err(e);
        },
    };
    let b = Aabb { mins, maxs };
    proof {
        assert(buf@.subrange(pos as int, m2 as int) =~= buf@.subrange(pos as int, m1 as int)
            + buf@.subrange(m1 as int, m2 as int));
    }
    Ok((b, m2))
}

pub fn read_opt_aabb(buf: &Vec<u8>, pos: usize) -> (r: Result<(Option<Aabb>, usize), DecodeError>)
    requires
        pos <= buf@.len(),
    ensures
        r matches Ok(p) ==> pos <= p.1 <= buf@.len() && buf@.subrange(pos as int, p.1 as int)
            == enc_opt_aabb(p.0) && (p.0 matches Option::Some(b) ==> aabb_corners_wf(b)),
        forall|v: Option<Aabb>|
            (#[trigger] enc_at(buf@, pos as int, enc_opt_aabb(v))) && (v matches Option::Some(b)
                ==> aabb_corners_wf(b)) ==> (r matches Ok(p) && p.0 == v && p.1 == pos
                + enc_opt_aabb(v).len()),
{
    proof {
        assert forall|v: Option<Aabb>|
            (#[trigger] enc_at(buf@, pos as int, enc_opt_aabb(v))) implies enc_at(
            buf@,
            pos as int,
            enc_bool(v is Some),
        ) && (v matches Option::Some(bx) ==> enc_at(buf@, pos as int + 2, enc_aabb(bx))) by {
            match v {
                Option::Some(bx) => {
                    lemma_enc_at_pair(buf@, pos as int, enc_bool(true), enc_aabb(bx));
                },
                Option::None => {},
            }
        }
    }
    let res1 = read_bool(buf, pos);
    let (present, m1) = match res1 {
        Ok(p) => p,
        Err(e) => {
            return Err(e);
        },
    };
    if present {
        let res2 = read_aabb(buf, m1);
        let (b, m2) = match res2 {
            Ok(p) => p,
            Err(e) => {
                return Err(e);
            },
        };
        proof {
            assert(buf@.subrange(pos as int, m2 as int) =~= buf@.subrange(pos as int, m1 as int)
                + buf@.subrange(m1 as int, m2 as int));
        }
        Ok((Option::Some(b), m2))
    } else {
        Ok((Option::None, m1))
    }
}

pub fn read_color(buf: &Vec<u8>, pos: usize) -> (r: Result<(Color, usize), DecodeError>)
    requires
        pos <= buf@.len(),
    ensures
        r matches Ok(p) ==> pos <= p.1 <= buf@.len() && buf@.subrange(pos as int, p.1 as int)
            == enc_color(p.0),
        forall|v: Color| #[trigger] enc_at(buf@, pos as int, enc_color(v)) ==> r == Ok::<
            (Color, usize),
            DecodeError,
        >((v, (pos + 84) as usize)),
{
    proof {
        assert forall|v: Color| (#[trigger] enc_at(buf@, pos as int, enc_color(v))) implies enc_at(
            buf@,
            pos as int,
            enc_u64(v.r as u64),
        ) && enc_at(buf@, pos as int + 21, enc_u64(v.g as u64)) && enc_at(
            buf@,
            pos as int + 42,
            enc_u64(v.b as u64),
        ) && enc_at(buf@, pos as int + 63, enc_u64(v.a as u64)) by {
            lemma_enc_at_pair(
                buf@,
                pos as int,
                enc_u64(v.r as u64) + enc_u64(v.g as u64) + enc_u64(v.b as u64),
                enc_u64(v.a as u64),
            );
            lemma_enc_at_pair(
                buf@,
                pos as int,
                enc_u64(v.r as u64) + enc_u64(v.g as u64),
                enc_u64(v.b as u64),
            );
            lemma_enc_at_pair(buf@, pos as int, enc_u64(v.r as u64), enc_u64(v.g as u64));
        }
    }
    let res1 = read_u64(buf, pos);
    let (cr, m1) = match res1 {
        Ok(p) => p,
        Err(e) => {
            return Err(e);
        },
    };
    let res2 = read_u64(buf, m1);
    let (cg, m2) = match res2 {
        Ok(p) => p,
        Err(e) => {
            return Err(e);
        },
    };
    let res3 = read_u64(buf, m2);
    let (cb, m3) = match res3 {
        Ok(p) => p,
        Err(e) => {
            return Err(e);
        },
    };
    let res4 = read_u64(buf, m3);
    let (ca, m4) = match res4 {
        Ok(p) => p,
        Err(e) => {
            return Err(e);
        },
    };
    if cr > 255 || cg > 255 || cb > 255 || ca > 255 {
        return Err(DecodeError::new(Option::None, DecodeReason::Overflow));
    }
    let col = Color { r: cr as u8, g: cg as u8, b: cb as u8, a: ca as u8 };
    proof {
        assert(buf@.subrange(pos as int, m4 as int) =~= buf@.subrange(pos as int, m1 as int)
            + buf@.subrange(m1 as int, m2 as int) + buf@.subrange(m2 as int, m3 as int)
            + buf@.subrange(m3 as int, m4 as int));
    }
    Ok((col, m4))
}

pub fn read_element(buf: &Vec<u8>, pos: usize) -> (r: Result<(Element, usize), DecodeError>)
    requires
        pos <= buf@.len(),
    ensures
        r matches Ok(p) ==> pos <= p.1 <= buf@.len() && buf@.subrange(pos as int, p.1 as int)
            == enc_element(p.0) && p.0.inputdata.pos.wf(),
        forall|v: Element|
            (#[trigger] enc_at(buf@, pos as int, enc_element(v))) && v.inputdata.pos.wf() ==> r
                == Ok::<(Element, usize), DecodeError>((v, (pos + 65) as usize)),
{
    proof {
        assert forall|v: Element|
            (#[trigger] enc_at(buf@, pos as int, enc_element(v))) implies enc_at(
            buf@,
            pos as int,
            enc_vector2(v.inputdata.pos),
        ) && enc_at(buf@, pos as int + 44, enc_u64(v.inputdata.pressure as u64)) by {
            lemma_enc_at_pair(
                buf@,
                pos as int,
                enc_vector2(v.inputdata.pos),
                enc_u64(v.inputdata.pressure as u64),
            );
        }
    }
    let res1 = read_vector2(buf, pos);
    let (p0, m1) = match res1 {
        Ok(p) => p,
        Err(e) => {
            return Err(e);
        },
    };
    let res2 = read_u64(buf, m1);
    let (pr, m2) = match res2 {
        Ok(p) => p,
        Err(e) => {
            return Err(e);
        },
    };
    if pr > 65535 {
        return Err(DecodeError::new(Option::None, DecodeReason::Overflow));
    }
    let e = Element { inputdata: InputSample { pos: p0, pressure: pr as u16 } };
    proof {
        assert(buf@.subrange(pos as int, m2 as int) =~= buf@.subrange(pos as int, m1 as int)
            + buf@.subrange(m1 as int, m2 as int));
    }
    Ok((e, m2))
}

pub fn read_options(buf: &Vec<u8>, pos: usize) -> (r: Result<(StrokeOptions, usize), DecodeError>)
    requires
        pos <= buf@.len(),
    ensures
        r matches Ok(p) ==> pos <= p.1 <= buf@.len() && buf@.subrange(pos as int, p.1 as int)
            == enc_options(p.0) && p.0.wf(),
        forall|v: StrokeOptions|
            (#[trigger] enc_at(buf@, pos as int, enc_options(v))) && v.wf() ==> r == Ok::<
                (StrokeOptions, usize),
                DecodeError,
            >((v, (pos + 105) as usize)),
{
    proof {
        assert forall|v: StrokeOptions|
            (#[trigger] enc_at(buf@, pos as int, enc_options(v))) implies enc_at(
            buf@,
            pos as int,
            enc_u64(v.width as u64),
        ) && enc_at(buf@, pos as int + 21, enc_color(v.color)) by {
            lemma_enc_at_pair(buf@, pos as int, enc_u64(v.width as u64), enc_color(v.color));
        }
    }
    let res1 = read_u64(buf, pos);
    let (w, m1) = match res1 {
        Ok(p) => p,
        Err(e) => {
            return Err(e);
        },
    };
    if w < 1 || w > crate::pens::PEN_WIDTH_MAX as u64 {
        return Err(DecodeError::new(Option::None, DecodeReason::OutOfRange));
    }
    let res2 = read_color(buf, m1);
    let (col, m2) = match res2 {
        Ok(p) => p,
        Err(e) => {
            return Err(e);
        },
    };
    let o = StrokeOptions { width: w as u32, color: col };
    proof {
        assert(buf@.subrange(pos as int, m2 as int) =~= buf@.subrange(pos as int, m1 as int)
            + buf@.subrange(m1 as int, m2 as int));
    }
    Ok((o, m2))
}

pub fn read_pattern(buf: &Vec<u8>, pos: usize) -> (r: Result<(PatternStyle, usize), DecodeError>)
    requires
        pos <= buf@.len(),
    ensures
        r matches Ok(p) ==> p.1 == pos + 2 && pos + 2 <= buf@.len() && buf@.subrange(
            pos as int,
            p.1 as int,
        ) == enc_pattern(p.0),
        forall|v: PatternStyle| #[trigger] enc_at(buf@, pos as int, enc_pattern(v)) ==> r == Ok::<
            (PatternStyle, usize),
            DecodeError,
        >((v, (pos + 2) as usize)),
{
    proof {
        assert forall|v: PatternStyle|
            (#[trigger] enc_at(buf@, pos as int, enc_pattern(v))) implies pos + 2 <= buf@.len()
            && buf@[pos as int] == enc_pattern(v)[0] && buf@[pos as int + 1] == 10u8 by {
            assert(buf@.subrange(pos as int, pos as int + 2)[0] == buf@[pos as int]);
            assert(buf@.subrange(pos as int, pos as int + 2)[1] == buf@[pos as int + 1]);
        }
    }
    if buf.len() - pos < 2 {
        return Err(DecodeError::new(Option::None, DecodeReason::Truncated));
    }
    if buf[pos + 1] != 10 {
        return Err(DecodeError::new(Option::None, DecodeReason::BadTag));
    }
    let b = buf[pos];
    let p = if b == 110 {
        PatternStyle::Blank
    } else if b == 108 {
        PatternStyle::Lines
    } else if b == 103 {
        PatternStyle::Grid
    } else if b == 100 {
        PatternStyle::Dots
    } else {
        return Err(DecodeError::new(Option::None, DecodeReason::BadTag));
    };
    proof {
        assert(buf@.subrange(pos as int, pos as int + 2) =~= enc_pattern(p));
    }
    Ok((p, pos + 2))
}

pub fn read_image_format(buf: &Vec<u8>, pos: usize) -> (r: Result<(ImageFormat, usize), DecodeError>)
    requires
        pos <= buf@.len(),
    ensures
        r matches Ok(p) ==> p.1 == pos + 2 && pos + 2 <= buf@.len() && buf@.subrange(
            pos as int,
            p.1 as int,
        ) == enc_image_format(p.0),
        forall|v: ImageFormat| #[trigger] enc_at(buf@, pos as int, enc_image_format(v)) ==> r
            == Ok::<(ImageFormat, usize), DecodeError>((v, (pos + 2) as usize)),
{
    proof {
        assert forall|v: ImageFormat|
            (#[trigger] enc_at(buf@, pos as int, enc_image_format(v))) implies pos + 2
            <= buf@.len() && buf@[pos as int] == enc_image_format(v)[0] && buf@[pos as int + 1]
            == 10u8 by {
            assert(buf@.subrange(pos as int, pos as int + 2)[0] == buf@[pos as int]);
            assert(buf@.subrange(pos as int, pos as int + 2)[1] == buf@[pos as int + 1]);
        }
    }
    if buf.len() - pos < 2 {
        return Err(DecodeError::new(Option::None, DecodeReason::Truncated));
    }
    if buf[pos + 1] != 10 {
        return Err(DecodeError::new(Option::None, DecodeReason::BadTag));
    }
    let b = buf[pos];
    let p = if b == 112 {
        ImageFormat::Png
    } else if b == 106 {
        ImageFormat::Jpeg
    } else {
        return Err(DecodeError::new(Option::None, DecodeReason::BadTag));
    };
    proof {
        assert(buf@.subrange(pos as int, pos as int + 2) =~= enc_image_format(p));
    }
    Ok((p, pos + 2))
}

pub fn read_format(buf: &Vec<u8>, pos: usize) -> (r: Result<(Format, usize), DecodeError>)
    requires
        pos <= buf@.len(),
    ensures
        r matches Ok(p) ==> pos <= p.1 <= buf@.len() && buf@.subrange(pos as int, p.1 as int)
            == enc_format(p.0) && p.0.wf(),
        forall|v: Format|
            (#[trigger] enc_at(buf@, pos as int, enc_format(v))) && v.wf() ==> r == Ok::<
                (Format, usize),
                DecodeError,
            >((v, (pos + 66) as usize)),
{
    proof {
        assert forall|v: Format|
            (#[trigger] enc_at(buf@, pos as int, enc_format(v))) implies enc_at(
            buf@,
            pos as int,
            enc_i64(v.width as i64),
        ) && enc_at(buf@, pos as int + 22, enc_i64(v.height as i64)) && enc_at(
            buf@,
            pos as int + 44,
            enc_i64(v.dpi as i64),
        ) by {
            lemma_enc_at_pair(
                buf@,
                pos as int,
                enc_i64(v.width as i64) + enc_i64(v.height as i64),
                enc_i64(v.dpi as i64),
            );
            lemma_enc_at_pair(
                buf@,
                pos as int,
                enc_i64(v.width as i64),
                enc_i64(v.height as i64),
            );
        }
    }
    let res1 = read_i64(buf, pos);
    let (w, m1) = match res1 {
        Ok(p) => p,
        Err(e) => {
            return Err(e);
        },
    };
    let res2 = read_i64(buf, m1);
    let (h, m2) = match res2 {
        Ok(p) => p,
        Err(e) => {
            return Err(e);
        },
    };
    let res3 = read_i64(buf, m2);
    let (dpi, m3) = match res3 {
        Ok(p) => p,
        Err(e) => {
            return Err(e);
        },
    };
    if w < 1 || w > crate::format::FORMAT_SIZE_MAX as i64 || h < 1 || h
        > crate::format::FORMAT_SIZE_MAX as i64 || dpi < 1 || dpi
        > crate::format::FORMAT_DPI_MAX as i64 {
        return Err(DecodeError::new(Option::None, DecodeReason::OutOfRange));
    }
    let f = Format { width: w as i32, height: h as i32, dpi: dpi as i32 };
    proof {
        assert(buf@.subrange(pos as int, m3 as int) =~= buf@.subrange(pos as int, m1 as int)
            + buf@.subrange(m1 as int, m2 as int) + buf@.subrange(m2 as int, m3 as int));
    }
    Ok((f, m3))
}

pub fn read_background(buf: &Vec<u8>, pos: usize) -> (r: Result<(Background, usize), DecodeError>)
    requires
        pos <= buf@.len(),
    ensures
        r matches Ok(p) ==> pos <= p.1 <= buf@.len() && buf@.subrange(pos as int, p.1 as int)
            == enc_background(p.0) && p.0.pattern_size.wf(),
        forall|v: Background|
            (#[trigger] enc_at(buf@, pos as int, enc_background(v))) && v.pattern_size.wf() ==> r
                == Ok::<(Background, usize), DecodeError>((v, (pos + 214) as usize)),
{
    proof {
        assert forall|v: Background|
            (#[trigger] enc_at(buf@, pos as int, enc_background(v))) implies enc_at(
            buf@,
            pos as int,
            enc_color(v.color),
        ) && enc_at(buf@, pos as int + 84, enc_pattern(v.pattern)) && enc_at(
            buf@,
            pos as int + 86,
            enc_vector2(v.pattern_size),
        ) && enc_at(buf@, pos as int + 130, enc_color(v.pattern_color)) by {
            lemma_enc_at_pair(
                buf@,
                pos as int,
                enc_color(v.color) + enc_pattern(v.pattern) + enc_vector2(v.pattern_size),
                enc_color(v.pattern_color),
            );
            lemma_enc_at_pair(
                buf@,
                pos as int,
                enc_color(v.color) + enc_pattern(v.pattern),
                enc_vector2(v.pattern_size),
            );
            lemma_enc_at_pair(buf@, pos as int, enc_color(v.color), enc_pattern(v.pattern));
        }
    }
    let res1 = read_color(buf, pos);
    let (col, m1) = match res1 {
        Ok(p) => p,
        Err(e) => {
            return Err(e);
        },
    };
    let res2 = read_pattern(buf, m1);
    let (pat, m2) = match res2 {
        Ok(p) => p,
        Err(e) => {
            return Err(e);
        },
    };
    let res3 = read_vector2(buf, m2);
    let (size, m3) = match res3 {
        Ok(p) => p,
        Err(e) => {
            return Err(e);
        },
    };
    let res4 = read_color(buf, m3);
    let (pc, m4) = match res4 {
        Ok(p) => p,
        Err(e) => {
            return Err(e);
        },
    };
    let bg = Background { color: col, pattern: pat, pattern_size: size, pattern_color: pc };
    proof {
        assert(buf@.subrange(pos as int, m4 as int) =~= buf@.subrange(pos as int, m1 as int)
            + buf@.subrange(m1 as int, m2 as int) + buf@.subrange(m2 as int, m3 as int)
            + buf@.subrange(m3 as int, m4 as int));
    }
    Ok((bg, m4))
}

/// The items of an element run from index `i` on.
pub open spec fn elems_items_from(es: Seq<Element>, i: int) -> Seq<u8>
    decreases es.len() - i,
{
    if i < 0 || i >= es.len() {
        Seq::empty()
    } else {
        enc_element(es[i]) + elems_items_from(es, i + 1)
    }
}

/// An element run splits at any index.
pub proof fn lemma_elems_items_split(es: Seq<Element>, i: int)
    requires
        0 <= i <= es.len(),
    ensures
        enc_elements_items(es) == enc_elements_items(es.take(i)) + elems_items_from(es, i),
    decreases es.len() - i,
{
    if i == es.len() {
        assert(es.take(i) =~= es);
        assert(enc_elements_items(es.take(i)) + elems_items_from(es, i)
            =~= enc_elements_items(es));
    } else {
        lemma_elems_items_split(es, i + 1);
        let t1 = es.take(i + 1);
        assert(t1.drop_last() =~= es.take(i));
        assert(t1.last() == es[i]);
        assert(enc_elements_items(t1) == enc_elements_items(es.take(i)) + enc_element(es[i]));
        assert(enc_elements_items(es.take(i)) + (enc_element(es[i]) + elems_items_from(es, i + 1))
            =~= (enc_elements_items(es.take(i)) + enc_element(es[i])) + elems_items_from(
            es,
            i + 1,
        ));
    }
}

/// What a hypothesized element list pins down, and where each element
/// stands.
pub open spec fn elems_list_hyp(b: Seq<u8>, pos: int, es: Seq<Element>) -> bool {
    &&& es.len() <= usize::MAX
    &&& enc_at(b, pos, enc_elements(es))
    &&& crate::strokes::elems_all_wf(es)
}

pub fn read_elements(buf: &Vec<u8>, pos: usize) -> (r: Result<(Vec<Element>, usize), DecodeError>)
    requires
        pos <= buf@.len(),
    ensures
        r matches Ok(p) ==> pos <= p.1 <= buf@.len() && buf@.subrange(pos as int, p.1 as int)
            == enc_elements(p.0@) && crate::strokes::elems_all_wf(p.0@),
        forall|es: Seq<Element>| #[trigger] elems_list_hyp(buf@, pos as int, es) ==> (r matches
            Ok(p) && p.0@ == es && p.1 == pos + enc_elements(es).len()),
{
    proof {
        assert forall|es: Seq<Element>| elems_list_hyp(buf@, pos as int, es) implies enc_at(
            buf@,
            pos as int,
            enc_u64(es.len() as u64),
        ) && enc_at(buf@, pos as int + 21, enc_elements_items(es)) by {
            lemma_enc_at_pair(buf@, pos as int, enc_u64(es.len() as u64), enc_elements_items(es));
        }
    }
    let res0 = read_u64(buf, pos);
    let (count, mid) = match res0 {
        Ok(p) => p,
        Err(e) => {
            return Err(e);
        },
    };
    if count > (usize::MAX as u64) {
        return Err(DecodeError::new(Option::None, DecodeReason::Truncated));
    }
    let n = count as usize;
    let mut out: Vec<Element> = Vec::new();
    let mut cur: usize = mid;
    let mut i: usize = 0;
    proof {
        assert(enc_elements_items(out@) =~= Seq::<u8>::empty());
        assert(buf@.subrange(mid as int, cur as int) =~= enc_elements_items(out@));
        assert forall|es: Seq<Element>| elems_list_hyp(buf@, pos as int, es) implies out@
            == es.take(0) && es.len() == n by {
            assert(es.take(0) =~= Seq::<Element>::empty());
        }
    }
    while i < n
        invariant
            0 <= i <= n,
            out@.len() == i,
            pos <= mid <= cur <= buf@.len(),
            mid == pos + 21,
            buf@.subrange(mid as int, cur as int) == enc_elements_items(out@),
            crate::strokes::elems_all_wf(out@),
            forall|es: Seq<Element>| #[trigger] elems_list_hyp(buf@, pos as int, es) ==> (out@
                == es.take(i as int) && es.len() == n),
        decreases n - i,
    {
        proof {
            assert forall|es: Seq<Element>| elems_list_hyp(buf@, pos as int, es) implies enc_at(
                buf@,
                cur as int,
                enc_element(es[i as int]),
            ) && es[i as int].inputdata.pos.wf() by {
                lemma_enc_at_pair(
                    buf@,
                    pos as int,
                    enc_u64(es.len() as u64),
                    enc_elements_items(es),
                );
                lemma_elems_items_split(es, i as int);
                assert(enc_elements_items(es.take(i as int)) == enc_elements_items(out@));
                lemma_enc_at_pair(
                    buf@,
                    pos as int + 21,
                    enc_elements_items(es.take(i as int)),
                    elems_items_from(es, i as int),
                );
                assert(elems_items_from(es, i as int) == enc_element(es[i as int])
                    + elems_items_from(es, i as int + 1));
                lemma_enc_at_pair(
                    buf@,
                    cur as int,
                    enc_element(es[i as int]),
                    elems_items_from(es, i as int + 1),
                );
            }
        }
        let res1 = read_element(buf, cur);
        let (e, next) = match res1 {
            Ok(p) => p,
            Err(err) => {
                return Err(err);
            },
        };
        let ghost pre = out@;
        out.push(e);
        proof {
            assert(out@.drop_last() =~= pre);
            assert(out@.last() == e);
            assert(buf@.subrange(mid as int, next as int) =~= buf@.subrange(mid as int, cur as int)
                + buf@.subrange(cur as int, next as int));
            assert(enc_elements_items(out@) == enc_elements_items(pre) + enc_element(out@.last()));
            assert forall|es: Seq<Element>| elems_list_hyp(buf@, pos as int, es) implies out@
                == es.take(i as int + 1) by {
                assert(e == es[i as int]);
                assert(out@ =~= es.take(i as int + 1));
            }
        }
        cur = next;
        i += 1;
    }
    proof {
        assert(buf@.subrange(pos as int, cur as int) =~= buf@.subrange(pos as int, mid as int)
            + buf@.subrange(mid as int, cur as int));
        assert(out@.len() as u64 == count);
        assert(buf@.subrange(pos as int, cur as int) =~= enc_elements(out@));
        assert forall|es: Seq<Element>| #[trigger] elems_list_hyp(buf@, pos as int, es) implies out@
            == es && cur == pos + enc_elements(es).len() by {
            assert(es.take(n as int) =~= es);
            assert(enc_elements(es) == enc_elements(out@));
        }
    }
    Ok((out, cur))
}

/// The items of a box run from index `i` on.
pub open spec fn aabbs_items_from(bs: Seq<Aabb>, i: int) -> Seq<u8>
    decreases bs.len() - i,
{
    if i < 0 || i >= bs.len() {
        Seq::empty()
    } else {
        enc_aabb(bs[i]) + aabbs_items_from(bs, i + 1)
    }
}

/// A box run splits at any index.
pub proof fn lemma_aabbs_items_split(bs: Seq<Aabb>, i: int)
    requires
        0 <= i <= bs.len(),
    ensures
        enc_aabbs_items(bs) == enc_aabbs_items(bs.take(i)) + aabbs_items_from(bs, i),
    decreases bs.len() - i,
{
    if i == bs.len() {
        assert(bs.take(i) =~= bs);
        assert(enc_aabbs_items(bs.take(i)) + aabbs_items_from(bs, i) =~= enc_aabbs_items(bs));
    } else {
        lemma_aabbs_items_split(bs, i + 1);
        let t1 = bs.take(i + 1);
        assert(t1.drop_last() =~= bs.take(i));
        assert(t1.last() == bs[i]);
        assert(enc_aabbs_items(t1) == enc_aabbs_items(bs.take(i)) + enc_aabb(bs[i]));
        assert(enc_aabbs_items(bs.take(i)) + (enc_aabb(bs[i]) + aabbs_items_from(bs, i + 1))
            =~= (enc_aabbs_items(bs.take(i)) + enc_aabb(bs[i])) + aabbs_items_from(bs, i + 1));
    }
}

/// What a hypothesized box list pins down.
pub open spec fn aabbs_list_hyp(b: Seq<u8>, pos: int, bs: Seq<Aabb>) -> bool {
    &&& bs.len() <= usize::MAX
    &&& enc_at(b, pos, enc_aabbs(bs))
    &&& aabbs_corners_wf(bs)
}

pub fn read_aabbs(buf: &Vec<u8>, pos: usize) -> (r: Result<(Vec<Aabb>, usize), DecodeError>)
    requires
        pos <= buf@.len(),
    ensures
        r matches Ok(p) ==> pos <= p.1 <= buf@.len() && buf@.subrange(pos as int, p.1 as int)
            == enc_aabbs(p.0@) && aabbs_corners_wf(p.0@),
        forall|bs: Seq<Aabb>| #[trigger] aabbs_list_hyp(buf@, pos as int, bs) ==> (r matches Ok(p)
            && p.0@ == bs && p.1 == pos + enc_aabbs(bs).len()),
{
    proof {
        assert forall|bs: Seq<Aabb>| aabbs_list_hyp(buf@, pos as int, bs) implies enc_at(
            buf@,
            pos as int,
            enc_u64(bs.len() as u64),
        ) && enc_at(buf@, pos as int + 21, enc_aabbs_items(bs)) by {
            lemma_enc_at_pair(buf@, pos as int, enc_u64(bs.len() as u64), enc_aabbs_items(bs));
        }
    }
    let res0 = read_u64(buf, pos);
    let (count, mid) = match res0 {
        Ok(p) => p,
        Err(e) => {
            return Err(e);
        },
    };
    if count > (usize::MAX as u64) {
        return Err(DecodeError::new(Option::None, DecodeReason::Truncated));
    }
    let n = count as usize;
    let mut out: Vec<Aabb> = Vec::new();
    let mut cur: usize = mid;
    let mut i: usize = 0;
    proof {
        assert(enc_aabbs_items(out@) =~= Seq::<u8>::empty());
        assert(buf@.subrange(mid as int, cur as int) =~= enc_aabbs_items(out@));
        assert forall|bs: Seq<Aabb>| aabbs_list_hyp(buf@, pos as int, bs) implies out@ == bs.take(0)
            && bs.len() == n by {
            assert(bs.take(0) =~= Seq::<Aabb>::empty());
        }
    }
    while i < n
        invariant
            0 <= i <= n,
            out@.len() == i,
            pos <= mid <= cur <= buf@.len(),
            mid == pos + 21,
            buf@.subrange(mid as int, cur as int) == enc_aabbs_items(out@),
            aabbs_corners_wf(out@),
            forall|bs: Seq<Aabb>| #[trigger] aabbs_list_hyp(buf@, pos as int, bs) ==> (out@
                == bs.take(i as int) && bs.len() == n),
        decreases n - i,
    {
        proof {
            assert forall|bs: Seq<Aabb>| aabbs_list_hyp(buf@, pos as int, bs) implies enc_at(
                buf@,
                cur as int,
                enc_aabb(bs[i as int]),
            ) && aabb_corners_wf(bs[i as int]) by {
                lemma_enc_at_pair(buf@, pos as int, enc_u64(bs.len() as u64), enc_aabbs_items(bs));
                lemma_aabbs_items_split(bs, i as int);
                assert(enc_aabbs_items(bs.take(i as int)) == enc_aabbs_items(out@));
                lemma_enc_at_pair(
                    buf@,
                    pos as int + 21,
                    enc_aabbs_items(bs.take(i as int)),
                    aabbs_items_from(bs, i as int),
                );
                assert(aabbs_items_from(bs, i as int) == enc_aabb(bs[i as int]) + aabbs_items_from(
                    bs,
                    i as int + 1,
                ));
                lemma_enc_at_pair(
                    buf@,
                    cur as int,
                    enc_aabb(bs[i as int]),
                    aabbs_items_from(bs, i as int + 1),
                );
            }
        }
        let res1 = read_aabb(buf, cur);
        let (bx, next) = match res1 {
            Ok(p) => p,
            Err(err) => {
                return Err(err);
            },
        };
        let ghost pre = out@;
        out.push(bx);
        proof {
            assert(out@.drop_last() =~= pre);
            assert(out@.last() == bx);
            assert(buf@.subrange(mid as int, next as int) =~= buf@.subrange(mid as int, cur as int)
                + buf@.subrange(cur as int, next as int));
            assert(enc_aabbs_items(out@) == enc_aabbs_items(pre) + enc_aabb(out@.last()));
            assert forall|bs: Seq<Aabb>| aabbs_list_hyp(buf@, pos as int, bs) implies out@
                == bs.take(i as int + 1) by {
                assert(bx == bs[i as int]);
                assert(out@ =~= bs.take(i as int + 1));
            }
        }
        cur = next;
        i += 1;
    }
    proof {
        assert(buf@.subrange(pos as int, cur as int) =~= buf@.subrange(pos as int, mid as int)
            + buf@.subrange(mid as int, cur as int));
        assert(out@.len() as u64 == count);
        assert(buf@.subrange(pos as int, cur as int) =~= enc_aabbs(out@));
        assert forall|bs: Seq<Aabb>| #[trigger] aabbs_list_hyp(buf@, pos as int, bs) implies out@
            == bs && cur == pos + enc_aabbs(bs).len() by {
            assert(bs.take(n as int) =~= bs);
            assert(enc_aabbs(bs) == enc_aabbs(out@));
        }
    }
    Ok((out, cur))
}

/// What a hypothesized stroke encoding pins down.
pub open spec fn stroke_hyp(b: Seq<u8>, pos: int, v: StrokeStyle) -> bool {
    enc_at(b, pos, enc_stroke(v)) && stroke_decode_valid(v)
}

/// Splits every hypothesized stroke encoding at `pos` into its parts.
#[verifier::rlimit(100)]
proof fn stroke_hyp_split(b: Seq<u8>, pos: int)
    ensures
        forall|v: StrokeStyle| #[trigger] stroke_hyp(b, pos, v) ==> stroke_parts_at(b, pos, v),
{
    assert forall|v: StrokeStyle| #[trigger] stroke_hyp(b, pos, v) implies stroke_parts_at(
        b,
        pos,
        v,
    ) by {
        broadcast use vstd::std_specs::vec::axiom_spec_len;

        match v {
            StrokeStyle::MarkerStroke(m) => {
                assert(vstd::std_specs::vec::spec_vec_len(&m.elements) == m.elements@.len());
                assert(vstd::std_specs::vec::spec_vec_len(&m.hitbox) == m.hitbox@.len());
                let t = seq![109u8, 10u8];
                lemma_enc_at_pair(
                    b,
                    pos,
                    t + enc_options(m.options) + enc_elements(m.elements@) + enc_aabb(m.bounds),
                    enc_aabbs(m.hitbox@),
                );
                lemma_enc_at_pair(
                    b,
                    pos,
                    t + enc_options(m.options) + enc_elements(m.elements@),
                    enc_aabb(m.bounds),
                );
                lemma_enc_at_pair(b, pos, t + enc_options(m.options), enc_elements(m.elements@));
                lemma_enc_at_pair(b, pos, t, enc_options(m.options));
                assert(b[pos] == (t + enc_options(m.options))[0]);
                assert(b[pos + 1] == (t + enc_options(m.options))[1]);
            },
            StrokeStyle::BrushStroke(m) => {
                assert(vstd::std_specs::vec::spec_vec_len(&m.elements) == m.elements@.len());
                assert(vstd::std_specs::vec::spec_vec_len(&m.hitbox) == m.hitbox@.len());
                let t = seq![98u8, 10u8];
                lemma_enc_at_pair(
                    b,
                    pos,
                    t + enc_options(m.options) + enc_u64(m.template_id) + enc_elements(m.elements@)
                        + enc_aabb(m.bounds),
                    enc_aabbs(m.hitbox@),
                );
                lemma_enc_at_pair(
                    b,
                    pos,
                    t + enc_options(m.options) + enc_u64(m.template_id) + enc_elements(m.elements@),
                    enc_aabb(m.bounds),
                );
                lemma_enc_at_pair(
                    b,
                    pos,
                    t + enc_options(m.options) + enc_u64(m.template_id),
                    enc_elements(m.elements@),
                );
                lemma_enc_at_pair(b, pos, t + enc_options(m.options), enc_u64(m.template_id));
                lemma_enc_at_pair(b, pos, t, enc_options(m.options));
                assert(b[pos] == (t + enc_options(m.options))[0]);
                assert(b[pos + 1] == (t + enc_options(m.options))[1]);
            },
            StrokeStyle::VectorImage(m) => {
                assert(vstd::std_specs::vec::spec_vec_len(&m.data_svg) == m.data_svg@.len());
                let t = seq![118u8, 10u8];
                lemma_enc_at_pair(
                    b,
                    pos,
                    t + enc_bytes(m.data_svg@) + enc_vector2(m.pos) + enc_vector2(m.intrinsic_size),
                    enc_aabb(m.bounds),
                );
                lemma_enc_at_pair(
                    b,
                    pos,
                    t + enc_bytes(m.data_svg@) + enc_vector2(m.pos),
                    enc_vector2(m.intrinsic_size),
                );
                lemma_enc_at_pair(b, pos, t + enc_bytes(m.data_svg@), enc_vector2(m.pos));
                lemma_enc_at_pair(b, pos, t, enc_bytes(m.data_svg@));
                assert(b[pos] == (t + enc_bytes(m.data_svg@))[0]);
                assert(b[pos + 1] == (t + enc_bytes(m.data_svg@))[1]);
            },
            StrokeStyle::BitmapImage(m) => {
                assert(vstd::std_specs::vec::spec_vec_len(&m.data) == m.data@.len());
                let t = seq![105u8, 10u8];
                lemma_enc_at_pair(
                    b,
                    pos,
                    t + enc_bytes(m.data@) + enc_image_format(m.format) + enc_vector2(m.pos)
                        + enc_vector2(m.intrinsic_size),
                    enc_aabb(m.bounds),
                );
                lemma_enc_at_pair(
                    b,
                    pos,
                    t + enc_bytes(m.data@) + enc_image_format(m.format) + enc_vector2(m.pos),
                    enc_vector2(m.intrinsic_size),
                );
                lemma_enc_at_pair(
                    b,
                    pos,
                    t + enc_bytes(m.data@) + enc_image_format(m.format),
                    enc_vector2(m.pos),
                );
                lemma_enc_at_pair(b, pos, t + enc_bytes(m.data@), enc_image_format(m.format));
                lemma_enc_at_pair(b, pos, t, enc_bytes(m.data@));
                assert(b[pos] == (t + enc_bytes(m.data@))[0]);
                assert(b[pos + 1] == (t + enc_bytes(m.data@))[1]);
            },
        }
    }
}

/// Where each part of a hypothesized stroke stands in the buffer.
pub open spec fn stroke_parts_at(b: Seq<u8>, pos: int, v: StrokeStyle) -> bool {
    match v {
        StrokeStyle::MarkerStroke(m) => {
            &&& pos + 2 <= b.len()
            &&& b[pos] == 109u8
            &&& b[pos + 1] == 10u8
            &&& enc_at(b, pos + 2, enc_options(m.options))
            &&& elems_list_hyp(b, pos + 107, m.elements@)
            &&& enc_at(b, pos + 107 + enc_elements(m.elements@).len(), enc_aabb(m.bounds))
            &&& aabbs_list_hyp(b, pos + 195 + enc_elements(m.elements@).len(), m.hitbox@)
        },
        StrokeStyle::BrushStroke(m) => {
            &&& pos + 2 <= b.len()
            &&& b[pos] == 98u8
            &&& b[pos + 1] == 10u8
            &&& enc_at(b, pos + 2, enc_options(m.options))
            &&& enc_at(b, pos + 107, enc_u64(m.template_id))
            &&& elems_list_hyp(b, pos + 128, m.elements@)
            &&& enc_at(b, pos + 128 + enc_elements(m.elements@).len(), enc_aabb(m.bounds))
            &&& aabbs_list_hyp(b, pos + 216 + enc_elements(m.elements@).len(), m.hitbox@)
        },
        StrokeStyle::VectorImage(m) => {
            &&& pos + 2 <= b.len()
            &&& b[pos] == 118u8
            &&& b[pos + 1] == 10u8
            &&& m.data_svg@.len() <= usize::MAX
            &&& enc_at(b, pos + 2, enc_bytes(m.data_svg@))
            &&& enc_at(b, pos + 2 + enc_bytes(m.data_svg@).len(), enc_vector2(m.pos))
            &&& enc_at(
                b,
                pos + 46 + enc_bytes(m.data_svg@).len(),
                enc_vector2(m.intrinsic_size),
            )
            &&& enc_at(b, pos + 90 + enc_bytes(m.data_svg@).len(), enc_aabb(m.bounds))
        },
        StrokeStyle::BitmapImage(m) => {
            &&& pos + 2 <= b.len()
            &&& b[pos] == 105u8
            &&& b[pos + 1] == 10u8
            &&& m.data@.len() <= usize::MAX
            &&& enc_at(b, pos + 2, enc_bytes(m.data@))
            &&& enc_at(b, pos + 2 + enc_bytes(m.data@).len(), enc_image_format(m.format))
            &&& enc_at(b, pos + 4 + enc_bytes(m.data@).len(), enc_vector2(m.pos))
            &&& enc_at(
                b,
                pos + 48 + enc_bytes(m.data@).len(),
                enc_vector2(m.intrinsic_size),
            )
            &&& enc_at(b, pos + 92 + enc_bytes(m.data@).len(), enc_aabb(m.bounds))
        },
    }
}

#[verifier::rlimit(100)]
#[verifier::spinoff_prover]
pub fn read_stroke(buf: &Vec<u8>, pos: usize) -> (r: Result<(StrokeStyle, usize), DecodeError>)
    requires
        pos <= buf@.len(),
    ensures
        r matches Ok(p) ==> pos <= p.1 <= buf@.len() && buf@.subrange(pos as int, p.1 as int)
            == enc_stroke(p.0) && stroke_decode_valid(p.0),
        forall|v: StrokeStyle| #[trigger] stroke_hyp(buf@, pos as int, v) ==> (r matches Ok(p)
            && crate::eq::stroke_like(p.0, v) && p.1 == pos + enc_stroke(v).len()),
{
    proof {
        stroke_hyp_split(buf@, pos as int);
    }
    if buf.len() - pos < 2 {
        return Err(DecodeError::new(Option::None, DecodeReason::Truncated));
    }
    if buf[pos + 1] != 10 {
        return Err(DecodeError::new(Option::None, DecodeReason::BadTag));
    }
    let tag = buf[pos];
    let body = pos + 2;
    if tag == 109 || tag == 98 {
        let res_options = read_options(buf, body);
        let (options, m1) = match res_options {
            Ok(p) => p,
            Err(e) => {
                return Err(e);
            },
        };
        let res_template = if tag == 98 {
            read_u64(buf, m1)
        } else {
            Ok((0u64, m1))
        };
        let (template_id, m1b) = match res_template {
            Ok(p) => p,
            Err(e) => {
                return Err(e);
            },
        };
        let res_elements = read_elements(buf, m1b);
        let (elements, m2) = match res_elements {
            Ok(p) => p,
            Err(e) => {
                return Err(e);
            },
        };
        if elements.len() == 0 {
            return Err(DecodeError::new(Option::None, DecodeReason::OutOfRange));
        }
        let res_bounds = read_aabb(buf, m2);
        let (bounds, m3) = match res_bounds {
            Ok(p) => p,
            Err(e) => {
                return Err(e);
            },
        };
        let res_hitbox = read_aabbs(buf, m3);
        let (hitbox, m4) = match res_hitbox {
            Ok(p) => p,
            Err(e) => {
                return Err(e);
            },
        };
        let s = if tag == 109 {
            StrokeStyle::MarkerStroke(
                MarkerStroke {
                    elements,
                    bounds,
                    hitbox,
                    options,
                    rendernode: RenderNode::empty(),
                },
            )
        } else {
            StrokeStyle::BrushStroke(
                BrushStroke {
                    elements,
                    bounds,
                    hitbox,
                    options,
                    template_id,
                    rendernode: RenderNode::empty(),
                },
            )
        };
        proof {
            assert(buf@.subrange(pos as int, m4 as int) =~= buf@.subrange(pos as int, body as int)
                + buf@.subrange(body as int, m1 as int) + buf@.subrange(m1 as int, m1b as int)
                + buf@.subrange(m1b as int, m2 as int) + buf@.subrange(m2 as int, m3 as int)
                + buf@.subrange(m3 as int, m4 as int));
            assert(buf@.subrange(pos as int, body as int) =~= seq![tag, 10u8]);
            assert(buf@.subrange(pos as int, m4 as int) =~= enc_stroke(s));
        }
        Ok((s, m4))
    } else if tag == 118 {
        let res_data = read_blob(buf, body);
        let (data_svg, m1) = match res_data {
            Ok(p) => p,
            Err(e) => {
                return Err(e);
            },
        };
        let res_pos = read_vector2(buf, m1);
        let (ipos, m2) = match res_pos {
            Ok(p) => p,
            Err(e) => {
                return Err(e);
            },
        };
        let res_size = read_vector2(buf, m2);
        let (isize, m3) = match res_size {
            Ok(p) => p,
            Err(e) => {
                return Err(e);
            },
        };
        let res_bounds = read_aabb(buf, m3);
        let (bounds, m4) = match res_bounds {
            Ok(p) => p,
            Err(e) => {
                return Err(e);
            },
        };
        if isize.x < 1 || isize.y < 1 || ipos.x > crate::geometry::MAX_COORD - isize.x || ipos.y
            > crate::geometry::MAX_COORD - isize.y {
            return Err(DecodeError::new(Option::None, DecodeReason::OutOfRange));
        }
        if !(bounds.mins.x == ipos.x && bounds.mins.y == ipos.y && bounds.maxs.x == ipos.x
            + isize.x && bounds.maxs.y == ipos.y + isize.y) {
            return Err(DecodeError::new(Option::None, DecodeReason::OutOfRange));
        }
        let s = StrokeStyle::VectorImage(
            VectorImage {
                data_svg,
                bounds,
                intrinsic_size: isize,
                pos: ipos,
                rendernode: RenderNode::empty(),
            },
        );
        proof {
            assert(buf@.subrange(pos as int, m4 as int) =~= buf@.subrange(pos as int, body as int)
                + buf@.subrange(body as int, m1 as int) + buf@.subrange(m1 as int, m2 as int)
                + buf@.subrange(m2 as int, m3 as int) + buf@.subrange(m3 as int, m4 as int));
            assert(buf@.subrange(pos as int, body as int) =~= seq![118u8, 10u8]);
            assert(buf@.subrange(pos as int, m4 as int) =~= enc_stroke(s));
        }
        Ok((s, m4))
    } else if tag == 105 {
        let res_data = read_blob(buf, body);
        let (data, m1) = match res_data {
            Ok(p) => p,
            Err(e) => {
                return Err(e);
            },
        };
        let res_fmt = read_image_format(buf, m1);
        let (ifmt, m1b) = match res_fmt {
            Ok(p) => p,
            Err(e) => {
                return Err(e);
            },
        };
        let res_pos = read_vector2(buf, m1b);
        let (ipos, m2) = match res_pos {
            Ok(p) => p,
            Err(e) => {
                return Err(e);
            },
        };
        let res_size = read_vector2(buf, m2);
        let (isize, m3) = match res_size {
            Ok(p) => p,
            Err(e) => {
                return Err(e);
            },
        };
        let res_bounds = read_aabb(buf, m3);
        let (bounds, m4) = match res_bounds {
            Ok(p) => p,
            Err(e) => {
                return Err(e);
            },
        };
        if isize.x < 1 || isize.y < 1 || ipos.x > crate::geometry::MAX_COORD - isize.x || ipos.y
            > crate::geometry::MAX_COORD - isize.y {
            return Err(DecodeError::new(Option::None, DecodeReason::OutOfRange));
        }
        if !(bounds.mins.x == ipos.x && bounds.mins.y == ipos.y && bounds.maxs.x == ipos.x
            + isize.x && bounds.maxs.y == ipos.y + isize.y) {
            return Err(DecodeError::new(Option::None, DecodeReason::OutOfRange));
        }
        let s = StrokeStyle::BitmapImage(
            BitmapImage {
                data,
                format: ifmt,
                bounds,
                intrinsic_size: isize,
                pos: ipos,
                rendernode: RenderNode::empty(),
            },
        );
        proof {
            assert(buf@.subrange(pos as int, m4 as int) =~= buf@.subrange(pos as int, body as int)
                + buf@.subrange(body as int, m1 as int) + buf@.subrange(m1 as int, m1b as int)
                + buf@.subrange(m1b as int, m2 as int) + buf@.subrange(m2 as int, m3 as int)
                + buf@.subrange(m3 as int, m4 as int));
            assert(buf@.subrange(pos as int, body as int) =~= seq![105u8, 10u8]);
            assert(buf@.subrange(pos as int, m4 as int) =~= enc_stroke(s));
        }
        Ok((s, m4))
    } else {
        Err(DecodeError::new(Option::None, DecodeReason::BadTag))
    }
}

/// Equal strokes at view level have equal encodings.
pub proof fn lemma_enc_stroke_congruence(a: StrokeStyle, b: StrokeStyle)
    requires
        crate::eq::stroke_like(a, b),
    ensures
        enc_stroke(a) == enc_stroke(b),
{
}

/// The items of a stroke run from index `i` on.
pub open spec fn strokes_items_from(ss: Seq<StrokeStyle>, i: int) -> Seq<u8>
    decreases ss.len() - i,
{
    if i < 0 || i >= ss.len() {
        Seq::empty()
    } else {
        enc_stroke(ss[i]) + strokes_items_from(ss, i + 1)
    }
}

/// A stroke run splits at any index.
pub proof fn lemma_strokes_items_split(ss: Seq<StrokeStyle>, i: int)
    requires
        0 <= i <= ss.len(),
    ensures
        enc_strokes_items(ss) == enc_strokes_items(ss.take(i)) + strokes_items_from(ss, i),
    decreases ss.len() - i,
{
    if i == ss.len() {
        assert(ss.take(i) =~= ss);
        assert(enc_strokes_items(ss.take(i)) + strokes_items_from(ss, i) =~= enc_strokes_items(ss));
    } else {
        lemma_strokes_items_split(ss, i + 1);
        let t1 = ss.take(i + 1);
        assert(t1.drop_last() =~= ss.take(i));
        assert(t1.last() == ss[i]);
        assert(enc_strokes_items(t1) == enc_strokes_items(ss.take(i)) + enc_stroke(ss[i]));
        assert(enc_strokes_items(ss.take(i)) + (enc_stroke(ss[i]) + strokes_items_from(ss, i + 1))
            =~= (enc_strokes_items(ss.take(i)) + enc_stroke(ss[i])) + strokes_items_from(
            ss,
            i + 1,
        ));
    }
}

/// What a hypothesized stroke list pins down.
pub open spec fn strokes_list_hyp(b: Seq<u8>, pos: int, ss: Seq<StrokeStyle>) -> bool {
    &&& ss.len() <= usize::MAX
    &&& enc_at(b, pos, enc_strokes(ss))
    &&& strokes_decode_valid(ss)
}

pub fn read_strokes(buf: &Vec<u8>, pos: usize) -> (r: Result<(Vec<StrokeStyle>, usize), DecodeError>)
    requires
        pos <= buf@.len(),
    ensures
        r matches Ok(p) ==> pos <= p.1 <= buf@.len() && buf@.subrange(pos as int, p.1 as int)
            == enc_strokes(p.0@) && strokes_decode_valid(p.0@),
        forall|ss: Seq<StrokeStyle>| #[trigger] strokes_list_hyp(buf@, pos as int, ss) ==> (
        r matches Ok(p) && crate::eq::strokes_like(p.0@, ss) && p.1 == pos + enc_strokes(ss).len()),
{
    proof {
        assert forall|ss: Seq<StrokeStyle>| strokes_list_hyp(buf@, pos as int, ss) implies enc_at(
            buf@,
            pos as int,
            enc_u64(ss.len() as u64),
        ) && enc_at(buf@, pos as int + 21, enc_strokes_items(ss)) by {
            lemma_enc_at_pair(buf@, pos as int, enc_u64(ss.len() as u64), enc_strokes_items(ss));
        }
    }
    let res0 = read_u64(buf, pos);
    let (count, mid) = match res0 {
        Ok(p) => p,
        Err(e) => {
            return Err(e);
        },
    };
    if count > (usize::MAX as u64) {
        return Err(DecodeError::new(Option::None, DecodeReason::Truncated));
    }
    let n = count as usize;
    let mut out: Vec<StrokeStyle> = Vec::new();
    let mut cur: usize = mid;
    let mut i: usize = 0;
    proof {
        assert(enc_strokes_items(out@) =~= Seq::<u8>::empty());
        assert(buf@.subrange(mid as int, cur as int) =~= enc_strokes_items(out@));
        assert forall|ss: Seq<StrokeStyle>| strokes_list_hyp(buf@, pos as int, ss) implies
            crate::eq::strokes_like(out@, ss.take(0)) && ss.len() == n && buf@.subrange(
            mid as int,
            cur as int,
        ) == enc_strokes_items(ss.take(0)) by {
            assert(ss.take(0) =~= Seq::<StrokeStyle>::empty());
            assert(enc_strokes_items(ss.take(0)) =~= Seq::<u8>::empty());
        }
    }
    while i < n
        invariant
            0 <= i <= n,
            out@.len() == i,
            pos <= mid <= cur <= buf@.len(),
            mid == pos + 21,
            buf@.subrange(mid as int, cur as int) == enc_strokes_items(out@),
            strokes_decode_valid(out@),
            forall|ss: Seq<StrokeStyle>| #[trigger] strokes_list_hyp(buf@, pos as int, ss) ==> (
            crate::eq::strokes_like(out@, ss.take(i as int)) && ss.len() == n && buf@.subrange(
                mid as int,
                cur as int,
            ) == enc_strokes_items(ss.take(i as int))),
        decreases n - i,
    {
        proof {
            assert forall|ss: Seq<StrokeStyle>|
                strokes_list_hyp(buf@, pos as int, ss) implies stroke_hyp(
                buf@,
                cur as int,
                ss[i as int],
            ) by {
                lemma_enc_at_pair(
                    buf@,
                    pos as int,
                    enc_u64(ss.len() as u64),
                    enc_strokes_items(ss),
                );
                lemma_strokes_items_split(ss, i as int);
                lemma_enc_at_pair(
                    buf@,
                    pos as int + 21,
                    enc_strokes_items(ss.take(i as int)),
                    strokes_items_from(ss, i as int),
                );
                assert(strokes_items_from(ss, i as int) == enc_stroke(ss[i as int])
                    + strokes_items_from(ss, i as int + 1));
                lemma_enc_at_pair(
                    buf@,
                    cur as int,
                    enc_stroke(ss[i as int]),
                    strokes_items_from(ss, i as int + 1),
                );
                assert(ss[i as int].completable());
            }
        }
        let res1 = read_stroke(buf, cur);
        let (s, next) = match res1 {
            Ok(p) => p,
            Err(err) => {
                return Err(err);
            },
        };
        let ghost pre = out@;
        out.push(s);
        proof {
            assert(out@.drop_last() =~= pre);
            assert(out@.last() == s);
            assert(buf@.subrange(mid as int, next as int) =~= buf@.subrange(mid as int, cur as int)
                + buf@.subrange(cur as int, next as int));
            assert(enc_strokes_items(out@) == enc_strokes_items(pre) + enc_stroke(out@.last()));
            assert forall|ss: Seq<StrokeStyle>|
                strokes_list_hyp(buf@, pos as int, ss) implies crate::eq::strokes_like(
                out@,
                ss.take(i as int + 1),
            ) && buf@.subrange(mid as int, next as int) == enc_strokes_items(
                ss.take(i as int + 1),
            ) by {
                assert(crate::eq::stroke_like(s, ss[i as int]));
                lemma_enc_stroke_congruence(s, ss[i as int]);
                let t1 = ss.take(i as int + 1);
                assert(t1.drop_last() =~= ss.take(i as int));
                assert(t1.last() == ss[i as int]);
                assert(enc_strokes_items(t1) == enc_strokes_items(ss.take(i as int)) + enc_stroke(
                    ss[i as int],
                ));
                assert forall|j: int| 0 <= j < i + 1 implies crate::eq::stroke_like(
                    out@[j],
                    t1[j],
                ) by {
                    if j < i {
                        assert(crate::eq::stroke_like(pre[j], ss.take(i as int)[j]));
                    }
                }
            }
        }
        cur = next;
        i += 1;
    }
    proof {
        assert(buf@.subrange(pos as int, cur as int) =~= buf@.subrange(pos as int, mid as int)
            + buf@.subrange(mid as int, cur as int));
        assert(out@.len() as u64 == count);
        assert(buf@.subrange(pos as int, cur as int) =~= enc_strokes(out@));
        assert forall|ss: Seq<StrokeStyle>|
            #[trigger] strokes_list_hyp(buf@, pos as int, ss) implies crate::eq::strokes_like(
            out@,
            ss,
        ) && cur == pos + enc_strokes(ss).len() by {
            assert(ss.take(n as int) =~= ss);
        }
    }
    Ok((out, cur))
}

/// What a hypothesized selection encoding pins down.
pub open spec fn selection_hyp(b: Seq<u8>, pos: int, v: Selection) -> bool {
    &&& v.strokes@.len() <= usize::MAX
    &&& enc_at(b, pos, enc_selection(v))
    &&& strokes_decode_valid(v.strokes@)
    &&& (v.bounds matches Option::Some(bx) ==> aabb_corners_wf(bx))
}

pub fn read_selection(buf: &Vec<u8>, pos: usize) -> (r: Result<(Selection, usize), DecodeError>)
    requires
        pos <= buf@.len(),
    ensures
        r matches Ok(p) ==> pos <= p.1 <= buf@.len() && buf@.subrange(pos as int, p.1 as int)
            == enc_selection(p.0) && strokes_decode_valid(p.0.strokes@) && (p.0.bounds matches
            Option::Some(b) ==> aabb_corners_wf(b)),
        forall|v: Selection| #[trigger] selection_hyp(buf@, pos as int, v) ==> (r matches Ok(p)
            && crate::eq::strokes_like(p.0.strokes@, v.strokes@) && p.0.bounds == v.bounds
            && p.0.shown == v.shown && p.1 == pos + enc_selection(v).len()),
{
    proof {
        assert forall|v: Selection| selection_hyp(buf@, pos as int, v) implies strokes_list_hyp(
            buf@,
            pos as int,
            v.strokes@,
        ) && enc_at(buf@, pos as int + enc_strokes(v.strokes@).len(), enc_opt_aabb(v.bounds))
            && enc_at(
            buf@,
            pos as int + enc_strokes(v.strokes@).len() + enc_opt_aabb(v.bounds).len(),
            enc_bool(v.shown),
        ) by {
            lemma_enc_at_pair(
                buf@,
                pos as int,
                enc_strokes(v.strokes@) + enc_opt_aabb(v.bounds),
                enc_bool(v.shown),
            );
            lemma_enc_at_pair(buf@, pos as int, enc_strokes(v.strokes@), enc_opt_aabb(v.bounds));
        }
    }
    let res1 = read_strokes(buf, pos);
    let (ss, m1) = match res1 {
        Ok(p) => p,
        Err(e) => {
            return Err(e);
        },
    };
    let res2 = read_opt_aabb(buf, m1);
    let (bounds, m2) = match res2 {
        Ok(p) => p,
        Err(e) => {
            return Err(e);
        },
    };
    let res3 = read_bool(buf, m2);
    let (shown, m3) = match res3 {
        Ok(p) => p,
        Err(e) => {
            return Err(e);
        },
    };
    let s = Selection { strokes: ss, bounds, shown };
    proof {
        assert(buf@.subrange(pos as int, m3 as int) =~= buf@.subrange(pos as int, m1 as int)
            + buf@.subrange(m1 as int, m2 as int) + buf@.subrange(m2 as int, m3 as int));
        assert forall|v: Selection| #[trigger] selection_hyp(buf@, pos as int, v) implies m1 as int
            == pos + enc_strokes(v.strokes@).len() by {}
    }
    Ok((s, m3))
}

/// The canonical order of the document's fields.
pub fn field_rank(f: FieldId) -> (r: usize)
    ensures
        r == spec_field_rank(f),
{
    match f {
        FieldId::Strokes => 0,
        FieldId::StrokesTrash => 1,
        FieldId::SelectionField => 2,
        FieldId::FormatField => 3,
        FieldId::BackgroundField => 4,
        FieldId::X => 5,
        FieldId::Y => 6,
        FieldId::Width => 7,
        FieldId::Height => 8,
        FieldId::AutoexpandHeight => 9,
        FieldId::FormatBorders => 10,
        FieldId::PaddingBottom => 11,
    }
}

pub open spec fn spec_field_rank(f: FieldId) -> usize {
    match f {
        FieldId::Strokes => 0,
        FieldId::StrokesTrash => 1,
        FieldId::SelectionField => 2,
        FieldId::FormatField => 3,
        FieldId::BackgroundField => 4,
        FieldId::X => 5,
        FieldId::Y => 6,
        FieldId::Width => 7,
        FieldId::Height => 8,
        FieldId::AutoexpandHeight => 9,
        FieldId::FormatBorders => 10,
        FieldId::PaddingBottom => 11,
    }
}

/// Reads one field key; fails when the bytes match no field name.
pub fn read_key(buf: &Vec<u8>, pos: usize) -> (r: Result<(FieldId, usize), DecodeError>)
    requires
        pos <= buf@.len(),
    ensures
        r matches Ok(p) ==> pos <= p.1 <= buf@.len() && buf@.subrange(pos as int, p.1 as int)
            == enc_key(p.0),
{
    let candidates: [FieldId; 12] = [
        FieldId::Strokes,
        FieldId::StrokesTrash,
        FieldId::SelectionField,
        FieldId::FormatField,
        FieldId::BackgroundField,
        FieldId::X,
        FieldId::Y,
        FieldId::Width,
        FieldId::Height,
        FieldId::AutoexpandHeight,
        FieldId::FormatBorders,
        FieldId::PaddingBottom,
    ];
    let bl = buf.len();
    let mut i: usize = 0;
    while i < 12
        invariant
            0 <= i <= 12,
            pos <= buf@.len(),
            bl == buf@.len(),
        decreases 12 - i,
    {
        let f = candidates[i];
        let name = key_bytes(f);
        let mut pat: Vec<u8> = Vec::new();
        write_bytes(&mut pat, &name);
        if matches_at(buf, pos, &pat) {
            proof {
                assert(pat@ == enc_key(f));
            }
            return Ok((f, pos + pat.len()));
        }
        i += 1;
    }
    Err(DecodeError::new(Option::None, DecodeReason::UnknownField))
}

/// What a document hypothesized behind the whole buffer pins down.
pub open spec fn sheet_doc_hyp(b: Seq<u8>, s0: Sheet) -> bool {
    b == enc_sheet(s0) && sheet_decode_valid(s0)
}

/// What the hypothesized list section pins down.
pub open spec fn sheet_lists_hyp(b: Seq<u8>, s0: Sheet) -> bool {
    &&& s0.strokes@.len() <= usize::MAX
    &&& s0.strokes_trash@.len() <= usize::MAX
    &&& s0.selection.strokes@.len() <= usize::MAX
    &&& enc_at(b, 0, enc_sheet_lists(s0))
    &&& strokes_decode_valid(s0.strokes@)
    &&& strokes_decode_valid(s0.strokes_trash@)
    &&& strokes_decode_valid(s0.selection.strokes@)
    &&& (s0.selection.bounds matches Option::Some(bx) ==> aabb_corners_wf(bx))
}

/// What the hypothesized format and background section pins down.
pub open spec fn sheet_frame_hyp(b: Seq<u8>, pos: int, s0: Sheet) -> bool {
    &&& enc_at(b, pos, enc_sheet_frame(s0))
    &&& s0.format.wf()
    &&& s0.background.pattern_size.wf()
}

/// What the hypothesized scalar tail pins down.
pub open spec fn sheet_scalars_hyp(b: Seq<u8>, pos: int, s0: Sheet) -> bool {
    enc_at(b, pos, enc_sheet_scalars(s0))
}

/// Reads the three keyed stroke containers at the head of the document.
#[verifier::rlimit(60)]
fn decode_lists(buf: &Vec<u8>) -> (r: Result<
    (Vec<StrokeStyle>, Vec<StrokeStyle>, Selection, usize),
    DecodeError,
>)
    ensures
        r matches Ok(p) ==> p.3 <= buf@.len() && buf@.subrange(0, p.3 as int) == enc_key(
            FieldId::Strokes,
        ) + enc_strokes(p.0@) + enc_key(FieldId::StrokesTrash) + enc_strokes(p.1@) + enc_key(
            FieldId::SelectionField,
        ) + enc_selection(p.2) && strokes_decode_valid(p.0@) && strokes_decode_valid(p.1@)
            && strokes_decode_valid(p.2.strokes@) && (p.2.bounds matches Option::Some(b)
            ==> aabb_corners_wf(b)),
        forall|s0: Sheet| #[trigger] sheet_lists_hyp(buf@, s0) ==> (r matches Ok(p)
            && crate::eq::strokes_like(p.0@, s0.strokes@) && crate::eq::strokes_like(
            p.1@,
            s0.strokes_trash@,
        ) && crate::eq::strokes_like(p.2.strokes@, s0.selection.strokes@) && p.2.bounds
            == s0.selection.bounds && p.2.shown == s0.selection.shown && p.3 == enc_sheet_lists(
            s0,
        ).len()),
{
    proof {
        assert forall|s0: Sheet| sheet_lists_hyp(buf@, s0) implies enc_at(
            buf@,
            0,
            enc_key(FieldId::Strokes),
        ) && strokes_list_hyp(buf@, 28, s0.strokes@) && enc_at(
            buf@,
            28 + enc_strokes(s0.strokes@).len() as int,
            enc_key(FieldId::StrokesTrash),
        ) && strokes_list_hyp(buf@, 62 + enc_strokes(s0.strokes@).len() as int, s0.strokes_trash@)
            && enc_at(
            buf@,
            62 + enc_strokes(s0.strokes@).len() as int + enc_strokes(s0.strokes_trash@).len() as int,
            enc_key(FieldId::SelectionField),
        ) && selection_hyp(
            buf@,
            92 + enc_strokes(s0.strokes@).len() as int + enc_strokes(s0.strokes_trash@).len() as int,
            s0.selection,
        ) by {
            let k1 = enc_key(FieldId::Strokes);
            let s1 = enc_strokes(s0.strokes@);
            let k2 = enc_key(FieldId::StrokesTrash);
            let s2 = enc_strokes(s0.strokes_trash@);
            let k3 = enc_key(FieldId::SelectionField);
            let s3 = enc_selection(s0.selection);
            lemma_enc_at_pair(buf@, 0, k1 + s1 + k2 + s2 + k3, s3);
            lemma_enc_at_pair(buf@, 0, k1 + s1 + k2 + s2, k3);
            lemma_enc_at_pair(buf@, 0, k1 + s1 + k2, s2);
            lemma_enc_at_pair(buf@, 0, k1 + s1, k2);
            lemma_enc_at_pair(buf@, 0, k1, s1);
        }
    }
    let m0 = match expect_key(buf, 0, FieldId::Strokes) {
        Ok(p) => p,
        Err(e) => { return Err(e); },
    };
    let (strokes, m1) = match read_strokes(buf, m0) {
        Ok(p) => p,
        Err(e) => { return Err(with_field(e, FieldId::Strokes)); },
    };
    let m1k = match expect_key(buf, m1, FieldId::StrokesTrash) {
        Ok(p) => p,
        Err(e) => { return Err(e); },
    };
    let (strokes_trash, m2) = match read_strokes(buf, m1k) {
        Ok(p) => p,
        Err(e) => { return Err(with_field(e, FieldId::StrokesTrash)); },
    };
    let m2k = match expect_key(buf, m2, FieldId::SelectionField) {
        Ok(p) => p,
        Err(e) => { return Err(with_field(e, FieldId::SelectionField)); },
    };
    let (selection, m3) = match read_selection(buf, m2k) {
        Ok(p) => p,
        Err(e) => { return Err(with_field(e, FieldId::SelectionField)); },
    };
    proof {
        assert(buf@.subrange(0, m3 as int) =~= buf@.subrange(0, m0 as int) + buf@.subrange(
            m0 as int,
            m1 as int,
        ) + buf@.subrange(m1 as int, m1k as int) + buf@.subrange(m1k as int, m2 as int)
            + buf@.subrange(m2 as int, m2k as int) + buf@.subrange(m2k as int, m3 as int));
    }
    Ok((strokes, strokes_trash, selection, m3))
}

/// Reads the keyed format and background fields.
fn decode_frame(buf: &Vec<u8>, pos: usize) -> (r: Result<(Format, Background, usize), DecodeError>)
    requires
        pos <= buf@.len(),
    ensures
        r matches Ok(p) ==> pos <= p.2 <= buf@.len() && buf@.subrange(pos as int, p.2 as int)
            == enc_key(FieldId::FormatField) + enc_format(p.0) + enc_key(FieldId::BackgroundField)
            + enc_background(p.1) && p.0.wf() && p.1.pattern_size.wf(),
        forall|s0: Sheet| #[trigger] sheet_frame_hyp(buf@, pos as int, s0) ==> r == Ok::<
            (Format, Background, usize),
            DecodeError,
        >((s0.format, s0.background, (pos + 338) as usize)),
{
    proof {
        assert forall|s0: Sheet| sheet_frame_hyp(buf@, pos as int, s0) implies enc_at(
            buf@,
            pos as int,
            enc_key(FieldId::FormatField),
        ) && enc_at(buf@, pos as int + 27, enc_format(s0.format)) && enc_at(
            buf@,
            pos as int + 93,
            enc_key(FieldId::BackgroundField),
        ) && enc_at(buf@, pos as int + 124, enc_background(s0.background)) by {
            let k1 = enc_key(FieldId::FormatField);
            let f1 = enc_format(s0.format);
            let k2 = enc_key(FieldId::BackgroundField);
            let b1 = enc_background(s0.background);
            lemma_enc_at_pair(buf@, pos as int, k1 + f1 + k2, b1);
            lemma_enc_at_pair(buf@, pos as int, k1 + f1, k2);
            lemma_enc_at_pair(buf@, pos as int, k1, f1);
        }
    }
    let m0 = match expect_key(buf, pos, FieldId::FormatField) {
        Ok(p) => p,
        Err(e) => { return Err(e); },
    };
    let (format, m1) = match read_format(buf, m0) {
        Ok(p) => p,
        Err(e) => { return Err(with_field(e, FieldId::FormatField)); },
    };
    let m1k = match expect_key(buf, m1, FieldId::BackgroundField) {
        Ok(p) => p,
        Err(e) => { return Err(e); },
    };
    let (background, m2) = match read_background(buf, m1k) {
        Ok(p) => p,
        Err(e) => { return Err(with_field(e, FieldId::BackgroundField)); },
    };
    proof {
        assert(buf@.subrange(pos as int, m2 as int) =~= buf@.subrange(pos as int, m0 as int)
            + buf@.subrange(m0 as int, m1 as int) + buf@.subrange(m1 as int, m1k as int)
            + buf@.subrange(m1k as int, m2 as int));
    }
    Ok((format, background, m2))
}

/// Reads the scalar tail: position, extent, flags and padding.
#[verifier::rlimit(100)]
fn decode_scalars(buf: &Vec<u8>, pos: usize) -> (r: Result<
    ((i32, i32, i32, i32), (bool, bool), i32, usize),
    DecodeError,
>)
    requires
        pos <= buf@.len(),
    ensures
        r matches Ok(p) ==> pos <= p.3 <= buf@.len() && buf@.subrange(pos as int, p.3 as int)
            == enc_key(FieldId::X) + enc_i64(p.0.0 as i64) + enc_key(FieldId::Y) + enc_i64(
            p.0.1 as i64,
        ) + enc_key(FieldId::Width) + enc_i64(p.0.2 as i64) + enc_key(FieldId::Height) + enc_i64(
            p.0.3 as i64,
        ) + enc_key(FieldId::AutoexpandHeight) + enc_bool(p.1.0) + enc_key(FieldId::FormatBorders)
            + enc_bool(p.1.1) + enc_key(FieldId::PaddingBottom) + enc_i64(p.2 as i64),
        forall|s0: Sheet| #[trigger] sheet_scalars_hyp(buf@, pos as int, s0) ==> r == Ok::<
            ((i32, i32, i32, i32), (bool, bool), i32, usize),
            DecodeError,
        >((
            (s0.x, s0.y, s0.width, s0.height),
            (s0.autoexpand_height, s0.format_borders),
            s0.padding_bottom,
            (pos + 319) as usize,
        )),
{
    proof {
        assert forall|s0: Sheet| sheet_scalars_hyp(buf@, pos as int, s0) implies enc_at(
            buf@,
            pos as int,
            enc_key(FieldId::X),
        ) && enc_at(buf@, pos as int + 22, enc_i64(s0.x as i64)) && enc_at(
            buf@,
            pos as int + 44,
            enc_key(FieldId::Y),
        ) && enc_at(buf@, pos as int + 66, enc_i64(s0.y as i64)) && enc_at(
            buf@,
            pos as int + 88,
            enc_key(FieldId::Width),
        ) && enc_at(buf@, pos as int + 114, enc_i64(s0.width as i64)) && enc_at(
            buf@,
            pos as int + 136,
            enc_key(FieldId::Height),
        ) && enc_at(buf@, pos as int + 163, enc_i64(s0.height as i64)) && enc_at(
            buf@,
            pos as int + 185,
            enc_key(FieldId::AutoexpandHeight),
        ) && enc_at(buf@, pos as int + 223, enc_bool(s0.autoexpand_height)) && enc_at(
            buf@,
            pos as int + 225,
            enc_key(FieldId::FormatBorders),
        ) && enc_at(buf@, pos as int + 260, enc_bool(s0.format_borders)) && enc_at(
            buf@,
            pos as int + 262,
            enc_key(FieldId::PaddingBottom),
        ) && enc_at(buf@, pos as int + 297, enc_i64(s0.padding_bottom as i64)) by {
            let e1 = enc_key(FieldId::X);
            let e2 = enc_i64(s0.x as i64);
            let e3 = enc_key(FieldId::Y);
            let e4 = enc_i64(s0.y as i64);
            let e5 = enc_key(FieldId::Width);
            let e6 = enc_i64(s0.width as i64);
            let e7 = enc_key(FieldId::Height);
            let e8 = enc_i64(s0.height as i64);
            let e9 = enc_key(FieldId::AutoexpandHeight);
            let e10 = enc_bool(s0.autoexpand_height);
            let e11 = enc_key(FieldId::FormatBorders);
            let e12 = enc_bool(s0.format_borders);
            let e13 = enc_key(FieldId::PaddingBottom);
            let e14 = enc_i64(s0.padding_bottom as i64);
            lemma_enc_at_pair(
                buf@,
                pos as int,
                e1 + e2 + e3 + e4 + e5 + e6 + e7 + e8 + e9 + e10 + e11 + e12 + e13,
                e14,
            );
            lemma_enc_at_pair(
                buf@,
                pos as int,
                e1 + e2 + e3 + e4 + e5 + e6 + e7 + e8 + e9 + e10 + e11 + e12,
                e13,
            );
            lemma_enc_at_pair(
                buf@,
                pos as int,
                e1 + e2 + e3 + e4 + e5 + e6 + e7 + e8 + e9 + e10 + e11,
                e12,
            );
            lemma_enc_at_pair(
                buf@,
                pos as int,
                e1 + e2 + e3 + e4 + e5 + e6 + e7 + e8 + e9 + e10,
                e11,
            );
            lemma_enc_at_pair(buf@, pos as int, e1 + e2 + e3 + e4 + e5 + e6 + e7 + e8 + e9, e10);
            lemma_enc_at_pair(buf@, pos as int, e1 + e2 + e3 + e4 + e5 + e6 + e7 + e8, e9);
            lemma_enc_at_pair(buf@, pos as int, e1 + e2 + e3 + e4 + e5 + e6 + e7, e8);
            lemma_enc_at_pair(buf@, pos as int, e1 + e2 + e3 + e4 + e5 + e6, e7);
            lemma_enc_at_pair(buf@, pos as int, e1 + e2 + e3 + e4 + e5, e6);
            lemma_enc_at_pair(buf@, pos as int, e1 + e2 + e3 + e4, e5);
            lemma_enc_at_pair(buf@, pos as int, e1 + e2 + e3, e4);
            lemma_enc_at_pair(buf@, pos as int, e1 + e2, e3);
            lemma_enc_at_pair(buf@, pos as int, e1, e2);
        }
    }
    let k1 = match expect_key(buf, pos, FieldId::X) {
        Ok(p) => p,
        Err(e) => { return Err(e); },
    };
    let (x, m1) = match read_i32_field(buf, k1, FieldId::X) {
        Ok(p) => p,
        Err(e) => { return Err(e); },
    };
    let k2 = match expect_key(buf, m1, FieldId::Y) {
        Ok(p) => p,
        Err(e) => { return Err(e); },
    };
    let (y, m2) = match read_i32_field(buf, k2, FieldId::Y) {
        Ok(p) => p,
        Err(e) => { return Err(e); },
    };
    let k3 = match expect_key(buf, m2, FieldId::Width) {
        Ok(p) => p,
        Err(e) => { return Err(e); },
    };
    let (width, m3) = match read_i32_field(buf, k3, FieldId::Width) {
        Ok(p) => p,
        Err(e) => { return Err(e); },
    };
    let k4 = match expect_key(buf, m3, FieldId::Height) {
        Ok(p) => p,
        Err(e) => { return Err(e); },
    };
    let (height, m4) = match read_i32_field(buf, k4, FieldId::Height) {
        Ok(p) => p,
        Err(e) => { return Err(e); },
    };
    let k5 = match expect_key(buf, m4, FieldId::AutoexpandHeight) {
        Ok(p) => p,
        Err(e) => { return Err(e); },
    };
    let (autoexpand_height, m5) = match read_bool(buf, k5) {
        Ok(p) => p,
        Err(e) => { return Err(with_field(e, FieldId::AutoexpandHeight)); },
    };
    let k6 = match expect_key(buf, m5, FieldId::FormatBorders) {
        Ok(p) => p,
        Err(e) => { return Err(e); },
    };
    let (format_borders, m6) = match read_bool(buf, k6) {
        Ok(p) => p,
        Err(e) => { return Err(with_field(e, FieldId::FormatBorders)); },
    };
    let k7 = match expect_key(buf, m6, FieldId::PaddingBottom) {
        Ok(p) => p,
        Err(e) => { return Err(e); },
    };
    let (padding_bottom, m7) = match read_i32_field(buf, k7, FieldId::PaddingBottom) {
        Ok(p) => p,
        Err(e) => { return Err(e); },
    };
    proof {
        assert(buf@.subrange(pos as int, m7 as int) =~= buf@.subrange(pos as int, k1 as int)
            + buf@.subrange(k1 as int, m1 as int) + buf@.subrange(m1 as int, k2 as int)
            + buf@.subrange(k2 as int, m2 as int) + buf@.subrange(m2 as int, k3 as int)
            + buf@.subrange(k3 as int, m3 as int) + buf@.subrange(m3 as int, k4 as int)
            + buf@.subrange(k4 as int, m4 as int) + buf@.subrange(m4 as int, k5 as int)
            + buf@.subrange(k5 as int, m5 as int) + buf@.subrange(m5 as int, k6 as int)
            + buf@.subrange(k6 as int, m6 as int) + buf@.subrange(m6 as int, k7 as int)
            + buf@.subrange(k7 as int, m7 as int));
    }
    Ok(((x, y, width, height), (autoexpand_height, format_borders), padding_bottom, m7))
}

/// Splits every hypothesized whole document into its three sections.
#[verifier::rlimit(100)]
#[verifier::spinoff_prover]
proof fn sheet_doc_hyp_split(b: Seq<u8>)
    ensures
        forall|s0: Sheet| #[trigger] sheet_doc_hyp(b, s0) ==> sheet_lists_hyp(b, s0)
            && sheet_frame_hyp(b, enc_sheet_lists(s0).len() as int, s0) && sheet_scalars_hyp(
            b,
            enc_sheet_lists(s0).len() as int + 338,
            s0,
        ) && b.len() == enc_sheet_lists(s0).len() + 657,
{
    assert forall|s0: Sheet| sheet_doc_hyp(b, s0) implies sheet_lists_hyp(b, s0)
        && sheet_frame_hyp(b, enc_sheet_lists(s0).len() as int, s0) && sheet_scalars_hyp(
        b,
        enc_sheet_lists(s0).len() as int + 338,
        s0,
    ) && b.len() == enc_sheet_lists(s0).len() + 657 by {
        broadcast use vstd::std_specs::vec::axiom_spec_len;

        assert(vstd::std_specs::vec::spec_vec_len(&s0.strokes) == s0.strokes@.len());
        assert(vstd::std_specs::vec::spec_vec_len(&s0.strokes_trash) == s0.strokes_trash@.len());
        assert(vstd::std_specs::vec::spec_vec_len(&s0.selection.strokes)
            == s0.selection.strokes@.len());
        assert(enc_at(b, 0, enc_sheet(s0))) by {
            assert(b.subrange(0, enc_sheet(s0).len() as int) =~= enc_sheet(s0));
        }
        lemma_enc_at_pair(b, 0, enc_sheet_lists(s0) + enc_sheet_frame(s0), enc_sheet_scalars(s0));
        lemma_enc_at_pair(b, 0, enc_sheet_lists(s0), enc_sheet_frame(s0));
    }
}

/// Parses the whole native document; this contract is the
/// serialization round trip. Whatever the decoder accepts re-encodes to
/// exactly the bytes given, and every canonical document is accepted
/// and yields the very sheet it encodes, structurally, with fresh
/// render-node caches (the encoding never holds caches, so a sheet
/// round-trips modulo them). Anything else is refused, a repeated field
/// named as duplicate, an absent one as missing.
#[verifier::rlimit(100)]
#[verifier::spinoff_prover]
pub fn decode_sheet(buf: &Vec<u8>) -> (r: Result<Sheet, DecodeError>)
    ensures
        r matches Ok(s) ==> buf@ == enc_sheet(s) && sheet_decode_valid(s),
        forall|s0: Sheet| #[trigger] sheet_doc_hyp(buf@, s0) ==> (r matches Ok(w)
            && crate::eq::sheet_like(w, s0)),
{
    proof {
        sheet_doc_hyp_split(buf@);
    }
    let (strokes, strokes_trash, selection, p1) = match decode_lists(buf) {
        Ok(p) => p,
        Err(e) => { return Err(e); },
    };
    let (format, background, p2) = match decode_frame(buf, p1) {
        Ok(p) => p,
        Err(e) => { return Err(e); },
    };
    let (coords, flags, padding_bottom, p3) = match decode_scalars(buf, p2) {
        Ok(p) => p,
        Err(e) => { return Err(e); },
    };
    if p3 != buf.len() {
        return Err(DecodeError::new(Option::None, DecodeReason::TrailingData));
    }
    let s = Sheet {
        strokes,
        strokes_trash,
        selection,
        format,
        background,
        x: coords.0,
        y: coords.1,
        width: coords.2,
        height: coords.3,
        autoexpand_height: flags.0,
        format_borders: flags.1,
        padding_bottom,
    };
    proof {
        assert(buf@ =~= buf@.subrange(0, p1 as int) + buf@.subrange(p1 as int, p2 as int)
            + buf@.subrange(p2 as int, p3 as int));
        assert(buf@.subrange(0, p1 as int) == enc_sheet_lists(s));
        assert(buf@.subrange(p2 as int, p3 as int) == enc_sheet_scalars(s));
        assert forall|s0: Sheet| #[trigger] sheet_doc_hyp(buf@, s0) implies crate::eq::sheet_like(
            s,
            s0,
        ) by {}
    }
    Ok(s)
}

/// Attaches the field a value error was found in.
fn with_field(e: DecodeError, f: FieldId) -> (r: DecodeError)
    ensures
        r.reason == e.reason,
{
    DecodeError { field: Option::Some(f), reason: e.reason }
}

/// Reads the next key and demands the expected field: the canonical key
/// in place succeeds; otherwise an earlier field here again is a
/// duplicate, a later one means the expected field is missing.
fn expect_key(buf: &Vec<u8>, pos: usize, expected: FieldId) -> (r: Result<usize, DecodeError>)
    requires
        pos <= buf@.len(),
    ensures
        r matches Ok(end) ==> pos <= end <= buf@.len() && buf@.subrange(pos as int, end as int)
            == enc_key(expected),
        enc_at(buf@, pos as int, enc_key(expected)) ==> r == Ok::<usize, DecodeError>(
            (pos + enc_key(expected).len()) as usize,
        ),
{
    let name = key_bytes(expected);
    let mut pat: Vec<u8> = Vec::new();
    write_bytes(&mut pat, &name);
    let bl = buf.len();
    if matches_at(buf, pos, &pat) {
        proof {
            assert(pos + pat@.len() <= bl);
        }
        return Ok(pos + pat.len());
    }
    // Not the expected field: name the failure.
    match read_key(buf, pos) {
        Ok((found, _)) => {
            if field_rank(found) < field_rank(expected) {
                Err(DecodeError::new(Option::Some(found), DecodeReason::DuplicateField))
            } else {
                Err(DecodeError::new(Option::Some(expected), DecodeReason::MissingField))
            }
        },
        Err(_) => Err(DecodeError::new(Option::Some(expected), DecodeReason::MissingField)),
    }
}

/// Reads a signed field that must fit `i32`.
fn read_i32_field(buf: &Vec<u8>, pos: usize, f: FieldId) -> (r: Result<(i32, usize), DecodeError>)
    requires
        pos <= buf@.len(),
    ensures
        r matches Ok(p) ==> pos <= p.1 <= buf@.len() && buf@.subrange(pos as int, p.1 as int)
            == enc_i64(p.0 as i64),
        forall|v: i32| #[trigger] enc_at(buf@, pos as int, enc_i64(v as i64)) ==> r == Ok::<
            (i32, usize),
            DecodeError,
        >((v, (pos + 22) as usize)),
{
    let (v, end) = match read_i64(buf, pos) {
        Ok(p) => p,
        Err(e) => { return Err(with_field(e, f)); },
    };
    if v < -0x8000_0000i64 || v > 0x7fff_ffffi64 {
        return Err(DecodeError::new(Option::Some(f), DecodeReason::Overflow));
    }
    Ok((v as i32, end))
}

} // verus!
