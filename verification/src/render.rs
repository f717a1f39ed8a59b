//! Abstract rendering model: colors, per-stroke render nodes cached by
//! zoom factor, and the draw-command list the host's renderer consumes.

use vstd::prelude::*;

use crate::geometry::{Aabb, Vector2};

verus! {

/// An RGBA color with 8-bit channels.
#[derive(Clone, Copy, PartialEq, Eq, Structural, Debug)]
pub struct Color {
    pub r: u8,
    pub g: u8,
    pub b: u8,
    pub a: u8,
}

impl Color {
    pub fn new(r: u8, g: u8, b: u8, a: u8) -> (c: Color)
        ensures
            c == (Color { r, g, b, a }),
    {
        Color { r, g, b, a }
    }

    pub fn black() -> (c: Color)
        ensures
            c == (Color { r: 0, g: 0, b: 0, a: 255 }),
    {
        Color { r: 0, g: 0, b: 0, a: 255 }
    }

    pub fn white() -> (c: Color)
        ensures
            c == (Color { r: 255, g: 255, b: 255, a: 255 }),
    {
        Color { r: 255, g: 255, b: 255, a: 255 }
    }
}

/// A cached drawable for one stroke, keyed to the zoom factor (in
/// thousandths) and to the geometry it was generated from.
#[derive(Clone, Copy, PartialEq, Eq, Structural, Debug)]
pub struct RenderNode {
    /// Zoom factor the node was produced at, in thousandths.
    pub scale: u32,
    /// The stroke bounds the node was generated from, in sheet space.
    pub bounds: Aabb,
}

impl RenderNode {
    /// The node of a stroke that was never rendered.
    pub fn empty() -> (r: RenderNode)
        ensures
            r == RenderNode::spec_empty(),
    {
        RenderNode {
            scale: 0,
            bounds: Aabb { mins: Vector2 { x: 0, y: 0 }, maxs: Vector2 { x: 0, y: 0 } },
        }
    }

    pub open spec fn spec_empty() -> RenderNode {
        RenderNode {
            scale: 0,
            bounds: Aabb { mins: Vector2 { x: 0, y: 0 }, maxs: Vector2 { x: 0, y: 0 } },
        }
    }
}

/// Background pattern kinds.
#[derive(Clone, Copy, PartialEq, Eq, Structural, Debug)]
pub enum PatternStyle {
    Blank,
    Lines,
    Grid,
    Dots,
}

/// One abstract drawing instruction for the host renderer.
#[derive(Clone, Copy, PartialEq, Eq, Structural, Debug)]
pub enum DrawCommand {
    /// An outset rounded drop shadow around `bounds`.
    Shadow { bounds: Aabb, width: i64, color: Color },
    /// Push a clip to `bounds`; later commands are clipped until the pop.
    PushClip { bounds: Aabb },
    PopClip,
    /// A filled rectangle.
    Fill { bounds: Aabb, color: Color },
    /// A rectangle border.
    BorderRect { bounds: Aabb, color: Color },
    /// A repeated background pattern over `bounds`.
    PatternLayer { bounds: Aabb, pattern: PatternStyle, size: Vector2, color: Color },
    /// Composite one cached stroke render node.
    Node { node: RenderNode },
}

/// A box scaled to view space by a zoom factor in thousandths.
pub open spec fn spec_scale_aabb(b: Aabb, scale: int) -> Aabb {
    Aabb {
        mins: Vector2 {
            x: crate::input::spec_muldiv_tz(b.mins.x as int, scale, 1000) as i64,
            y: crate::input::spec_muldiv_tz(b.mins.y as int, scale, 1000) as i64,
        },
        maxs: Vector2 {
            x: crate::input::spec_muldiv_tz(b.maxs.x as int, scale, 1000) as i64,
            y: crate::input::spec_muldiv_tz(b.maxs.y as int, scale, 1000) as i64,
        },
    }
}

/// Scales a box to view space.
pub fn scale_aabb(b: &Aabb, scale: u32) -> (r: Aabb)
    requires
        -crate::input::MULDIV_MAX_IN <= b.mins.x <= crate::input::MULDIV_MAX_IN,
        -crate::input::MULDIV_MAX_IN <= b.mins.y <= crate::input::MULDIV_MAX_IN,
        -crate::input::MULDIV_MAX_IN <= b.maxs.x <= crate::input::MULDIV_MAX_IN,
        -crate::input::MULDIV_MAX_IN <= b.maxs.y <= crate::input::MULDIV_MAX_IN,
        crate::input::SCALE_MIN <= scale <= crate::input::SCALE_MAX,
    ensures
        r == spec_scale_aabb(*b, scale as int),
{
    Aabb {
        mins: Vector2 {
            x: crate::input::muldiv_tz(b.mins.x, scale, 1000),
            y: crate::input::muldiv_tz(b.mins.y, scale, 1000),
        },
        maxs: Vector2 {
            x: crate::input::muldiv_tz(b.maxs.x, scale, 1000),
            y: crate::input::muldiv_tz(b.maxs.y, scale, 1000),
        },
    }
}

} // verus!
