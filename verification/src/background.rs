//! The sheet background: a base color and a repeated pattern, drawn as
//! two layers into the command list.

use vstd::prelude::*;

use crate::geometry::{Aabb, Vector2};
use crate::render::{Color, DrawCommand, PatternStyle};

verus! {

#[derive(Clone, Copy, PartialEq, Eq, Structural, Debug)]
pub struct Background {
    pub color: Color,
    pub pattern: PatternStyle,
    pub pattern_size: Vector2,
    pub pattern_color: Color,
}

impl Background {
    /// A plain white background with a dormant dots pattern.
    pub fn default() -> (r: Background)
        ensures
            r == Background::spec_default(),
    {
        Background {
            color: Color::white(),
            pattern: PatternStyle::Blank,
            pattern_size: Vector2 { x: 32, y: 32 },
            pattern_color: Color { r: 0, g: 0, b: 160, a: 255 },
        }
    }

    pub open spec fn spec_default() -> Background {
        Background {
            color: Color { r: 255, g: 255, b: 255, a: 255 },
            pattern: PatternStyle::Blank,
            pattern_size: Vector2 { x: 32, y: 32 },
            pattern_color: Color { r: 0, g: 0, b: 160, a: 255 },
        }
    }

    /// The two layers the background paints over `bounds`: the base fill,
    /// then the pattern.
    pub open spec fn spec_draw_cmds(self, bounds: Aabb) -> Seq<DrawCommand> {
        seq![
            DrawCommand::Fill { bounds, color: self.color },
            DrawCommand::PatternLayer {
                bounds,
                pattern: self.pattern,
                size: self.pattern_size,
                color: self.pattern_color,
            },
        ]
    }

    /// Draws the background into the already-scaled sheet bounds.
    pub fn draw(&self, snapshot: &mut Vec<DrawCommand>, bounds: &Aabb)
        ensures
            final(snapshot)@ == old(snapshot)@ + self.spec_draw_cmds(*bounds),
    {
        snapshot.push(DrawCommand::Fill { bounds: *bounds, color: self.color });
        snapshot.push(
            DrawCommand::PatternLayer {
                bounds: *bounds,
                pattern: self.pattern,
                size: self.pattern_size,
                color: self.pattern_color,
            },
        );
        proof {
            assert(snapshot@ =~= old(snapshot)@ + self.spec_draw_cmds(*bounds));
        }
    }
}

} // verus!
