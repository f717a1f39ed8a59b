//! The page format: one page's pixel extent at document DPI, and the
//! page-separator borders it draws.

use vstd::prelude::*;

use crate::geometry::{Aabb, Vector2};
use crate::input::{muldiv_tz, spec_muldiv_tz, SCALE_MAX, SCALE_MIN};
use crate::render::{Color, DrawCommand};

verus! {

/// Largest accepted page extent, in pixels.
pub const FORMAT_SIZE_MAX: i32 = 30_000_000;

/// Largest accepted document resolution.
pub const FORMAT_DPI_MAX: i32 = 30_000;

#[derive(Clone, Copy, PartialEq, Eq, Structural, Debug)]
pub struct Format {
    pub width: i32,
    pub height: i32,
    pub dpi: i32,
}

impl Format {
    pub open spec fn wf(self) -> bool {
        &&& 0 < self.width <= FORMAT_SIZE_MAX
        &&& 0 < self.height <= FORMAT_SIZE_MAX
        &&& 0 < self.dpi <= FORMAT_DPI_MAX
    }

    /// An A4 page at 96 DPI.
    pub fn default() -> (r: Format)
        ensures
            r == (Format { width: 1240i32, height: 1754i32, dpi: 96i32 }),
            r.wf(),
    {
        Format { width: 1240, height: 1754, dpi: 96 }
    }

    /// How many page separators fall strictly inside a sheet of the given
    /// height: one at every multiple of the page height below it.
    pub open spec fn spec_num_borders(self, height: int) -> int
        recommends
            self.height > 0,
    {
        if height <= self.height {
            0
        } else {
            (height - 1) / (self.height as int)
        }
    }

    /// The separator drawn below page `k` (1-based), scaled to the view.
    pub open spec fn spec_border_cmd(self, k: int, scale: int) -> DrawCommand {
        let ys = spec_muldiv_tz(k * self.height, scale, 1000);
        let xs = spec_muldiv_tz(self.width as int, scale, 1000);
        DrawCommand::BorderRect {
            bounds: Aabb {
                mins: Vector2 { x: 0, y: ys as i64 },
                maxs: Vector2 { x: xs as i64, y: ys as i64 },
            },
            color: Color { r: 0, g: 0, b: 0, a: 255 },
        }
    }

    /// Appends the page-separator borders for a sheet of `height` pixels:
    /// one line at each multiple of the page height inside the sheet.
    pub fn draw(&self, height: i32, snapshot: &mut Vec<DrawCommand>, scale: u32)
        requires
            self.wf(),
            SCALE_MIN <= scale <= SCALE_MAX,
        ensures
            final(snapshot)@ == old(snapshot)@ + Seq::new(
                self.spec_num_borders(height as int) as nat,
                |k: int| self.spec_border_cmd(k + 1, scale as int),
            ),
    {
        let h: i64 = self.height as i64;
        let mut y: i64 = h;
        let ghost n = self.spec_num_borders(height as int);
        let ghost mut k: int = 1;
        proof {
            assert(snapshot@ =~= old(snapshot)@ + Seq::new(0nat, |j: int|
                self.spec_border_cmd(j + 1, scale as int)));
            assert(1 * h == h) by (nonlinear_arith);
        }
        while y < height as i64
            invariant
                self.wf(),
                SCALE_MIN <= scale <= SCALE_MAX,
                h == self.height,
                1 <= k,
                y == k * h,
                h <= y,
                height > self.height ==> n == (height - 1) as int / (h as int),
                height <= self.height ==> n == 0,
                k <= n + 1,
                snapshot@ == old(snapshot)@ + Seq::new((k - 1) as nat, |j: int|
                    self.spec_border_cmd(j + 1, scale as int)),
            decreases n + 1 - k,
        {
            let ys = muldiv_tz(y, scale, 1000);
            let xs = muldiv_tz(self.width as i64, scale, 1000);
            snapshot.push(
                DrawCommand::BorderRect {
                    bounds: Aabb {
                        mins: Vector2 { x: 0, y: ys },
                        maxs: Vector2 { x: xs, y: ys },
                    },
                    color: Color::black(),
                },
            );
            proof {
                assert(snapshot@ =~= old(snapshot)@ + Seq::new(k as nat, |j: int|
                    self.spec_border_cmd(j + 1, scale as int)));
                // y < height means k <= (height - 1) / h, so k stays at
                // most n after the increment.
                crate::input::lemma_mul_div_le(k, h as int, height as int - 1);
                assert((k + 1) * h == k * h + h) by (nonlinear_arith);
                k = k + 1;
            }
            y = y + h;
        }
        proof {
            // The loop exits at y >= height, which forces k - 1 == n.
            if k <= n {
                crate::input::lemma_div_bounds(height as int - 1, h as int);
                assert(k * h <= n * h) by (nonlinear_arith)
                    requires
                        k <= n,
                        h > 0,
                ;
                assert(n * h <= height - 1) by (nonlinear_arith)
                    requires
                        n == (height as int - 1) / (h as int),
                        ((height as int - 1) / (h as int)) * (h as int) <= height - 1,
                ;
                assert(false);
            }
            assert(snapshot@ =~= old(snapshot)@ + Seq::new(n as nat, |j: int|
                self.spec_border_cmd(j + 1, scale as int)));
        }
    }
}

} // verus!
