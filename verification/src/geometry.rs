//! Integer 2D geometry: vectors and axis-aligned bounding boxes.

use vstd::prelude::*;

verus! {

/// Largest magnitude a coordinate may have. Keeping every coordinate inside
/// this range lets sums and halved widths stay well inside `i64`.
pub const MAX_COORD: i64 = 1_073_741_824;

pub open spec fn coord_in_range(v: i64) -> bool {
    -MAX_COORD <= v <= MAX_COORD
}

/// A 2D vector (or point) in sheet space.
#[derive(Clone, Copy, PartialEq, Eq, Structural, Debug)]
pub struct Vector2 {
    pub x: i64,
    pub y: i64,
}

impl Vector2 {
    pub open spec fn wf(self) -> bool {
        coord_in_range(self.x) && coord_in_range(self.y)
    }

    pub fn new(x: i64, y: i64) -> (r: Vector2)
        ensures
            r.x == x,
            r.y == y,
    {
        Vector2 { x, y }
    }

    pub fn add(self, o: Vector2) -> (r: Vector2)
        requires
            self.wf(),
            o.wf(),
        ensures
            r.x == self.x + o.x,
            r.y == self.y + o.y,
    {
        Vector2 { x: self.x + o.x, y: self.y + o.y }
    }

    pub fn sub(self, o: Vector2) -> (r: Vector2)
        requires
            self.wf(),
            o.wf(),
        ensures
            r.x == self.x - o.x,
            r.y == self.y - o.y,
    {
        Vector2 { x: self.x - o.x, y: self.y - o.y }
    }
}

pub open spec fn spec_min(a: i64, b: i64) -> i64 {
    if a <= b { a } else { b }
}

pub open spec fn spec_max(a: i64, b: i64) -> i64 {
    if a >= b { a } else { b }
}

/// An axis-aligned bounding box; `mins` is the top-left corner, `maxs`
/// the bottom-right one, and both bounds are inclusive.
#[derive(Clone, Copy, PartialEq, Eq, Structural, Debug)]
pub struct Aabb {
    pub mins: Vector2,
    pub maxs: Vector2,
}

impl Aabb {
    pub open spec fn wf(self) -> bool {
        &&& self.mins.wf()
        &&& self.maxs.wf()
        &&& self.mins.x <= self.maxs.x
        &&& self.mins.y <= self.maxs.y
    }

    pub open spec fn spec_intersects(self, o: Aabb) -> bool {
        &&& self.mins.x <= o.maxs.x
        &&& o.mins.x <= self.maxs.x
        &&& self.mins.y <= o.maxs.y
        &&& o.mins.y <= self.maxs.y
    }

    pub open spec fn spec_contains_point(self, p: Vector2) -> bool {
        &&& self.mins.x <= p.x <= self.maxs.x
        &&& self.mins.y <= p.y <= self.maxs.y
    }

    pub open spec fn spec_contains(self, o: Aabb) -> bool {
        &&& self.mins.x <= o.mins.x
        &&& self.mins.y <= o.mins.y
        &&& o.maxs.x <= self.maxs.x
        &&& o.maxs.y <= self.maxs.y
    }

    pub fn new(mins: Vector2, maxs: Vector2) -> (r: Aabb)
        requires
            mins.x <= maxs.x,
            mins.y <= maxs.y,
        ensures
            r.mins == mins,
            r.maxs == maxs,
    {
        Aabb { mins, maxs }
    }

    /// The degenerate box holding a single point.
    pub fn from_point(p: Vector2) -> (r: Aabb)
        ensures
            r.mins == p,
            r.maxs == p,
            p.wf() ==> r.wf(),
    {
        Aabb { mins: p, maxs: p }
    }

    /// The smallest box holding both corner points, in either order.
    pub open spec fn spec_from_corners(a: Vector2, b: Vector2) -> Aabb {
        Aabb {
            mins: Vector2 { x: spec_min(a.x, b.x), y: spec_min(a.y, b.y) },
            maxs: Vector2 { x: spec_max(a.x, b.x), y: spec_max(a.y, b.y) },
        }
    }

    pub fn from_corners(a: Vector2, b: Vector2) -> (r: Aabb)
        ensures
            r == Aabb::spec_from_corners(a, b),
            a.wf() && b.wf() ==> r.wf(),
    {
        let mins = Vector2 {
            x: if a.x <= b.x { a.x } else { b.x },
            y: if a.y <= b.y { a.y } else { b.y },
        };
        let maxs = Vector2 {
            x: if a.x >= b.x { a.x } else { b.x },
            y: if a.y >= b.y { a.y } else { b.y },
        };
        Aabb { mins, maxs }
    }

    pub fn intersects(&self, o: &Aabb) -> (r: bool)
        ensures
            r == self.spec_intersects(*o),
    {
        self.mins.x <= o.maxs.x && o.mins.x <= self.maxs.x && self.mins.y <= o.maxs.y
            && o.mins.y <= self.maxs.y
    }

    pub fn contains_point(&self, p: &Vector2) -> (r: bool)
        ensures
            r == self.spec_contains_point(*p),
    {
        self.mins.x <= p.x && p.x <= self.maxs.x && self.mins.y <= p.y && p.y <= self.maxs.y
    }

    /// Whether `o` lies fully inside `self`.
    pub fn contains(&self, o: &Aabb) -> (r: bool)
        ensures
            r == self.spec_contains(*o),
    {
        self.mins.x <= o.mins.x && self.mins.y <= o.mins.y && o.maxs.x <= self.maxs.x
            && o.maxs.y <= self.maxs.y
    }

    pub open spec fn spec_merge(self, o: Aabb) -> Aabb {
        Aabb {
            mins: Vector2 { x: spec_min(self.mins.x, o.mins.x), y: spec_min(self.mins.y, o.mins.y) },
            maxs: Vector2 { x: spec_max(self.maxs.x, o.maxs.x), y: spec_max(self.maxs.y, o.maxs.y) },
        }
    }

    /// The smallest box holding both boxes.
    pub fn merge(&self, o: &Aabb) -> (r: Aabb)
        ensures
            r == self.spec_merge(*o),
            self.wf() && o.wf() ==> r.wf(),
            r.spec_contains(*self),
            r.spec_contains(*o),
    {
        Aabb {
            mins: Vector2 {
                x: if self.mins.x <= o.mins.x { self.mins.x } else { o.mins.x },
                y: if self.mins.y <= o.mins.y { self.mins.y } else { o.mins.y },
            },
            maxs: Vector2 {
                x: if self.maxs.x >= o.maxs.x { self.maxs.x } else { o.maxs.x },
                y: if self.maxs.y >= o.maxs.y { self.maxs.y } else { o.maxs.y },
            },
        }
    }

    pub fn translate(&self, v: Vector2) -> (r: Aabb)
        requires
            self.wf(),
            v.wf(),
        ensures
            r.mins.x == self.mins.x + v.x,
            r.mins.y == self.mins.y + v.y,
            r.maxs.x == self.maxs.x + v.x,
            r.maxs.y == self.maxs.y + v.y,
    {
        Aabb {
            mins: Vector2 { x: self.mins.x + v.x, y: self.mins.y + v.y },
            maxs: Vector2 { x: self.maxs.x + v.x, y: self.maxs.y + v.y },
        }
    }
}

/// A merged box holds both boxes it was merged from.
pub proof fn lemma_merge_contains(a: Aabb, b: Aabb)
    ensures
        a.spec_merge(b).spec_contains(a),
        a.spec_merge(b).spec_contains(b),
{
}

/// A box holding two points holds the box spanned by them.
pub proof fn lemma_contains_corner_box(b: Aabb, p: Vector2, q: Vector2)
    requires
        b.spec_contains_point(p),
        b.spec_contains_point(q),
    ensures
        b.spec_contains(Aabb::spec_from_corners(p, q)),
{
}

/// Whatever intersects an inner box intersects the outer one too.
pub proof fn lemma_intersects_monotone(outer: Aabb, inner: Aabb, probe: Aabb)
    requires
        outer.spec_contains(inner),
        probe.spec_intersects(inner),
    ensures
        probe.spec_intersects(outer),
{
}

} // verus!
