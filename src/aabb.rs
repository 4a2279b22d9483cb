use vstd::prelude::*;

verus! {

/// A point whose coordinates are given as integers that order as the
/// coordinates do. Bounding boxes only compare coordinates, so they keep
/// their corners in this form.
#[derive(Clone, Copy, Debug, PartialEq, Eq, Structural)]
pub struct Point {
    pub x: i64,
    pub y: i64,
    pub z: i64,
}

/// The coordinate of `p` along `axis` (0 is x, 1 is y, anything else z).
pub open spec fn coord(p: Point, axis: u8) -> i64 {
    if axis == 0 {
        p.x
    } else if axis == 1 {
        p.y
    } else {
        p.z
    }
}

pub open spec fn min_i64(a: i64, b: i64) -> i64 {
    if a <= b {
        a
    } else {
        b
    }
}

pub open spec fn max_i64(a: i64, b: i64) -> i64 {
    if a >= b {
        a
    } else {
        b
    }
}

/// Componentwise `p <= q`.
pub open spec fn below(p: Point, q: Point) -> bool {
    p.x <= q.x && p.y <= q.y && p.z <= q.z
}

fn min_of(a: i64, b: i64) -> (r: i64)
    ensures
        r == min_i64(a, b),
{
    if a <= b {
        a
    } else {
        b
    }
}

fn max_of(a: i64, b: i64) -> (r: i64)
    ensures
        r == max_i64(a, b),
{
    if a >= b {
        a
    } else {
        b
    }
}

impl Point {
    pub fn new(x: i64, y: i64, z: i64) -> (p: Point)
        ensures
            p == (Point { x, y, z }),
    {
        Point { x, y, z }
    }

    pub fn on_axis(&self, axis: u8) -> (r: i64)
        ensures
            r == coord(*self, axis),
    {
        if axis == 0 {
            self.x
        } else if axis == 1 {
            self.y
        } else {
            self.z
        }
    }
}

/// An axis-aligned bounding box given by its two extreme corners.
#[derive(Clone, Copy, Debug, PartialEq, Eq, Structural)]
pub struct Aabb {
    pub min: Point,
    pub max: Point,
}

/// The smallest box that holds both `a` and `b`: the componentwise minimum
/// of their minimum corners and maximum of their maximum corners.
pub open spec fn surround_spec(a: Aabb, b: Aabb) -> Aabb {
    Aabb {
        min: Point {
            x: min_i64(a.min.x, b.min.x),
            y: min_i64(a.min.y, b.min.y),
            z: min_i64(a.min.z, b.min.z),
        },
        max: Point {
            x: max_i64(a.max.x, b.max.x),
            y: max_i64(a.max.y, b.max.y),
            z: max_i64(a.max.z, b.max.z),
        },
    }
}

/// `outer` holds all of `inner`.
pub open spec fn contains(outer: Aabb, inner: Aabb) -> bool {
    below(outer.min, inner.min) && below(inner.max, outer.max)
}

impl Aabb {
    /// The minimum corner lies below the maximum corner on every axis.
    pub open spec fn wf(&self) -> bool {
        below(self.min, self.max)
    }

    pub fn new(min: Point, max: Point) -> (b: Aabb)
        ensures
            b == (Aabb { min, max }),
    {
        Aabb { min, max }
    }

    /// The smallest box that holds every point of `points`: its corners are
    /// the componentwise extremes of the points.
    pub fn enclosing(points: &Vec<Point>) -> (r: Aabb)
        requires
            points.len() > 0,
        ensures
            r.wf(),
            forall|i: int| 0 <= i < points.len() ==> holds_point(r, #[trigger] points@[i]),
            forall|c: Aabb|
                (forall|i: int| 0 <= i < points.len() ==> holds_point(c, #[trigger] points@[i]))
                    ==> #[trigger] contains(c, r),
    {
        let mut r = Aabb { min: points[0], max: points[0] };
        let mut k: usize = 1;
        while k < points.len()
            invariant
                1 <= k <= points.len(),
                r.wf(),
                forall|i: int| 0 <= i < k ==> holds_point(r, #[trigger] points@[i]),
                exists|i: int| 0 <= i < k && r.min.x == (#[trigger] points@[i]).x,
                exists|i: int| 0 <= i < k && r.min.y == (#[trigger] points@[i]).y,
                exists|i: int| 0 <= i < k && r.min.z == (#[trigger] points@[i]).z,
                exists|i: int| 0 <= i < k && r.max.x == (#[trigger] points@[i]).x,
                exists|i: int| 0 <= i < k && r.max.y == (#[trigger] points@[i]).y,
                exists|i: int| 0 <= i < k && r.max.z == (#[trigger] points@[i]).z,
            decreases points.len() - k,
        {
            let p = points[k];
            r = r.surround(&Aabb { min: p, max: p });
            k = k + 1;
        }
        r
    }

    /// The smallest box that holds both `self` and `other`.
    pub fn surround(&self, other: &Aabb) -> (r: Aabb)
        ensures
            r == surround_spec(*self, *other),
            self.wf() && other.wf() ==> r.wf(),
    {
        Aabb {
            min: Point {
                x: min_of(self.min.x, other.min.x),
                y: min_of(self.min.y, other.min.y),
                z: min_of(self.min.z, other.min.z),
            },
            max: Point {
                x: max_of(self.max.x, other.max.x),
                y: max_of(self.max.y, other.max.y),
                z: max_of(self.max.z, other.max.z),
            },
        }
    }
}

/// `b` holds the point `p`.
pub open spec fn holds_point(b: Aabb, p: Point) -> bool {
    below(b.min, p) && below(p, b.max)
}

/// The box that `surround` makes of `a` and `b` holds both, and any box
/// that holds both holds it: it is the smallest such box.
pub proof fn lemma_surround_is_least(a: Aabb, b: Aabb, c: Aabb)
    ensures
        contains(surround_spec(a, b), a),
        contains(surround_spec(a, b), b),
        contains(c, a) && contains(c, b) ==> contains(c, surround_spec(a, b)),
{
}

/// Holding is transitive.
pub proof fn lemma_contains_trans(a: Aabb, b: Aabb, c: Aabb)
    requires
        contains(a, b),
        contains(b, c),
    ensures
        contains(a, c),
{
}

} // verus!
