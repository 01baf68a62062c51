//! Points, vectors and rectangles of the integer world plane.

use vstd::prelude::*;

verus! {

/// A point of the world plane, in whole world units.
#[derive(Clone, Copy, Debug, PartialEq, Eq, Hash, Structural)]
pub struct WorldPos {
    pub x: i32,
    pub y: i32,
}

/// The difference of two world points.
#[derive(Clone, Copy, Debug, PartialEq, Eq, Hash, Structural)]
pub struct WorldVec {
    pub dx: i64,
    pub dy: i64,
}

/// An axis-parallel rectangle, given by its least and greatest corner.
#[derive(Clone, Copy, Debug, PartialEq, Eq, Hash, Structural)]
pub struct Rect {
    pub min: WorldPos,
    pub max: WorldPos,
}

impl WorldVec {
    /// Square of the Euclidean length.
    pub open spec fn len_sq(self) -> int {
        self.dx * self.dx + self.dy * self.dy
    }

    /// Whether this is the zero vector.
    pub open spec fn is_zero(self) -> bool {
        self.dx == 0 && self.dy == 0
    }

    /// The zero vector.
    pub fn zero() -> (v: WorldVec)
        ensures
            v == (WorldVec { dx: 0, dy: 0 }),
    {
        WorldVec { dx: 0, dy: 0 }
    }

    /// Square of the Euclidean length.
    pub fn length_squared(self) -> (d: u128)
        ensures
            d == self.len_sq(),
    {
        let dx: i128 = self.dx as i128;
        let dy: i128 = self.dy as i128;
        assert(0 <= dx * dx <= 0x8000_0000_0000_0000 * 0x8000_0000_0000_0000) by (nonlinear_arith)
            requires
                -0x8000_0000_0000_0000 <= dx <= 0x8000_0000_0000_0000,
        ;
        assert(0 <= dy * dy <= 0x8000_0000_0000_0000 * 0x8000_0000_0000_0000) by (nonlinear_arith)
            requires
                -0x8000_0000_0000_0000 <= dy <= 0x8000_0000_0000_0000,
        ;
        (dx * dx) as u128 + (dy * dy) as u128
    }
}

impl WorldPos {
    /// The vector from `self` to `other`.
    pub open spec fn vector_to(self, other: WorldPos) -> WorldVec {
        WorldVec { dx: (other.x - self.x) as i64, dy: (other.y - self.y) as i64 }
    }

    /// Square of the Euclidean distance between two points.
    pub open spec fn dist_sq(self, other: WorldPos) -> int {
        (other.x - self.x) * (other.x - self.x) + (other.y - self.y) * (other.y - self.y)
    }

    /// The point at (`x`, `y`).
    pub fn new(x: i32, y: i32) -> (p: WorldPos)
        ensures
            p == (WorldPos { x, y }),
    {
        WorldPos { x, y }
    }

    /// The vector from `self` to `other`.
    pub fn delta_to(self, other: WorldPos) -> (v: WorldVec)
        ensures
            v == self.vector_to(other),
            v.dx == other.x - self.x,
            v.dy == other.y - self.y,
            v.len_sq() == self.dist_sq(other),
    {
        WorldVec { dx: other.x as i64 - self.x as i64, dy: other.y as i64 - self.y as i64 }
    }

    /// Square of the Euclidean distance between two points.
    pub fn distance_squared(self, other: WorldPos) -> (d: u128)
        ensures
            d == self.dist_sq(other),
    {
        self.delta_to(other).length_squared()
    }

    /// Whether `other` lies closer to `self` than `radius`.
    pub fn is_within(self, other: WorldPos, radius: i32) -> (b: bool)
        ensures
            b == (radius > 0 && self.dist_sq(other) < radius * radius),
    {
        if radius <= 0 {
            assert(self.dist_sq(other) >= 0) by (nonlinear_arith);
            assert(radius * radius >= 0) by (nonlinear_arith);
            if radius == 0 {
                return false;
            }
        }
        let r: i128 = radius as i128;
        assert(0 <= r * r <= 0x8000_0000 * 0x8000_0000) by (nonlinear_arith)
            requires
                -0x8000_0000 <= r < 0x8000_0000,
        ;
        radius > 0 && self.distance_squared(other) < (r * r) as u128
    }
}

impl Rect {
    /// The least corner is nowhere beyond the greatest.
    pub open spec fn wf(self) -> bool {
        self.min.x <= self.max.x && self.min.y <= self.max.y
    }

    /// The rectangle with `a` and `b` as opposite corners, in either order.
    pub open spec fn span(a: WorldPos, b: WorldPos) -> Rect {
        Rect {
            min: WorldPos {
                x: if a.x <= b.x { a.x } else { b.x },
                y: if a.y <= b.y { a.y } else { b.y },
            },
            max: WorldPos {
                x: if a.x <= b.x { b.x } else { a.x },
                y: if a.y <= b.y { b.y } else { a.y },
            },
        }
    }

    /// The point of the rectangle that lies closest to `p`.
    pub open spec fn closest_to(self, p: WorldPos) -> WorldPos {
        WorldPos {
            x: if p.x < self.min.x {
                self.min.x
            } else if p.x > self.max.x {
                self.max.x
            } else {
                p.x
            },
            y: if p.y < self.min.y {
                self.min.y
            } else if p.y > self.max.y {
                self.max.y
            } else {
                p.y
            },
        }
    }

    /// Whether a circle of the given radius around `p` reaches into the
    /// rectangle: the rectangle's closest point lies closer than `radius`.
    pub open spec fn touches_circle(self, p: WorldPos, radius: int) -> bool {
        p.dist_sq(self.closest_to(p)) < radius * radius
    }

    /// Whether `inner` lies inside `self`.
    pub open spec fn encloses(self, inner: Rect) -> bool {
        &&& self.min.x <= inner.min.x
        &&& self.min.y <= inner.min.y
        &&& inner.max.x <= self.max.x
        &&& inner.max.y <= self.max.y
    }

    /// The rectangle with `a` and `b` as opposite corners, in either order.
    pub fn spanning(a: WorldPos, b: WorldPos) -> (rect: Rect)
        ensures
            rect == Rect::span(a, b),
            rect.wf(),
    {
        Rect {
            min: WorldPos {
                x: if a.x <= b.x { a.x } else { b.x },
                y: if a.y <= b.y { a.y } else { b.y },
            },
            max: WorldPos {
                x: if a.x <= b.x { b.x } else { a.x },
                y: if a.y <= b.y { b.y } else { a.y },
            },
        }
    }

    /// The point of the rectangle that lies closest to `p`.
    pub fn clamp(&self, p: WorldPos) -> (c: WorldPos)
        ensures
            c == self.closest_to(p),
    {
        WorldPos {
            x: if p.x < self.min.x {
                self.min.x
            } else if p.x > self.max.x {
                self.max.x
            } else {
                p.x
            },
            y: if p.y < self.min.y {
                self.min.y
            } else if p.y > self.max.y {
                self.max.y
            } else {
                p.y
            },
        }
    }

    /// Whether a circle of the given radius around `p` reaches into the
    /// rectangle.
    pub fn hits_circle(&self, p: WorldPos, radius: i32) -> (hit: bool)
        ensures
            hit == self.touches_circle(p, radius as int),
    {
        let closest = self.clamp(p);
        let r: i128 = radius as i128;
        assert(0 <= r * r <= 0x8000_0000 * 0x8000_0000) by (nonlinear_arith)
            requires
                -0x8000_0000 <= r < 0x8000_0000,
        ;
        p.distance_squared(closest) < (r * r) as u128
    }
}

/// Two points lie at distance zero exactly where they are the same point.
pub proof fn lemma_dist_sq_zero(a: WorldPos, b: WorldPos)
    ensures
        a.dist_sq(b) >= 0,
        (a.dist_sq(b) == 0) == (a == b),
        a.vector_to(b).is_zero() == (a == b),
{
    let dx = b.x - a.x;
    let dy = b.y - a.y;
    assert(dx * dx >= 0 && (dx * dx == 0) == (dx == 0)) by (nonlinear_arith);
    assert(dy * dy >= 0 && (dy * dy == 0) == (dy == 0)) by (nonlinear_arith);
}

/// A circle that reaches into a rectangle reaches into every rectangle that
/// encloses it.
pub proof fn lemma_larger_rect_still_touches(inner: Rect, outer: Rect, p: WorldPos, radius: int)
    requires
        inner.wf(),
        outer.encloses(inner),
        inner.touches_circle(p, radius),
    ensures
        outer.touches_circle(p, radius),
{
    let a = inner.closest_to(p);
    let b = outer.closest_to(p);
    let ax = a.x - p.x;
    let ay = a.y - p.y;
    let bx = b.x - p.x;
    let by = b.y - p.y;
    assert(abs_le(bx, ax));
    assert(abs_le(by, ay));
    lemma_square_monotone(bx, ax);
    lemma_square_monotone(by, ay);
}

/// `a` is no farther from zero than `b`.
pub open spec fn abs_le(a: int, b: int) -> bool {
    -b <= a <= b || b <= a <= -b
}

/// Of two integers, the one nearer to zero has the smaller square.
pub proof fn lemma_square_monotone(a: int, b: int)
    requires
        abs_le(a, b),
    ensures
        a * a <= b * b,
{
    assert(a * a <= b * b) by (nonlinear_arith)
        requires
            -b <= a <= b || b <= a <= -b,
    ;
}

} // verus!
