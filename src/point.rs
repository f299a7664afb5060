//! Grid coordinates, their geometry and neighbourhoods.

use rand::Rng;
use vstd::prelude::*;

verus! {

/// A coordinate on the grid; both axes run from 0 to 255.
#[derive(Clone, Copy, Debug, PartialEq, Eq, Hash, Structural)]
pub struct Point {
    pub x: u8,
    pub y: u8,
}

/// The point `(255, 255)`, the largest coordinate on both axes.
pub open spec fn max_point() -> Point {
    Point { x: 255, y: 255 }
}

/// The squared Euclidean distance between two points.
pub open spec fn dist_sq(a: Point, b: Point) -> int {
    (a.x - b.x) * (a.x - b.x) + (a.y - b.y) * (a.y - b.y)
}

/// `p` lies in the rectangle `[0, b.x] x [0, b.y]`.
pub open spec fn within(p: Point, b: Point) -> bool {
    p.x <= b.x && p.y <= b.y
}

/// The neighbours of `p` inside the rectangle bounded by `b`, in the order
/// north (y + 1), east (x + 1), south (y - 1), west (x - 1); none at all when
/// `p` itself lies outside the rectangle.
pub open spec fn neighbors_in(p: Point, b: Point) -> Seq<Point> {
    if !within(p, b) {
        Seq::empty()
    } else {
        (if p.y < b.y { seq![Point { x: p.x, y: (p.y + 1) as u8 }] } else { Seq::empty() })
        + (if p.x < b.x { seq![Point { x: (p.x + 1) as u8, y: p.y }] } else { Seq::empty() })
        + (if p.y > 0 { seq![Point { x: p.x, y: (p.y - 1) as u8 }] } else { Seq::empty() })
        + (if p.x > 0 { seq![Point { x: (p.x - 1) as u8, y: p.y }] } else { Seq::empty() })
    }
}

/// The point of `s` nearest to `me`; among equally near points the last one
/// wins. The origin when `s` is empty.
pub open spec fn closest_in(me: Point, s: Seq<Point>) -> Point
    decreases s.len(),
{
    if s.len() == 0 {
        Point { x: 0, y: 0 }
    } else if s.len() == 1 {
        s[0]
    } else {
        let prev = closest_in(me, s.drop_last());
        if dist_sq(s.last(), me) <= dist_sq(prev, me) {
            s.last()
        } else {
            prev
        }
    }
}

/// The point that `closest_in` picks lies in the sequence and no point of
/// the sequence is nearer.
pub proof fn lemma_closest_is_nearest(me: Point, s: Seq<Point>)
    requires
        s.len() > 0,
    ensures
        s.contains(closest_in(me, s)),
        forall|i: int| 0 <= i < s.len() ==> dist_sq(closest_in(me, s), me) <= #[trigger] dist_sq(s[i], me),
    decreases s.len(),
{
    if s.len() > 1 {
        lemma_closest_is_nearest(me, s.drop_last());
        let prev = closest_in(me, s.drop_last());
        assert(s.drop_last().contains(prev));
        let k = choose|k: int| 0 <= k < s.drop_last().len() && s.drop_last()[k] == prev;
        assert(s[k] == prev);
        assert forall|i: int| 0 <= i < s.len() implies dist_sq(closest_in(me, s), me) <= #[trigger] dist_sq(s[i], me) by {
            if i < s.len() - 1 {
                assert(s[i] == s.drop_last()[i]);
            }
        }
        if closest_in(me, s) == s.last() {
            assert(s[s.len() - 1] == s.last());
        }
    } else {
        assert(s[0] == closest_in(me, s));
    }
}

/// Relies on rand's `thread_rng().gen_range(0..bound)`: a value in
/// `[0, bound)`; the call panics on an empty range.
#[verifier::external_body]
fn random_below(bound: u8) -> (r: u8)
    requires
        bound > 0,
    ensures
        r < bound,
{
    rand::thread_rng().gen_range(0..bound)
}

/// Relies on rand's `thread_rng().gen::<u8>()`: any byte.
#[verifier::external_body]
fn random_byte() -> u8 {
    rand::thread_rng().gen::<u8>()
}

impl Point {
    pub fn new(x: u8, y: u8) -> (r: Point)
        ensures
            r.x == x,
            r.y == y,
    {
        Point { x, y }
    }

    /// The squared Euclidean distance to `other`.
    pub fn distance_squared(&self, other: &Point) -> (r: u32)
        ensures
            r == dist_sq(*self, *other),
    {
        let dx: u32 = if self.x >= other.x { (self.x - other.x) as u32 } else { (other.x - self.x) as u32 };
        let dy: u32 = if self.y >= other.y { (self.y - other.y) as u32 } else { (other.y - self.y) as u32 };
        assert(dx * dx <= 255 * 255) by (nonlinear_arith)
            requires
                dx <= 255,
        ;
        assert(dy * dy <= 255 * 255) by (nonlinear_arith)
            requires
                dy <= 255,
        ;
        assert(dx * dx == (self.x - other.x) * (self.x - other.x)) by (nonlinear_arith)
            requires
                dx == self.x - other.x || dx == other.x - self.x,
        ;
        assert(dy * dy == (self.y - other.y) * (self.y - other.y)) by (nonlinear_arith)
            requires
                dy == self.y - other.y || dy == other.y - self.y,
        ;
        dx * dx + dy * dy
    }

    /// The point of `others` nearest to `self` (the last one among equally
    /// near points), or the origin when `others` is empty.
    pub fn closest(&self, others: Vec<Point>) -> (r: Point)
        ensures
            r == closest_in(*self, others@),
            others@.len() > 0 ==> others@.contains(r),
            forall|i: int| 0 <= i < others@.len() ==> dist_sq(r, *self) <= #[trigger] dist_sq(others@[i], *self),
    {
        let mut best = Point::new(0, 0);
        let mut best_d: u32 = 0;
        let mut i: usize = 0;
        while i < others.len()
            invariant
                i <= others@.len(),
                best == closest_in(*self, others@.take(i as int)),
                i > 0 ==> best_d == dist_sq(best, *self),
            decreases others@.len() - i,
        {
            let p = others[i];
            let d = p.distance_squared(self);
            if i == 0 || d <= best_d {
                best = p;
                best_d = d;
            }
            let ghost s = others@.take(i as int + 1);
            assert(s.drop_last() =~= others@.take(i as int));
            assert(s.last() == p);
            i = i + 1;
        }
        assert(others@.take(i as int) =~= others@);
        if others.len() > 0 {
            proof { lemma_closest_is_nearest(*self, others@); }
        }
        best
    }

    /// A random point: below `b` on both axes when `bounds` is `Some(b)`,
    /// anywhere on the grid otherwise.
    pub fn random(bounds: Option<Point>) -> (r: Point)
        requires
            bounds matches Some(b) ==> b.x > 0 && b.y > 0,
        ensures
            bounds matches Some(b) ==> r.x < b.x && r.y < b.y,
    {
        match bounds {
            Some(b) => {
                let x = random_below(b.x);
                let y = random_below(b.y);
                Point::new(x, y)
            },
            None => {
                let x = random_byte();
                let y = random_byte();
                Point::new(x, y)
            },
        }
    }

    /// The up to four axis neighbours of `self` inside `[0, b.x] x [0, b.y]`
    /// where `bounds` is `Some(b)`, inside the whole grid otherwise.
    pub fn neighbors(&self, bounds: Option<Point>) -> (r: Vec<Point>)
        ensures
            r@ == neighbors_in(
                *self,
                match bounds {
                    Some(b) => b,
                    None => max_point(),
                },
            ),
    {
        let b = match bounds {
            Some(b) => b,
            None => Point::new(255, 255),
        };
        let mut out: Vec<Point> = Vec::new();
        if self.x > b.x || self.y > b.y {
            return out;
        }
        let ghost p = *self;
        if self.y < b.y {
            out.push(Point::new(self.x, self.y + 1));
        }
        let ghost s1 = out@;
        if self.x < b.x {
            out.push(Point::new(self.x + 1, self.y));
        }
        let ghost s2 = out@;
        if self.y > 0 {
            out.push(Point::new(self.x, self.y - 1));
        }
        let ghost s3 = out@;
        if self.x > 0 {
            out.push(Point::new(self.x - 1, self.y));
        }
        assert(out@ =~= neighbors_in(p, b));
        out
    }
}

} // verus!
