//! Greedy movement toward the nearest opponent.

use crate::point::{Point, closest_in, dist_sq, lemma_closest_is_nearest, max_point, neighbors_in, within};
use vstd::prelude::*;

verus! {

/// One greedy step from `cur`: the neighbour of `cur` nearest to `goal`.
pub open spec fn greedy_step(cur: Point, goal: Point) -> Point {
    closest_in(goal, neighbors_in(cur, max_point()))
}

/// The cells that a greedy walk from `cur` passes through on its way to
/// `goal`, leaving out `cur` and `goal` themselves, cut off after `limit`
/// cells.
pub open spec fn walk(cur: Point, goal: Point, limit: nat) -> Seq<Point>
    decreases limit,
{
    if limit == 0 || cur == goal {
        Seq::empty()
    } else {
        let next = greedy_step(cur, goal);
        if next == goal {
            Seq::empty()
        } else {
            seq![next] + walk(next, goal, (limit - 1) as nat)
        }
    }
}

/// `goal` is `cur` or one of its neighbours, so there is nothing to walk.
pub open spec fn next_to(cur: Point, goal: Point) -> bool {
    cur == goal || neighbors_in(cur, max_point()).contains(goal)
}

/// How many cells a step limit allows; no limit allows as many as a
/// `usize` counts.
pub open spec fn limit_of(step_limit: Option<usize>) -> nat {
    match step_limit {
        Some(n) => n as nat,
        None => usize::MAX as nat,
    }
}

/// The cells walked from `start` toward `goal` within `limit`.
pub open spec fn planned_steps(start: Point, goal: Point, limit: nat) -> Seq<Point> {
    if next_to(start, goal) {
        Seq::empty()
    } else {
        walk(start, goal, limit)
    }
}

/// A greedy step goes to a neighbour of `cur` and strictly closer to
/// `goal`, so a greedy walk never revisits a cell and always ends at the
/// goal.
pub proof fn lemma_greedy_step_approaches(cur: Point, goal: Point)
    requires
        cur != goal,
    ensures
        neighbors_in(cur, max_point()).contains(greedy_step(cur, goal)),
        dist_sq(greedy_step(cur, goal), goal) < dist_sq(cur, goal),
{
    let ns = neighbors_in(cur, max_point());
    let n = if goal.y > cur.y {
        Point { x: cur.x, y: (cur.y + 1) as u8 }
    } else if goal.x > cur.x {
        Point { x: (cur.x + 1) as u8, y: cur.y }
    } else if goal.y < cur.y {
        Point { x: cur.x, y: (cur.y - 1) as u8 }
    } else {
        Point { x: (cur.x - 1) as u8, y: cur.y }
    };
    let north = if cur.y < 255 { seq![Point { x: cur.x, y: (cur.y + 1) as u8 }] } else { Seq::<Point>::empty() };
    let east = if cur.x < 255 { seq![Point { x: (cur.x + 1) as u8, y: cur.y }] } else { Seq::<Point>::empty() };
    let south = if cur.y > 0 { seq![Point { x: cur.x, y: (cur.y - 1) as u8 }] } else { Seq::<Point>::empty() };
    let west = if cur.x > 0 { seq![Point { x: (cur.x - 1) as u8, y: cur.y }] } else { Seq::<Point>::empty() };
    assert(ns == north + east + south + west);
    let k: int = if goal.y > cur.y {
        0
    } else if goal.x > cur.x {
        north.len() as int
    } else if goal.y < cur.y {
        (north.len() + east.len()) as int
    } else {
        (north.len() + east.len() + south.len()) as int
    };
    assert(ns[k] == n);
    let dx = cur.x - goal.x;
    let dy = cur.y - goal.y;
    assert(dist_sq(cur, goal) == dx * dx + dy * dy);
    if goal.y > cur.y {
        assert(dist_sq(n, goal) == dx * dx + (dy + 1) * (dy + 1));
        assert((dy + 1) * (dy + 1) < dy * dy) by (nonlinear_arith)
            requires
                dy <= -1,
        ;
    } else if goal.x > cur.x {
        assert(dist_sq(n, goal) == (dx + 1) * (dx + 1) + dy * dy);
        assert((dx + 1) * (dx + 1) < dx * dx) by (nonlinear_arith)
            requires
                dx <= -1,
        ;
    } else if goal.y < cur.y {
        assert(dist_sq(n, goal) == dx * dx + (dy - 1) * (dy - 1));
        assert((dy - 1) * (dy - 1) < dy * dy) by (nonlinear_arith)
            requires
                dy >= 1,
        ;
    } else {
        assert(dist_sq(n, goal) == (dx - 1) * (dx - 1) + dy * dy);
        assert((dx - 1) * (dx - 1) < dx * dx) by (nonlinear_arith)
            requires
                dx >= 1,
        ;
    }
    assert(dist_sq(n, goal) < dist_sq(cur, goal));
    lemma_closest_is_nearest(goal, ns);
    assert(dist_sq(greedy_step(cur, goal), goal) <= dist_sq(ns[k], goal));
}

/// `c` lies in the rectangle spanned by `a` and `b`.
pub open spec fn in_box(c: Point, a: Point, b: Point) -> bool {
    (a.x <= c.x <= b.x || b.x <= c.x <= a.x) && (a.y <= c.y <= b.y || b.y <= c.y <= a.y)
}

/// Every neighbour differs from `p` by one on exactly one axis.
pub proof fn lemma_neighbors_adjacent(p: Point, b: Point)
    ensures
        forall|k: int|
            0 <= k < neighbors_in(p, b).len() ==> {
                let n = #[trigger] neighbors_in(p, b)[k];
                (n.x == p.x && (n.y == p.y + 1 || n.y + 1 == p.y)) || (n.y == p.y && (n.x == p.x + 1 || n.x + 1 == p.x))
            },
{
    if within(p, b) {
        let north = if p.y < b.y { seq![Point { x: p.x, y: (p.y + 1) as u8 }] } else { Seq::<Point>::empty() };
        let east = if p.x < b.x { seq![Point { x: (p.x + 1) as u8, y: p.y }] } else { Seq::<Point>::empty() };
        let south = if p.y > 0 { seq![Point { x: p.x, y: (p.y - 1) as u8 }] } else { Seq::<Point>::empty() };
        let west = if p.x > 0 { seq![Point { x: (p.x - 1) as u8, y: p.y }] } else { Seq::<Point>::empty() };
        let ns = neighbors_in(p, b);
        assert(ns == north + east + south + west);
        assert forall|k: int| 0 <= k < ns.len() implies {
            let n = #[trigger] ns[k];
            (n.x == p.x && (n.y == p.y + 1 || n.y + 1 == p.y)) || (n.y == p.y && (n.x == p.x + 1 || n.x + 1 == p.x))
        } by {
            let (a, e, s) = (north.len() as int, east.len() as int, south.len() as int);
            if k < a {
                assert(ns[k] == north[k]);
            } else if k < a + e {
                assert(ns[k] == east[k - a]);
            } else if k < a + e + s {
                assert(ns[k] == south[k - a - e]);
            } else {
                assert(ns[k] == west[k - a - e - s]);
            }
        }
    }
}

/// A greedy step stays in the rectangle spanned by `cur` and `goal`.
pub proof fn lemma_greedy_step_in_box(cur: Point, goal: Point)
    requires
        cur != goal,
    ensures
        in_box(greedy_step(cur, goal), cur, goal),
{
    lemma_greedy_step_approaches(cur, goal);
    lemma_neighbors_adjacent(cur, max_point());
    let ns = neighbors_in(cur, max_point());
    let n = greedy_step(cur, goal);
    let k = choose|k: int| 0 <= k < ns.len() && ns[k] == n;
    let (dx, dy) = (cur.x - goal.x, cur.y - goal.y);
    let (ex, ey) = (n.x - goal.x, n.y - goal.y);
    assert(dist_sq(n, goal) == ex * ex + ey * ey);
    assert(dist_sq(cur, goal) == dx * dx + dy * dy);
    if n.x == cur.x {
        assert(ey * ey < dy * dy);
        assert(ey == dy + 1 || ey == dy - 1);
        assert(ey == dy + 1 ==> dy < 0) by (nonlinear_arith)
            requires
                ey * ey < dy * dy,
        ;
        assert(ey == dy - 1 ==> dy > 0) by (nonlinear_arith)
            requires
                ey * ey < dy * dy,
        ;
    } else {
        assert(ex * ex < dx * dx);
        assert(ex == dx + 1 || ex == dx - 1);
        assert(ex == dx + 1 ==> dx < 0) by (nonlinear_arith)
            requires
                ex * ex < dx * dx,
        ;
        assert(ex == dx - 1 ==> dx > 0) by (nonlinear_arith)
            requires
                ex * ex < dx * dx,
        ;
    }
}

/// Every cell of a greedy walk lies in the rectangle spanned by its start
/// and its goal, is not the goal, and is nearer the goal than the start.
pub proof fn lemma_walk_in_box(cur: Point, goal: Point, limit: nat)
    ensures
        forall|k: int|
            0 <= k < walk(cur, goal, limit).len() ==> {
                let c = #[trigger] walk(cur, goal, limit)[k];
                in_box(c, cur, goal) && c != goal && dist_sq(c, goal) < dist_sq(cur, goal)
            },
    decreases limit,
{
    if limit > 0 && cur != goal {
        let next = greedy_step(cur, goal);
        if next != goal {
            lemma_greedy_step_in_box(cur, goal);
            lemma_greedy_step_approaches(cur, goal);
            lemma_walk_in_box(next, goal, (limit - 1) as nat);
            let w = walk(cur, goal, limit);
            let rest = walk(next, goal, (limit - 1) as nat);
            assert(w == seq![next] + rest);
            assert forall|k: int| 0 <= k < w.len() implies {
                let c = #[trigger] w[k];
                in_box(c, cur, goal) && c != goal && dist_sq(c, goal) < dist_sq(cur, goal)
            } by {
                if k > 0 {
                    assert(w[k] == rest[k - 1]);
                }
            }
        }
    }
}

/// A point of the rectangle spanned by `s` and `g`, other than `g`, is
/// nearer `s` than `g` is.
pub proof fn lemma_box_nearer(c: Point, s: Point, g: Point)
    requires
        in_box(c, s, g),
        c != g,
    ensures
        dist_sq(c, s) < dist_sq(g, s),
{
    let (cx, cy, gx, gy) = (c.x - s.x, c.y - s.y, g.x - s.x, g.y - s.y);
    assert(dist_sq(c, s) == cx * cx + cy * cy);
    assert(dist_sq(g, s) == gx * gx + gy * gy);
    assert(cx * cx <= gx * gx) by (nonlinear_arith)
        requires
            (0 <= cx <= gx) || (gx <= cx <= 0),
    ;
    assert(cy * cy <= gy * gy) by (nonlinear_arith)
        requires
            (0 <= cy <= gy) || (gy <= cy <= 0),
    ;
    if cx != gx {
        assert(cx * cx < gx * gx) by (nonlinear_arith)
            requires
                (0 <= cx < gx) || (gx < cx <= 0),
        ;
    } else {
        assert(cy != gy);
        assert(cy * cy < gy * gy) by (nonlinear_arith)
            requires
                (0 <= cy < gy) || (gy < cy <= 0),
        ;
    }
}

/// Where a combatant stands and the opponents it may head for.
pub struct MovementEngine {
    current_position: Point,
    enemies: Vec<Point>,
    step_limit: Option<usize>,
}

/// The outcome of one movement: where it started, the opponent it headed
/// for, where it ended, and each cell it passed through.
#[derive(Debug)]
pub struct MovementResult {
    pub start: Point,
    pub goal: Point,
    pub last_position: Point,
    pub steps: Vec<Point>,
}

impl MovementResult {
    /// No movement: the goal is already within reach.
    pub fn already_at_goal(start: Point, goal: Point) -> (r: MovementResult)
        ensures
            r.start == start,
            r.goal == goal,
            r.last_position == start,
            r.steps@ == Seq::<Point>::empty(),
    {
        MovementResult { start, goal, last_position: start, steps: Vec::new() }
    }

    /// At least one cell was walked.
    pub fn has_moved(&self) -> (r: bool)
        ensures
            r == (self.steps@.len() != 0),
    {
        self.steps.len() != 0
    }
}

impl Clone for MovementResult {
    fn clone(&self) -> (r: MovementResult)
        ensures
            r.start == self.start,
            r.goal == self.goal,
            r.last_position == self.last_position,
            r.steps@ == self.steps@,
    {
        let mut steps: Vec<Point> = Vec::new();
        let mut i: usize = 0;
        while i < self.steps.len()
            invariant
                i <= self.steps@.len(),
                steps@ =~= self.steps@.take(i as int),
            decreases self.steps@.len() - i,
        {
            steps.push(self.steps[i]);
            i = i + 1;
        }
        assert(self.steps@.take(i as int) =~= self.steps@);
        MovementResult { start: self.start, goal: self.goal, last_position: self.last_position, steps }
    }
}

impl MovementEngine {
    pub closed spec fn position_spec(&self) -> Point {
        self.current_position
    }

    pub closed spec fn enemies_spec(&self) -> Seq<Point> {
        self.enemies@
    }

    pub closed spec fn step_limit_spec(&self) -> Option<usize> {
        self.step_limit
    }

    pub fn new(current_position: Point, enemies: Vec<Point>, step_limit: Option<usize>) -> (r: MovementEngine)
        ensures
            r.position_spec() == current_position,
            r.enemies_spec() == enemies@,
            r.step_limit_spec() == step_limit,
    {
        MovementEngine { current_position, enemies, step_limit }
    }

    fn normalized_step_limit(&self) -> (r: usize)
        ensures
            r == limit_of(self.step_limit),
    {
        match self.step_limit {
            Some(n) => n,
            None => usize::MAX,
        }
    }

    /// Heads for the nearest enemy (see `Point::closest`) and walks greedily
    /// toward it, at most the step limit's number of cells, stopping next
    /// to it. Nothing is walked when it is already next to it.
    pub fn do_move(&self) -> (r: MovementResult)
        ensures
            r.start == self.position_spec(),
            r.goal == closest_in(self.position_spec(), self.enemies_spec()),
            r.steps@ == planned_steps(r.start, r.goal, limit_of(self.step_limit_spec())),
            r.last_position == (if r.steps@.len() == 0 {
                r.start
            } else {
                r.steps@.last()
            }),
    {
        let start = self.current_position;
        let enemies = self.enemies.clone();
        assert(enemies@ =~= self.enemies@);
        let goal = start.closest(enemies);
        if Self::within_reach(start, goal) {
            return MovementResult::already_at_goal(start, goal);
        }
        let steps = Self::find_route(start, goal, self.normalized_step_limit());
        let last_position = if steps.len() == 0 { start } else { steps[steps.len() - 1] };
        MovementResult { start, goal, last_position, steps }
    }

    fn within_reach(cur: Point, goal: Point) -> (r: bool)
        ensures
            r == next_to(cur, goal),
    {
        if cur == goal {
            return true;
        }
        let ns = cur.neighbors(None);
        assert(ns@ == neighbors_in(cur, max_point()));
        let mut i: usize = 0;
        while i < ns.len()
            invariant
                i <= ns@.len(),
                ns@ == neighbors_in(cur, max_point()),
                cur != goal,
                forall|k: int| 0 <= k < i ==> ns@[k] != goal,
            decreases ns@.len() - i,
        {
            if ns[i] == goal {
                assert(ns@[i as int] == goal);
                assert(neighbors_in(cur, max_point()).contains(goal));
                return true;
            }
            i = i + 1;
        }
        false
    }

    /// The greedy walk from `start` toward `goal`, without `start` and
    /// `goal`, at most `limit` cells long.
    fn find_route(start: Point, goal: Point, limit: usize) -> (r: Vec<Point>)
        ensures
            r@ == walk(start, goal, limit as nat),
    {
        let mut steps: Vec<Point> = Vec::new();
        let mut cur = start;
        let mut done = false;
        while !done && steps.len() < limit
            invariant
                steps@.len() <= limit,
                steps@ + walk(cur, goal, (limit - steps@.len()) as nat) == walk(start, goal, limit as nat),
                done ==> walk(cur, goal, (limit - steps@.len()) as nat) == Seq::<Point>::empty(),
            decreases limit - steps@.len() + (if done { 0int } else { 1int }),
        {
            if cur == goal {
                done = true;
            } else {
                let next = goal.closest(cur.neighbors(None));
                if next == goal {
                    done = true;
                } else {
                    let ghost before = steps@;
                    let ghost rest = (limit - steps@.len()) as nat;
                    assert(walk(cur, goal, rest) == seq![next] + walk(next, goal, (rest - 1) as nat));
                    steps.push(next);
                    assert(steps@ + walk(next, goal, (rest - 1) as nat) =~= before + walk(cur, goal, rest));
                    cur = next;
                }
            }
        }
        assert(walk(cur, goal, (limit - steps@.len()) as nat) == Seq::<Point>::empty());
        assert(steps@ + Seq::<Point>::empty() =~= steps@);
        steps
    }
}

} // verus!
