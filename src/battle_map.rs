//! The battlefield: which combatant stands where.

use crate::err::Error;
use crate::point::{Point, max_point, neighbors_in, within};
use vstd::prelude::*;

verus! {

/// One placement: a point and the name of the combatant standing there.
pub type Entry = (Point, Seq<char>);

/// The names of a list of strings.
pub open spec fn names_of(v: Seq<String>) -> Seq<Seq<char>> {
    v.map_values(|n: String| n@)
}

/// The placements held in a list of points and names.
pub open spec fn entries_of(v: Seq<(Point, String)>) -> Seq<Entry> {
    v.map_values(|e: (Point, String)| (e.0, e.1@))
}

/// The last index of `s` whose point is `p`, or -1.
pub open spec fn find_point(s: Seq<Entry>, p: Point) -> int
    decreases s.len(),
{
    if s.len() == 0 {
        -1
    } else if s.last().0 == p {
        s.len() - 1
    } else {
        find_point(s.drop_last(), p)
    }
}

/// The last index of `s` whose name is `id`, or -1.
pub open spec fn find_id(s: Seq<Entry>, id: Seq<char>) -> int
    decreases s.len(),
{
    if s.len() == 0 {
        -1
    } else if s.last().1 == id {
        s.len() - 1
    } else {
        find_id(s.drop_last(), id)
    }
}

/// The names placed at `p`, in the order of `s`.
pub open spec fn names_at(s: Seq<Entry>, p: Point) -> Seq<Seq<char>>
    decreases s.len(),
{
    if s.len() == 0 {
        Seq::empty()
    } else if s.last().0 == p {
        names_at(s.drop_last(), p).push(s.last().1)
    } else {
        names_at(s.drop_last(), p)
    }
}

/// The names placed at any of the points `ps`, point by point.
pub open spec fn names_around(s: Seq<Entry>, ps: Seq<Point>) -> Seq<Seq<char>>
    decreases ps.len(),
{
    if ps.len() == 0 {
        Seq::empty()
    } else {
        names_around(s, ps.drop_last()) + names_at(s, ps.last())
    }
}

/// No two entries share a point, and no two share a name.
pub open spec fn unique_entries(s: Seq<Entry>) -> bool {
    forall|i: int, j: int|
        0 <= i < s.len() && 0 <= j < s.len() && i != j ==> s[i].0 != s[j].0 && s[i].1 != s[j].1
}

pub proof fn lemma_find_point(s: Seq<Entry>, p: Point)
    ensures
        -1 <= find_point(s, p) < s.len(),
        find_point(s, p) >= 0 ==> s[find_point(s, p)].0 == p,
        find_point(s, p) == -1 <==> forall|k: int| 0 <= k < s.len() ==> s[k].0 != p,
    decreases s.len(),
{
    if s.len() > 0 {
        lemma_find_point(s.drop_last(), p);
        if find_point(s, p) == -1 {
            assert forall|k: int| 0 <= k < s.len() implies s[k].0 != p by {
                if k < s.len() - 1 {
                    assert(s[k] == s.drop_last()[k]);
                }
            }
        } else if s.last().0 != p {
            assert(s[find_point(s, p)] == s.drop_last()[find_point(s, p)]);
        }
    }
}

pub proof fn lemma_find_id(s: Seq<Entry>, id: Seq<char>)
    ensures
        -1 <= find_id(s, id) < s.len(),
        find_id(s, id) >= 0 ==> s[find_id(s, id)].1 == id,
        find_id(s, id) == -1 <==> forall|k: int| 0 <= k < s.len() ==> s[k].1 != id,
    decreases s.len(),
{
    if s.len() > 0 {
        lemma_find_id(s.drop_last(), id);
        if find_id(s, id) == -1 {
            assert forall|k: int| 0 <= k < s.len() implies s[k].1 != id by {
                if k < s.len() - 1 {
                    assert(s[k] == s.drop_last()[k]);
                }
            }
        } else if s.last().1 != id {
            assert(s[find_id(s, id)] == s.drop_last()[find_id(s, id)]);
        }
    }
}

/// In a list without repeated points, the index that holds `p` is the one
/// `find_point` gives.
pub proof fn lemma_find_point_unique(s: Seq<Entry>, p: Point, k: int)
    requires
        unique_entries(s),
        0 <= k < s.len(),
        s[k].0 == p,
    ensures
        find_point(s, p) == k,
{
    lemma_find_point(s, p);
}

/// In a list without repeated names, the index that holds `id` is the one
/// `find_id` gives.
pub proof fn lemma_find_id_unique(s: Seq<Entry>, id: Seq<char>, k: int)
    requires
        unique_entries(s),
        0 <= k < s.len(),
        s[k].1 == id,
    ensures
        find_id(s, id) == k,
{
    lemma_find_id(s, id);
}

/// Moving one entry to another point changes no name's index.
pub proof fn lemma_update_point_keeps_names(e: Seq<Entry>, i: int, p: Point, x: Seq<char>)
    requires
        0 <= i < e.len(),
    ensures
        find_id(e.update(i, (p, e[i].1)), x) == find_id(e, x),
    decreases e.len(),
{
    let u = e.update(i, (p, e[i].1));
    if i == e.len() - 1 {
        assert(u.drop_last() =~= e.drop_last());
    } else {
        assert(u.drop_last() =~= e.drop_last().update(i, (p, e[i].1)));
        assert(e.drop_last()[i] == e[i]);
        lemma_update_point_keeps_names(e.drop_last(), i, p, x);
    }
}

/// Removing one entry leaves every other name placed or not as before; the
/// removed name is no longer placed when names are unique.
pub proof fn lemma_remove_names(e: Seq<Entry>, j: int, x: Seq<char>)
    requires
        unique_entries(e),
        0 <= j < e.len(),
    ensures
        e[j].1 == x ==> find_id(e.remove(j), x) == -1,
        e[j].1 != x ==> (find_id(e.remove(j), x) == -1 <==> find_id(e, x) == -1),
{
    let r = e.remove(j);
    lemma_find_id(e, x);
    lemma_find_id(r, x);
    assert forall|k: int| 0 <= k < r.len() implies r[k] == e[if k < j { k } else { k + 1 }] by {}
    if e[j].1 != x && find_id(r, x) == -1 && find_id(e, x) != -1 {
        let k = find_id(e, x);
        assert(r[if k < j { k } else { k - 1 }] == e[k]);
    }
}

/// Removing one entry moves no other name.
pub proof fn lemma_remove_position(e: Seq<Entry>, j: int, x: Seq<char>)
    requires
        unique_entries(e),
        0 <= j < e.len(),
        e[j].1 != x,
        find_id(e, x) >= 0,
    ensures
        find_id(e.remove(j), x) >= 0,
        e.remove(j)[find_id(e.remove(j), x)].0 == e[find_id(e, x)].0,
{
    let r = e.remove(j);
    lemma_find_id(e, x);
    let f = find_id(e, x);
    let g = if f < j { f } else { f - 1 };
    assert(r[g] == e[f]);
    assert(unique_entries(r)) by {
        assert forall|a: int, b: int| 0 <= a < r.len() && 0 <= b < r.len() && a != b implies r[a].0 != r[b].0
            && r[a].1 != r[b].1 by {
            assert(r[a] == e[if a < j { a } else { a + 1 }]);
            assert(r[b] == e[if b < j { b } else { b + 1 }]);
        }
    }
    lemma_find_id_unique(r, x, g);
}

/// The number of the point `p` in a column-major count over columns of
/// height `h`.
pub open spec fn cell_code(p: Point, h: int) -> int {
    p.x * h + p.y
}

/// Fewer placements than cells, all in `[0, w) x [0, h)` and on distinct
/// points, leave a cell of that rectangle free.
pub proof fn lemma_free_cell(s: Seq<Entry>, w: int, h: int)
    requires
        unique_entries(s),
        forall|k: int| 0 <= k < s.len() ==> (#[trigger] s[k]).0.x < w && s[k].0.y < h,
        s.len() < w * h,
        0 <= w <= 255,
        0 <= h <= 255,
    ensures
        exists|p: Point| p.x < w && p.y < h && find_point(s, p) == -1,
{
    let codes = s.map_values(|e: Entry| cell_code(e.0, h));
    assert forall|i: int, j: int| 0 <= i < codes.len() && 0 <= j < codes.len() && i != j implies codes[i] != codes[j] by {
        let (a, b) = (s[i].0, s[j].0);
        assert(a != b);
        if codes[i] == codes[j] {
            assert(a.x * h + a.y == b.x * h + b.y);
            vstd::arithmetic::div_mod::lemma_fundamental_div_mod_converse(a.x * h + a.y, h, a.x as int, a.y as int);
            vstd::arithmetic::div_mod::lemma_fundamental_div_mod_converse(b.x * h + b.y, h, b.x as int, b.y as int);
        }
    }
    assert(codes.no_duplicates());
    codes.unique_seq_to_set();
    let range = vstd::set_lib::set_int_range(0, w * h);
    vstd::set_lib::lemma_int_range(0, w * h);
    if forall|c: int| 0 <= c < w * h ==> codes.to_set().contains(c) {
        assert(range.subset_of(codes.to_set()));
        assert forall|c: int| codes.to_set().contains(c) implies range.contains(c) by {
            let k = choose|k: int| 0 <= k < codes.len() && codes[k] == c;
            let q = s[k].0;
            assert(codes[k] == q.x * h + q.y);
            assert(0 <= q.x * h + q.y < w * h) by (nonlinear_arith)
                requires
                    0 <= q.x < w,
                    0 <= q.y < h,
            ;
        }
        vstd::set_lib::lemma_len_subset(range, codes.to_set());
        assert(false);
    }
    let c = choose|c: int| 0 <= c < w * h && !codes.to_set().contains(c);
    assert(h > 0) by (nonlinear_arith)
        requires
            0 <= c < w * h,
            w >= 0,
    ;
    let x = c / h;
    let y = c % h;
    assert(0 <= x < w) by (nonlinear_arith)
        requires
            0 <= c < w * h,
            h > 0,
            x == c / h,
    ;
    let p = Point { x: x as u8, y: y as u8 };
    lemma_find_point(s, p);
    if find_point(s, p) != -1 {
        let k = find_point(s, p);
        vstd::arithmetic::div_mod::lemma_fundamental_div_mod(c, h);
        assert(codes[k] == c) by (nonlinear_arith)
            requires
                codes[k] == cell_code(s[k].0, h),
                s[k].0 == p,
                p.x == x,
                p.y == y,
                c == h * x + y,
        ;
        assert(codes.to_set().contains(c));
    }
}

/// A rectangular battlefield of `width` by `height` and the combatants
/// placed on it, at most one per point and at most one point per name.
#[derive(Debug)]
pub struct BattleMap {
    width: u8,
    height: u8,
    pois: Vec<(Point, String)>,
}

impl BattleMap {
    /// The placements, point and name.
    pub closed spec fn entries(&self) -> Seq<Entry> {
        entries_of(self.pois@)
    }

    pub closed spec fn width_spec(&self) -> u8 {
        self.width
    }

    pub closed spec fn height_spec(&self) -> u8 {
        self.height
    }

    /// The far corner: moves may go up to it on both axes.
    pub open spec fn bounds(&self) -> Point {
        Point { x: self.width_spec(), y: self.height_spec() }
    }

    pub open spec fn wf(&self) -> bool {
        unique_entries(self.entries())
    }

    pub open spec fn occupied(&self, p: Point) -> bool {
        find_point(self.entries(), p) >= 0
    }

    pub open spec fn placed(&self, id: Seq<char>) -> bool {
        find_id(self.entries(), id) >= 0
    }

    /// The place of `id`, where it has one.
    pub open spec fn position_of(&self, id: Seq<char>) -> Option<Point> {
        if self.placed(id) {
            Some(self.entries()[find_id(self.entries(), id)].0)
        } else {
            None
        }
    }

    /// The names placed next to `p`, neighbour by neighbour; none when `p`
    /// lies beyond the map's bounds.
    pub open spec fn neighbor_names(&self, p: Point) -> Seq<Seq<char>> {
        if within(p, self.bounds()) {
            names_around(self.entries(), neighbors_in(p, max_point()))
        } else {
            Seq::empty()
        }
    }

    /// Every placement lies within the map's bounds.
    pub open spec fn all_within(&self) -> bool {
        forall|k: int| 0 <= k < self.entries().len() ==> within(#[trigger] self.entries()[k].0, self.bounds())
    }

    /// Some point of `[0, width) x [0, height)` is free.
    pub open spec fn has_free_cell(&self) -> bool {
        exists|p: Point| p.x < self.width_spec() && p.y < self.height_spec() && !self.occupied(p)
    }

    /// An empty battlefield.
    pub fn new(width: u8, height: u8) -> (r: BattleMap)
        ensures
            r.width_spec() == width,
            r.height_spec() == height,
            r.entries() == Seq::<Entry>::empty(),
            r.wf(),
    {
        let r = BattleMap { width, height, pois: Vec::new() };
        assert(r.entries() =~= Seq::<Entry>::empty());
        r
    }

    pub fn get_width(&self) -> (r: u8)
        ensures
            r == self.width_spec(),
    {
        self.width
    }

    pub fn get_height(&self) -> (r: u8)
        ensures
            r == self.height_spec(),
    {
        self.height
    }

    pub fn map_bounds(&self) -> (r: Point)
        ensures
            r == self.bounds(),
    {
        Point::new(self.width, self.height)
    }

    /// Every placement, point and name.
    pub fn get_pois(&self) -> (r: Vec<(Point, String)>)
        ensures
            entries_of(r@) == self.entries(),
    {
        let mut out: Vec<(Point, String)> = Vec::new();
        let mut i: usize = 0;
        assert(self.entries().len() == self.pois@.len());
        while i < self.pois.len()
            invariant
                i <= self.pois@.len(),
                out@.len() == i,
                entries_of(out@) =~= self.entries().take(i as int),
            decreases self.pois@.len() - i,
        {
            let p = self.pois[i].0;
            let n = self.pois[i].1.clone();
            out.push((p, n));
            assert(entries_of(out@)[i as int] == self.entries()[i as int]);
            assert(entries_of(out@) =~= self.entries().take(i as int + 1));
            i = i + 1;
        }
        assert(self.entries().take(i as int) =~= self.entries());
        out
    }

    /// Whether anyone stands at `location`.
    pub fn is_occupied(&self, location: Point) -> (r: bool)
        ensures
            r == self.occupied(location),
    {
        self.index_of_point(location).is_some()
    }

    fn index_of_point(&self, p: Point) -> (r: Option<usize>)
        ensures
            r is None <==> find_point(self.entries(), p) < 0,
            r matches Some(i) ==> i as int == find_point(self.entries(), p),
            r matches Some(i) ==> i < self.pois@.len(),
            self.entries().len() == self.pois@.len(),
    {
        let ghost e = self.entries();
        let mut i: usize = self.pois.len();
        assert(e.take(i as int) =~= e);
        while i > 0
            invariant
                i <= e.len(),
                e == self.entries(),
                find_point(e, p) == find_point(e.take(i as int), p),
            decreases i,
        {
            assert(e.take(i as int).drop_last() =~= e.take(i as int - 1));
            if self.pois[i - 1].0 == p {
                return Some(i - 1);
            }
            i = i - 1;
        }
        None
    }

    fn index_of_id(&self, id: &String) -> (r: Option<usize>)
        ensures
            r is None <==> find_id(self.entries(), id@) < 0,
            r matches Some(i) ==> i as int == find_id(self.entries(), id@),
            r matches Some(i) ==> i < self.pois@.len(),
            self.entries().len() == self.pois@.len(),
    {
        let ghost e = self.entries();
        let mut i: usize = self.pois.len();
        assert(e.take(i as int) =~= e);
        while i > 0
            invariant
                i <= e.len(),
                e == self.entries(),
                find_id(e, id@) == find_id(e.take(i as int), id@),
            decreases i,
        {
            assert(e.take(i as int).drop_last() =~= e.take(i as int - 1));
            if self.pois[i - 1].1 == *id {
                return Some(i - 1);
            }
            i = i - 1;
        }
        None
    }

    /// Where `id` stands, if it has been placed.
    pub fn position_for(&self, id: &String) -> (r: Option<Point>)
        ensures
            r == self.position_of(id@),
    {
        proof {
            lemma_find_id(self.entries(), id@);
            assert(self.entries().len() == self.pois@.len());
        }
        match self.index_of_id(id) {
            Some(i) => {
                assert(self.entries()[i as int].0 == self.pois@[i as int].0);
                Some(self.pois[i].0)
            },
            None => None,
        }
    }

    /// Places `id` at `location`.
    pub fn place(&mut self, id: String, location: Point) -> (r: Result<bool, Error>)
        requires
            old(self).wf(),
        ensures
            final(self).wf(),
            final(self).width_spec() == old(self).width_spec(),
            final(self).height_spec() == old(self).height_spec(),
            old(self).occupied(location) ==> r == Err::<bool, Error>(
                Error::DestinationOccupied(Point { x: 0, y: 0 }, location),
            ) && final(self).entries() == old(self).entries(),
            !old(self).occupied(location) && old(self).placed(id@) ==> r == Err::<bool, Error>(
                Error::UserAlreadyOnMap,
            ) && final(self).entries() == old(self).entries(),
            !old(self).occupied(location) && !old(self).placed(id@) ==> r == Ok::<bool, Error>(true)
                && final(self).entries() == old(self).entries().push((location, id@)),
    {
        if self.is_occupied(location) {
            return Err(Error::DestinationOccupied(Point::new(0, 0), location));
        }
        if self.index_of_id(&id).is_some() {
            return Err(Error::UserAlreadyOnMap);
        }
        self.insert_fresh(id, location);
        Ok(true)
    }

    /// Adds an entry for a name and a point that are both unused.
    fn insert_fresh(&mut self, id: String, location: Point)
        requires
            old(self).wf(),
            !old(self).occupied(location),
            !old(self).placed(id@),
        ensures
            final(self).wf(),
            final(self).width_spec() == old(self).width_spec(),
            final(self).height_spec() == old(self).height_spec(),
            final(self).entries() == old(self).entries().push((location, id@)),
    {
        let ghost e = self.entries();
        proof {
            lemma_find_point(e, location);
            lemma_find_id(e, id@);
        }
        self.pois.push((location, id));
        assert(self.entries() =~= e.push((location, id@)));
    }

    /// A free point of `[0, width) x [0, height)`: first a few random draws,
    /// then the first free point in column order.
    fn unoccupied_location(&self) -> (r: Point)
        requires
            self.has_free_cell(),
        ensures
            r.x < self.width_spec(),
            r.y < self.height_spec(),
            !self.occupied(r),
    {
        let w = self.width;
        let h = self.height;
        let ghost free = choose|p: Point| p.x < self.width_spec() && p.y < self.height_spec() && !self.occupied(p);
        assert((w as u32) * (h as u32) <= 255 * 255) by (nonlinear_arith)
            requires
                w <= 255,
                h <= 255,
        ;
        let tries: u32 = (w as u32) * (h as u32);
        let mut n: u32 = 0;
        while n < tries
            invariant
                w == self.width_spec(),
                h == self.height_spec(),
                w > 0,
                h > 0,
            decreases tries - n,
        {
            let p = Point::random(Some(Point::new(w, h)));
            if !self.is_occupied(p) {
                return p;
            }
            n = n + 1;
        }
        let mut x: u8 = 0;
        while x < w
            invariant
                w == self.width_spec(),
                h == self.height_spec(),
                x <= w,
                forall|q: Point| q.x < x && q.y < h ==> self.occupied(q),
            decreases w - x,
        {
            let mut y: u8 = 0;
            while y < h
                invariant
                    w == self.width_spec(),
                    h == self.height_spec(),
                    x < w,
                    y <= h,
                    forall|q: Point| (q.x < x && q.y < h) || (q.x == x && q.y < y) ==> self.occupied(q),
                decreases h - y,
            {
                let p = Point::new(x, y);
                if !self.is_occupied(p) {
                    return p;
                }
                y = y + 1;
            }
            x = x + 1;
        }
        assert(self.occupied(free));
        Point::new(0, 0)
    }

    /// Places `id` on a random free point of `[0, width) x [0, height)`.
    pub fn place_randomly(&mut self, id: String) -> (r: Result<bool, Error>)
        requires
            old(self).wf(),
            old(self).has_free_cell(),
        ensures
            final(self).wf(),
            final(self).width_spec() == old(self).width_spec(),
            final(self).height_spec() == old(self).height_spec(),
            old(self).placed(id@) ==> r == Err::<bool, Error>(Error::UserAlreadyOnMap)
                && final(self).entries() == old(self).entries(),
            !old(self).placed(id@) ==> r == Ok::<bool, Error>(true) && exists|p: Point|
                p.x < old(self).width_spec() && p.y < old(self).height_spec() && !old(self).occupied(p)
                    && #[trigger] final(self).entries() == old(self).entries().push((p, id@)),
    {
        if self.index_of_id(&id).is_some() {
            return Err(Error::UserAlreadyOnMap);
        }
        let location = self.unoccupied_location();
        self.insert_fresh(id, location);
        Ok(true)
    }

    /// Moves whoever stands at `origin` to `goal`.
    pub fn move_to(&mut self, origin: Point, goal: Point) -> (r: Result<bool, Error>)
        requires
            old(self).wf(),
        ensures
            final(self).wf(),
            final(self).width_spec() == old(self).width_spec(),
            final(self).height_spec() == old(self).height_spec(),
            r is Err ==> final(self).entries() == old(self).entries(),
            origin == goal ==> r == Ok::<bool, Error>(true) && final(self).entries() == old(self).entries(),
            origin != goal && !old(self).occupied(origin) ==> r == Err::<bool, Error>(
                Error::MapLocationEmpty(origin),
            ),
            origin != goal && old(self).occupied(origin) && !within(goal, old(self).bounds()) ==> r
                == Err::<bool, Error>(Error::DestinationOutOfBounds(goal, old(self).bounds())),
            origin != goal && old(self).occupied(origin) && within(goal, old(self).bounds())
                && old(self).occupied(goal) ==> r == Err::<bool, Error>(
                Error::DestinationOccupied(origin, goal),
            ),
            origin != goal && old(self).occupied(origin) && within(goal, old(self).bounds())
                && !old(self).occupied(goal) ==> r == Ok::<bool, Error>(true) && final(self).entries()
                == old(self).entries().update(
                find_point(old(self).entries(), origin),
                (goal, old(self).entries()[find_point(old(self).entries(), origin)].1),
            ),
    {
        if origin == goal {
            return Ok(true);
        }
        match self.index_of_point(origin) {
            None => Err(Error::MapLocationEmpty(origin)),
            Some(i) => {
                let b = self.map_bounds();
                if goal.x > b.x || goal.y > b.y {
                    return Err(Error::DestinationOutOfBounds(goal, b));
                }
                if self.is_occupied(goal) {
                    return Err(Error::DestinationOccupied(origin, goal));
                }
                let ghost e = self.entries();
                proof {
                    lemma_find_point(e, goal);
                }
                let name = self.pois[i].1.clone();
                self.pois.set(i, (goal, name));
                assert(self.entries() =~= e.update(i as int, (goal, e[i as int].1)));
                Ok(true)
            },
        }
    }

    /// A copy of the map without the entry of `id`, if it has one.
    pub fn remove_poi(&self, id: &String) -> (r: BattleMap)
        requires
            self.wf(),
        ensures
            r.wf(),
            r.width_spec() == self.width_spec(),
            r.height_spec() == self.height_spec(),
            r.entries() == (if self.placed(id@) {
                self.entries().remove(find_id(self.entries(), id@))
            } else {
                self.entries()
            }),
    {
        let mut copy = self.clone();
        match copy.index_of_id(id) {
            Some(i) => {
                let ghost e = copy.entries();
                copy.pois.remove(i);
                assert(copy.entries() =~= e.remove(i as int));
                copy
            },
            None => copy,
        }
    }

    /// Appends the names placed at `p` to `out`.
    fn push_names_at(&self, p: Point, out: &mut Vec<String>)
        ensures
            names_of(final(out)@) == names_of(old(out)@) + names_at(self.entries(), p),
    {
        let ghost e = self.entries();
        let ghost start = names_of(out@);
        let mut i: usize = 0;
        while i < self.pois.len()
            invariant
                e == self.entries(),
                i <= e.len(),
                names_of(out@) =~= start + names_at(e.take(i as int), p),
            decreases e.len() - i,
        {
            assert(e.take(i as int + 1).drop_last() =~= e.take(i as int));
            let ghost before = out@;
            if self.pois[i].0 == p {
                let n = self.pois[i].1.clone();
                out.push(n);
                assert(names_of(out@) =~= names_of(before).push(e[i as int].1));
            }
            assert(e.take(i as int + 1).last() == e[i as int]);
            i = i + 1;
        }
        assert(e.take(i as int) =~= e);
    }

    /// The names of everyone standing next to `location`; nobody when
    /// `location` lies beyond the map's bounds.
    pub fn get_occupied_neighbors(&self, location: Point) -> (r: Vec<String>)
        ensures
            names_of(r@) == self.neighbor_names(location),
    {
        let mut out: Vec<String> = Vec::new();
        if location.x > self.width || location.y > self.height {
            assert(names_of(out@) =~= Seq::<Seq<char>>::empty());
            return out;
        }
        let ns = location.neighbors(None);
        let mut j: usize = 0;
        assert(names_of(out@) =~= names_around(self.entries(), ns@.take(0)));
        while j < ns.len()
            invariant
                j <= ns@.len(),
                names_of(out@) =~= names_around(self.entries(), ns@.take(j as int)),
            decreases ns@.len() - j,
        {
            assert(ns@.take(j as int + 1).drop_last() =~= ns@.take(j as int));
            self.push_names_at(ns[j], &mut out);
            j = j + 1;
        }
        assert(ns@.take(j as int) =~= ns@);
        out
    }
}

impl Clone for BattleMap {
    fn clone(&self) -> (r: BattleMap)
        ensures
            r.width_spec() == self.width_spec(),
            r.height_spec() == self.height_spec(),
            r.entries() == self.entries(),
    {
        BattleMap { width: self.width, height: self.height, pois: self.get_pois() }
    }
}

} // verus!
