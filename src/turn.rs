//! One combatant's turn: move toward the nearest opponent, then strike a
//! neighbour if there is one.

use crate::actions::{BattleAction, BattleAttackAction, actor_of, copy_log, round_of, same_action, same_log};
use crate::battle_map::{
    BattleMap, find_id, find_point, lemma_find_id, lemma_find_id_unique, lemma_find_point, lemma_find_point_unique, lemma_update_point_keeps_names,
    names_of,
};
use crate::combatant::{Combatant, hp_after};
use crate::err::Error;
use crate::movement::{MovementEngine, in_box, lemma_box_nearer, lemma_walk_in_box, planned_steps, walk};
use crate::point::{Point, closest_in, dist_sq, lemma_closest_is_nearest, within};
use rand::seq::SliceRandom;
use vstd::prelude::*;

verus! {

/// How many cells a combatant may walk in one turn.
pub const MAX_COMBATANT_MOVE: usize = 3;

/// The places on `map` of those of `opps` that have one, in order.
pub open spec fn locations_of(map: BattleMap, opps: Seq<Combatant>) -> Seq<Point>
    decreases opps.len(),
{
    if opps.len() == 0 {
        Seq::empty()
    } else {
        let rest = locations_of(map, opps.drop_last());
        match map.position_of(opps.last().name@) {
            Some(p) => rest.push(p),
            None => rest,
        }
    }
}

/// Everyone on `map` is `a` or one of `opps`.
pub open spec fn occupants_known(map: BattleMap, a: Combatant, opps: Seq<Combatant>) -> bool {
    forall|k: int|
        0 <= k < map.entries().len() ==> (#[trigger] map.entries()[k]).1 == a.name@ || exists|j: int|
            0 <= j < opps.len() && opps[j].name@ == map.entries()[k].1
}

/// The place of an opponent that has one is among the opponents' places.
pub proof fn lemma_location_listed(map: BattleMap, opps: Seq<Combatant>, k: int)
    requires
        0 <= k < opps.len(),
        map.placed(opps[k].name@),
    ensures
        locations_of(map, opps).contains(map.position_of(opps[k].name@)->0),
    decreases opps.len(),
{
    let p = map.position_of(opps[k].name@)->0;
    let rest = locations_of(map, opps.drop_last());
    if k == opps.len() - 1 {
        assert(opps.last() == opps[k]);
        assert(locations_of(map, opps) == rest.push(p));
        assert(locations_of(map, opps)[rest.len() as int] == p);
    } else {
        assert(opps.drop_last()[k] == opps[k]);
        lemma_location_listed(map, opps.drop_last(), k);
        let i = choose|i: int| 0 <= i < rest.len() && rest[i] == p;
        assert(locations_of(map, opps)[i] == p);
    }
}

/// The places of opponents lie within the map's bounds.
pub proof fn lemma_locations_within(map: BattleMap, opps: Seq<Combatant>, i: int)
    requires
        map.all_within(),
        0 <= i < locations_of(map, opps).len(),
    ensures
        within(locations_of(map, opps)[i], map.bounds()),
    decreases opps.len(),
{
    let rest = locations_of(map, opps.drop_last());
    lemma_find_id(map.entries(), opps.last().name@);
    if i < rest.len() {
        lemma_locations_within(map, opps.drop_last(), i);
    }
}

/// `c` after a blow of `dmg`.
pub open spec fn struck(c: Combatant, dmg: u16) -> Combatant {
    Combatant { name: c.name, hp: hp_after(c.hp, dmg), dmg: c.dmg }
}

/// `opps` after every one named `id` took a blow of `dmg`.
pub open spec fn strike_all(opps: Seq<Combatant>, id: Seq<char>, dmg: u16) -> Seq<Combatant> {
    opps.map_values(|c: Combatant| if c.name@ == id { struck(c, dmg) } else { c })
}

/// One log entry for each of `opps` named `id`, struck by `active`.
pub open spec fn attack_log(opps: Seq<Combatant>, id: Seq<char>, active: Combatant, round: u32) -> Seq<BattleAction>
    decreases opps.len(),
{
    if opps.len() == 0 {
        Seq::empty()
    } else {
        let rest = attack_log(opps.drop_last(), id, active, round);
        if opps.last().name@ == id {
            rest.push(
                BattleAction::Attack(
                    round,
                    BattleAttackAction { assailant: active, victim: struck(opps.last(), active.dmg), damage: active.dmg },
                ),
            )
        } else {
            rest
        }
    }
}

/// Where `a` starts its turn.
pub open spec fn turn_start(a: Combatant, map: BattleMap) -> Point {
    map.position_of(a.name@)->0
}

/// The cells `a` walks in its turn: toward the nearest of `opps`, at most
/// `limit` of them.
pub open spec fn turn_steps(a: Combatant, opps: Seq<Combatant>, map: BattleMap, limit: usize) -> Seq<Point> {
    let start = turn_start(a, map);
    planned_steps(start, closest_in(start, locations_of(map, opps)), limit as nat)
}

/// Where `a` ends its walk.
pub open spec fn turn_last(a: Combatant, opps: Seq<Combatant>, map: BattleMap, limit: usize) -> Point {
    let steps = turn_steps(a, opps, map, limit);
    if steps.len() == 0 {
        turn_start(a, map)
    } else {
        steps.last()
    }
}

/// The error `BattleMap::move_to` gives for a move between two distinct
/// points that fails.
pub open spec fn move_error(map: BattleMap, origin: Point, goal: Point) -> Error {
    if !map.occupied(origin) {
        Error::MapLocationEmpty(origin)
    } else if !within(goal, map.bounds()) {
        Error::DestinationOutOfBounds(goal, map.bounds())
    } else {
        Error::DestinationOccupied(origin, goal)
    }
}

/// `res` is a state that a successful turn of `a` against `opps`, on `map`,
/// after the log `log`, in round `round`, walking at most `limit` cells,
/// may leave: `a` walks its planned steps (logged and carried out on the
/// map), then strikes one of its neighbours, if any, and logs the blow;
/// nothing else changes.
pub open spec fn turn_ok(
    a: Combatant,
    opps: Seq<Combatant>,
    map: BattleMap,
    log: Seq<BattleAction>,
    round: u32,
    limit: usize,
    res: CombatantTurnResult,
) -> bool {
    let start = turn_start(a, map);
    let steps = turn_steps(a, opps, map, limit);
    let last = turn_last(a, opps, map, limit);
    &&& res.active_combatant == a
    &&& map.all_within() ==> res.map.all_within()
    &&& forall|x: Seq<char>| #[trigger] res.map.placed(x) == map.placed(x)
    &&& forall|x: Seq<char>| x != a.name@ ==> #[trigger] res.map.position_of(x) == map.position_of(x)
    &&& forall|k: int| log.len() <= k < res.actions@.len() ==> round_of(#[trigger] res.actions@[k]) == round
    &&& res.opponents@ == opps || exists|id: Seq<char>| #[trigger] strike_all(opps, id, a.dmg) == res.opponents@
    &&& res.round_number == round
    &&& res.map.wf()
    &&& res.map.width_spec() == map.width_spec()
    &&& res.map.height_spec() == map.height_spec()
    &&& res.actions@.len() >= log.len()
    &&& forall|i: int| 0 <= i < log.len() ==> same_action(#[trigger] res.actions@[i], log[i])
    &&& !map.placed(a.name@) ==> res.opponents@ == opps && res.actions@.len() == log.len()
    &&& map.placed(a.name@) ==> res.map.position_of(a.name@) == Some(last)
    &&& map.placed(a.name@) && res.map.neighbor_names(last).len() == 0 ==> res.opponents@ == opps
    &&& map.placed(a.name@) && steps.len() > 0 ==> is_move_entry(
        res.actions@[log.len() as int],
        round,
        a.name@,
        start,
        closest_in(start, locations_of(map, opps)),
        steps,
    )
    &&& map.placed(a.name@) && res.map.neighbor_names(last).len() == 0 ==> res.actions@.len() == log.len()
        + if steps.len() > 0 { 1int } else { 0int }
    &&& map.placed(a.name@) && res.map.neighbor_names(last).len() > 0 ==> exists|id: Seq<char>|
        {
            let blows = attack_log(opps, id, a, round);
            let base = log.len() + if steps.len() > 0 { 1int } else { 0int };
            &&& res.map.neighbor_names(last).contains(id)
            &&& #[trigger] strike_all(opps, id, a.dmg) == res.opponents@
            &&& res.actions@.len() == base + blows.len()
            &&& forall|k: int| 0 <= k < blows.len() ==> res.actions@[base + k] == blows[k]
        }
}

/// An attack log holds the blow on each opponent named `id`.
pub proof fn lemma_attack_log_has(opps: Seq<Combatant>, id: Seq<char>, active: Combatant, round: u32, i: int)
    requires
        0 <= i < opps.len(),
        opps[i].name@ == id,
    ensures
        exists|t: int|
            0 <= t < attack_log(opps, id, active, round).len() && #[trigger] attack_log(opps, id, active, round)[t]
                == BattleAction::Attack(
                round,
                BattleAttackAction { assailant: active, victim: struck(opps[i], active.dmg), damage: active.dmg },
            ),
    decreases opps.len(),
{
    let rest = attack_log(opps.drop_last(), id, active, round);
    if i == opps.len() - 1 {
        assert(opps.last() == opps[i]);
        assert(attack_log(opps, id, active, round)[rest.len() as int] == BattleAction::Attack(
            round,
            BattleAttackAction { assailant: active, victim: struck(opps[i], active.dmg), damage: active.dmg },
        ));
    } else {
        assert(opps.drop_last()[i] == opps[i]);
        lemma_attack_log_has(opps.drop_last(), id, active, round, i);
        let t = choose|t: int|
            0 <= t < rest.len() && #[trigger] rest[t] == BattleAction::Attack(
                round,
                BattleAttackAction { assailant: active, victim: struck(opps[i], active.dmg), damage: active.dmg },
            );
        assert(attack_log(opps, id, active, round)[t] == rest[t]);
    }
}

/// Opponents with distinct names take at most one blow per turn.
pub proof fn lemma_attack_log_short(opps: Seq<Combatant>, id: Seq<char>, active: Combatant, round: u32)
    requires
        forall|i: int, j: int| 0 <= i < opps.len() && 0 <= j < opps.len() && opps[i].name@ == opps[j].name@ ==> i == j,
    ensures
        attack_log(opps, id, active, round).len() <= 1,
        (forall|i: int| 0 <= i < opps.len() ==> opps[i].name@ != id) ==> attack_log(opps, id, active, round).len() == 0,
    decreases opps.len(),
{
    if opps.len() > 0 {
        let t = opps.drop_last();
        assert forall|i: int, j: int| 0 <= i < t.len() && 0 <= j < t.len() && t[i].name@ == t[j].name@ implies i == j by {
            assert(t[i] == opps[i] && t[j] == opps[j]);
        }
        lemma_attack_log_short(t, id, active, round);
        if opps.last().name@ == id {
            assert forall|i: int| 0 <= i < t.len() implies t[i].name@ != id by {
                assert(t[i] == opps[i]);
                assert(opps[opps.len() - 1] == opps.last());
            }
        } else {
            assert forall|i: int| 0 <= i < t.len() && (forall|i: int| 0 <= i < opps.len() ==> opps[i].name@ != id) implies t[i].name@ != id by {
                assert(t[i] == opps[i]);
            }
        }
    }
}

/// What a turn adds to the log is about the actor alone: at most one walk,
/// logged first, and at most one blow.
pub proof fn lemma_turn_appends(
    a: Combatant,
    opps: Seq<Combatant>,
    map: BattleMap,
    log: Seq<BattleAction>,
    round: u32,
    limit: usize,
    res: CombatantTurnResult,
)
    requires
        turn_ok(a, opps, map, log, round, limit, res),
        forall|i: int, j: int| 0 <= i < opps.len() && 0 <= j < opps.len() && opps[i].name@ == opps[j].name@ ==> i == j,
    ensures
        forall|k: int| log.len() <= k < res.actions@.len() ==> actor_of(#[trigger] res.actions@[k]) == a.name@,
        forall|k: int| log.len() <= k < res.actions@.len() && (#[trigger] res.actions@[k]) is Move ==> k == log.len(),
        forall|k1: int, k2: int|
            log.len() <= k1 < res.actions@.len() && log.len() <= k2 < res.actions@.len() && (#[trigger] res.actions@[k1]) is Attack
                && (#[trigger] res.actions@[k2]) is Attack ==> k1 == k2,
{
    let steps = turn_steps(a, opps, map, limit);
    let last = turn_last(a, opps, map, limit);
    let m: int = if steps.len() > 0 { 1 } else { 0 };
    if map.placed(a.name@) {
        if steps.len() > 0 {
            assert(is_move_entry(res.actions@[log.len() as int], round, a.name@, turn_start(a, map), closest_in(turn_start(a, map), locations_of(map, opps)), steps));
        }
        if res.map.neighbor_names(last).len() > 0 {
            let id = choose|id: Seq<char>|
                {
                    let blows = attack_log(opps, id, a, round);
                    let base = log.len() + if steps.len() > 0 { 1int } else { 0int };
                    &&& res.map.neighbor_names(last).contains(id)
                    &&& #[trigger] strike_all(opps, id, a.dmg) == res.opponents@
                    &&& res.actions@.len() == base + blows.len()
                    &&& forall|k: int| 0 <= k < blows.len() ==> res.actions@[base + k] == blows[k]
                };
            let blows = attack_log(opps, id, a, round);
            lemma_attack_log_short(opps, id, a, round);
            lemma_attack_log_blows(opps, id, a, round);
            assert forall|k: int| log.len() + m <= k < res.actions@.len() implies (#[trigger] res.actions@[k]) is Attack
                && actor_of(res.actions@[k]) == a.name@ && k == log.len() + m by {
                assert(res.actions@[k] == blows[k - log.len() - m]);
            }
        }
    }
}

/// Every entry of an attack log is a blow.
pub proof fn lemma_attack_log_blows(opps: Seq<Combatant>, id: Seq<char>, active: Combatant, round: u32)
    ensures
        forall|k: int|
            0 <= k < attack_log(opps, id, active, round).len() ==> #[trigger] attack_log(opps, id, active, round)[k] is Attack
                && round_of(attack_log(opps, id, active, round)[k]) == round
                && actor_of(attack_log(opps, id, active, round)[k]) == active.name@,
    decreases opps.len(),
{
    if opps.len() > 0 {
        lemma_attack_log_blows(opps.drop_last(), id, active, round);
    }
}

/// `x` logs a walk of `name` in round `round` from `start` toward `goal`
/// through `steps`.
pub open spec fn is_move_entry(
    x: BattleAction,
    round: u32,
    name: Seq<char>,
    start: Point,
    goal: Point,
    steps: Seq<Point>,
) -> bool {
    match x {
        BattleAction::Move(r, n, m) => r == round && n@ == name && m.start == start && m.goal == goal
            && m.steps@ == steps && m.last_position == steps.last(),
        _ => false,
    }
}

/// Relies on rand's `SliceRandom::shuffle` with `thread_rng()`: it only
/// swaps elements, so the result is a reordering of the input.
#[verifier::external_body]
fn shuffle_names(v: &mut Vec<String>)
    ensures
        final(v)@.to_multiset() == old(v)@.to_multiset(),
{
    v.shuffle(&mut rand::thread_rng());
}

/// The state a turn starts from.
#[derive(Debug)]
pub struct CombatantTurn {
    active_combatant: Combatant,
    opponents: Vec<Combatant>,
    map: BattleMap,
    actions: Vec<BattleAction>,
    round_number: u32,
    step_limit: usize,
}

/// The state a turn leaves behind.
#[derive(Debug)]
pub struct CombatantTurnResult {
    pub active_combatant: Combatant,
    pub opponents: Vec<Combatant>,
    pub map: BattleMap,
    pub actions: Vec<BattleAction>,
    pub round_number: u32,
}

/// A copy of a list of combatants.
pub fn copy_combatants(v: &Vec<Combatant>) -> (r: Vec<Combatant>)
    ensures
        r@ == v@,
{
    let mut out: Vec<Combatant> = Vec::new();
    let mut i: usize = 0;
    while i < v.len()
        invariant
            i <= v@.len(),
            out@ =~= v@.take(i as int),
        decreases v@.len() - i,
    {
        out.push(v[i].clone());
        i = i + 1;
    }
    assert(v@.take(i as int) =~= v@);
    out
}

impl CombatantTurn {
    pub closed spec fn active_spec(&self) -> Combatant {
        self.active_combatant
    }

    pub closed spec fn opponents_spec(&self) -> Seq<Combatant> {
        self.opponents@
    }

    pub closed spec fn map_spec(&self) -> BattleMap {
        self.map
    }

    pub closed spec fn actions_spec(&self) -> Seq<BattleAction> {
        self.actions@
    }

    pub closed spec fn round_spec(&self) -> u32 {
        self.round_number
    }

    pub closed spec fn step_limit_spec(&self) -> usize {
        self.step_limit
    }

    pub fn new(
        active: Combatant,
        opponents: Vec<Combatant>,
        map: BattleMap,
        actions: Vec<BattleAction>,
        round_number: u32,
    ) -> (r: CombatantTurn)
        ensures
            r.active_spec() == active,
            r.opponents_spec() == opponents@,
            r.map_spec() == map,
            r.actions_spec() == actions@,
            r.round_spec() == round_number,
            r.step_limit_spec() == MAX_COMBATANT_MOVE,
    {
        CombatantTurn { active_combatant: active, opponents, map, actions, round_number, step_limit: MAX_COMBATANT_MOVE }
    }

    /// The same turn, allowing `step_limit` cells of movement.
    pub fn with_step_limit(self, step_limit: usize) -> (r: CombatantTurn)
        ensures
            r.active_spec() == self.active_spec(),
            r.opponents_spec() == self.opponents_spec(),
            r.map_spec() == self.map_spec(),
            r.actions_spec() == self.actions_spec(),
            r.round_spec() == self.round_spec(),
            r.step_limit_spec() == step_limit,
    {
        CombatantTurn { step_limit, ..self }
    }

    /// Where the opponents stand, skipping those without a place.
    fn opponents_locations(&self) -> (r: Vec<Point>)
        ensures
            r@ == locations_of(self.map, self.opponents@),
    {
        let mut out: Vec<Point> = Vec::new();
        let mut i: usize = 0;
        while i < self.opponents.len()
            invariant
                i <= self.opponents@.len(),
                out@ == locations_of(self.map, self.opponents@.take(i as int)),
            decreases self.opponents@.len() - i,
        {
            assert(self.opponents@.take(i as int + 1).drop_last() =~= self.opponents@.take(i as int));
            match self.map.position_for(&self.opponents[i].name) {
                Some(p) => out.push(p),
                None => {},
            }
            i = i + 1;
        }
        assert(self.opponents@.take(i as int) =~= self.opponents@);
        out
    }

    /// Strikes every opponent named `opponent_id` and logs each blow.
    fn attack(&mut self, opponent_id: String)
        ensures
            final(self).active_combatant == old(self).active_combatant,
            final(self).map == old(self).map,
            final(self).round_number == old(self).round_number,
            final(self).opponents@ == strike_all(
                old(self).opponents@,
                opponent_id@,
                old(self).active_combatant.dmg,
            ),
            final(self).actions@ == old(self).actions@ + attack_log(
                old(self).opponents@,
                opponent_id@,
                old(self).active_combatant,
                old(self).round_number,
            ),
    {
        let ghost opps = self.opponents@;
        let ghost log = self.actions@;
        let ghost active = self.active_combatant;
        let ghost round = self.round_number;
        let ghost map = self.map;
        let mut updated: Vec<Combatant> = Vec::new();
        let mut i: usize = 0;
        while i < self.opponents.len()
            invariant
                self.opponents@ == opps,
                self.active_combatant == active,
                self.round_number == round,
                self.map == map,
                i <= opps.len(),
                updated@ =~= strike_all(opps.take(i as int), opponent_id@, active.dmg),
                self.actions@ == log + attack_log(opps.take(i as int), opponent_id@, active, round),
            decreases opps.len() - i,
        {
            assert(opps.take(i as int + 1).drop_last() =~= opps.take(i as int));
            let mut opponent = self.opponents[i].clone();
            if opponent.name == opponent_id {
                opponent.apply_damage(self.active_combatant.dmg);
                let blow = BattleAttackAction {
                    assailant: self.active_combatant.clone(),
                    victim: opponent.clone(),
                    damage: self.active_combatant.dmg,
                };
                self.actions.push(BattleAction::Attack(self.round_number, blow));
                assert(self.actions@ =~= log + attack_log(opps.take(i as int + 1), opponent_id@, active, round));
            }
            updated.push(opponent);
            i = i + 1;
        }
        assert(opps.take(i as int) =~= opps);
        self.opponents = updated;
    }

    /// A snapshot of the turn's state.
    fn snapshot(&self) -> (r: CombatantTurnResult)
        ensures
            r.active_combatant == self.active_combatant,
            r.opponents@ == self.opponents@,
            r.map.entries() == self.map.entries(),
            r.map.width_spec() == self.map.width_spec(),
            r.map.height_spec() == self.map.height_spec(),
            same_log(r.actions@, self.actions@),
            r.round_number == self.round_number,
    {
        CombatantTurnResult {
            active_combatant: self.active_combatant.clone(),
            opponents: copy_combatants(&self.opponents),
            map: self.map.clone(),
            actions: copy_log(&self.actions),
            round_number: self.round_number,
        }
    }

    /// Takes the turn: with no opponents it fails; without a place on the
    /// map it does nothing. Otherwise it walks toward the nearest opponent
    /// (at most its step limit in cells, logged and carried out on the
    /// map) and then strikes one neighbour picked at random, if any. The
    /// walk cannot end on an occupied cell or off the map when everyone on
    /// the map is the actor or one of its opponents and stands within the
    /// bounds, so the turn then succeeds.
    pub fn execute(&mut self) -> (r: Result<CombatantTurnResult, Error>)
        requires
            old(self).map_spec().wf(),
        ensures
            ({
                let a = old(self).active_spec();
                let opps = old(self).opponents_spec();
                let map = old(self).map_spec();
                let limit = old(self).step_limit_spec();
                &&& opps.len() == 0 ==> r == Err::<CombatantTurnResult, Error>(Error::NoOpponentsPresent)
                &&& opps.len() > 0 && r is Err ==> map.placed(a.name@) && turn_steps(a, opps, map, limit).len() > 0
                    && r == Err::<CombatantTurnResult, Error>(
                    move_error(map, turn_start(a, map), turn_last(a, opps, map, limit)),
                )
                &&& opps.len() > 0 && map.all_within() && occupants_known(map, a, opps) ==> r is Ok
                &&& opps.len() > 0 && !map.placed(a.name@) ==> (r matches Ok(res) && res.opponents@ == opps
                    && res.map.entries() == map.entries() && same_log(res.actions@, old(self).actions_spec()))
                &&& r matches Ok(res) ==> turn_ok(
                    a,
                    opps,
                    map,
                    old(self).actions_spec(),
                    old(self).round_spec(),
                    limit,
                    res,
                )
            }),
    {
        if self.opponents.len() == 0 {
            return Err(Error::NoOpponentsPresent);
        }
        let ghost a = self.active_combatant;
        let ghost opps = self.opponents@;
        let ghost map0 = self.map;
        let ghost log0 = self.actions@;
        match self.map.position_for(&self.active_combatant.name) {
            None => Ok(self.snapshot()),
            Some(pos) => {
                let ghost e0 = self.map.entries();
                let ghost k = find_id(e0, a.name@);
                proof {
                    lemma_find_id(e0, a.name@);
                    lemma_find_point_unique(e0, pos, k);
                }
                let engine = MovementEngine::new(pos, self.opponents_locations(), Some(self.step_limit));
                let movement = engine.do_move();
                proof {
                    let goal = movement.goal;
                    let steps = movement.steps@;
                    if steps.len() > 0 && map0.all_within() && occupants_known(map0, a, opps) {
                        let last = movement.last_position;
                        let locs = locations_of(map0, opps);
                        lemma_walk_in_box(pos, goal, self.step_limit as nat);
                        assert(steps == walk(pos, goal, self.step_limit as nat));
                        assert(steps[steps.len() - 1] == last);
                        assert(in_box(last, pos, goal) && last != goal && last != pos);
                        assert(within(pos, map0.bounds()));
                        if locs.len() > 0 {
                            lemma_closest_is_nearest(pos, locs);
                            let i = choose|i: int| 0 <= i < locs.len() && locs[i] == goal;
                            lemma_locations_within(map0, opps, i);
                        }
                        assert(within(goal, map0.bounds()));
                        if map0.occupied(last) {
                            lemma_find_point(e0, last);
                            let q = find_point(e0, last);
                            let x = e0[q].1;
                            if x == a.name@ {
                                lemma_find_id_unique(e0, x, q);
                            }
                            let j = choose|j: int| 0 <= j < opps.len() && opps[j].name@ == x;
                            lemma_find_id(e0, x);
                            lemma_find_id_unique(e0, x, q);
                            lemma_location_listed(map0, opps, j);
                            let i = choose|i: int| 0 <= i < locs.len() && locs[i] == last;
                            lemma_closest_is_nearest(pos, locs);
                            assert(dist_sq(goal, pos) <= dist_sq(locs[i], pos));
                            lemma_box_nearer(last, pos, goal);
                        }
                    }
                }
                if movement.has_moved() {
                    self.actions.push(
                        BattleAction::Move(self.round_number, self.active_combatant.name.clone(), movement.clone()),
                    );
                    match self.map.move_to(pos, movement.last_position) {
                        Ok(_) => {},
                        Err(e) => {
                            proof {
                                lemma_walk_in_box(pos, movement.goal, self.step_limit as nat);
                                assert(movement.steps@[movement.steps@.len() - 1] == movement.last_position);
                            }
                            return Err(e);
                        },
                    }
                    proof {
                        let e1 = self.map.entries();
                        if pos != movement.last_position {
                            assert(e1[k].1 == a.name@);
                            lemma_find_id_unique(e1, a.name@, k);
                            assert forall|x: Seq<char>| #[trigger] self.map.placed(x) == map0.placed(x) by {
                                lemma_update_point_keeps_names(e0, k, movement.last_position, x);
                            }
                            if map0.all_within() {
                                assert forall|q: int| 0 <= q < e1.len() implies within(#[trigger] e1[q].0, self.map.bounds()) by {
                                    if q != k {
                                        assert(e1[q] == e0[q]);
                                    }
                                }
                            }
                            assert forall|x: Seq<char>| x != a.name@ implies #[trigger] self.map.position_of(x)
                                == map0.position_of(x) by {
                                lemma_update_point_keeps_names(e0, k, movement.last_position, x);
                                lemma_find_id(e0, x);
                            }
                        }
                    }
                }
                assert(forall|x: Seq<char>| #[trigger] self.map.placed(x) == map0.placed(x));
                assert(forall|x: Seq<char>| x != a.name@ ==> #[trigger] self.map.position_of(x) == map0.position_of(x));
                let ghost map1 = self.map;
                let ghost log1 = self.actions@;
                let mut targets = self.map.get_occupied_neighbors(movement.last_position);
                let ghost found = targets@;
                shuffle_names(&mut targets);
                if targets.len() > 0 {
                    let id = targets[0].clone();
                    proof {
                        broadcast use vstd::seq_lib::group_to_multiset_ensures;

                        assert(targets@.contains(targets@[0]));
                        assert(found.to_multiset().count(id) > 0);
                        assert(found.contains(id));
                        let j = choose|j: int| 0 <= j < found.len() && found[j] == id;
                        assert(names_of(found)[j] == id@);
                        assert(map1.neighbor_names(movement.last_position).contains(id@));
                    }
                    self.attack(id);
                    let ghost blows = attack_log(opps, id@, a, self.round_number);
                    assert(self.actions@ == log1 + blows);
                    assert(self.actions@.len() >= log1.len());
                    assert forall|i: int| 0 <= i < log1.len() implies self.actions@[i] == log1[i] by {
                        assert(self.actions@[i] == (log1 + blows)[i]);
                    }
                    let res = self.snapshot();
                    proof {
                        assert forall|i: int| 0 <= i < log0.len() implies same_action(#[trigger] res.actions@[i], log0[i]) by {
                            assert(same_action(res.actions@[i], self.actions@[i]));
                        }
                        let base = log1.len() as int;
                        lemma_attack_log_blows(opps, id@, a, self.round_number);
                        assert forall|k: int| 0 <= k < blows.len() implies res.actions@[base + k] == blows[k] by {
                            assert(self.actions@[base + k] == blows[k]);
                            assert(same_action(res.actions@[base + k], self.actions@[base + k]));
                        }
                        if movement.steps@.len() > 0 {
                            assert(same_action(res.actions@[log0.len() as int], self.actions@[log0.len() as int]));
                        }
                        assert(strike_all(opps, id@, a.dmg) == res.opponents@);
                        assert forall|k: int| log0.len() <= k < res.actions@.len() implies round_of(
                            #[trigger] res.actions@[k],
                        ) == self.round_number by {
                            assert(same_action(res.actions@[k], self.actions@[k]));
                            if k >= base {
                                assert(self.actions@[k] == blows[k - base]);
                            }
                        }
                        assert(res.map.entries() == self.map.entries());
                        assert(map0.all_within() ==> self.map.all_within());
                        assert forall|x: Seq<char>| #[trigger] res.map.placed(x) == map0.placed(x) by {
                            assert(self.map.placed(x) == map0.placed(x));
                        }
                        assert forall|x: Seq<char>| x != a.name@ implies #[trigger] res.map.position_of(x) == map0.position_of(x) by {
                            assert(self.map.position_of(x) == map0.position_of(x));
                        }
                    }
                    return Ok(res);
                } else {
                    proof {
                        broadcast use vstd::seq_lib::group_to_multiset_ensures;

                        assert(found.len() == found.to_multiset().len());
                        assert(names_of(found).len() == 0);
                    }
                }
                let res = self.snapshot();
                proof {
                    assert forall|i: int| 0 <= i < log0.len() implies same_action(#[trigger] res.actions@[i], log0[i]) by {
                        assert(same_action(res.actions@[i], self.actions@[i]));
                    }
                    if movement.steps@.len() > 0 {
                        assert(same_action(res.actions@[log0.len() as int], self.actions@[log0.len() as int]));
                    }
                    assert forall|k: int| log0.len() <= k < res.actions@.len() implies round_of(
                        #[trigger] res.actions@[k],
                    ) == self.round_number by {
                        assert(same_action(res.actions@[k], self.actions@[k]));
                    }
                    assert forall|x: Seq<char>| #[trigger] res.map.placed(x) == map0.placed(x) by {
                        assert(self.map.placed(x) == map0.placed(x));
                    }
                    assert forall|x: Seq<char>| x != a.name@ implies #[trigger] res.map.position_of(x) == map0.position_of(x) by {
                        assert(self.map.position_of(x) == map0.position_of(x));
                    }
                }
                Ok(res)
            },
        }
    }
}

} // verus!
