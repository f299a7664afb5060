//! Rounds and the battle that runs them.

use crate::actions::{BattleAction, BattleAttackAction, actor_of, copy_log, round_of, same_action, same_log};
use crate::battle_map::{
    BattleMap, find_id, find_point, lemma_find_id, lemma_free_cell, lemma_remove_names, lemma_remove_position,
};
use crate::point::{Point, within};
use crate::combatant::Combatant;
use crate::err::Error;
use crate::result::{BattleResult, winner_of};
use crate::turn::{
    MAX_COMBATANT_MOVE, CombatantTurn, CombatantTurnResult, attack_log, copy_combatants, lemma_attack_log_has,
    lemma_turn_appends, occupants_known, strike_all, struck, turn_last, turn_ok, turn_steps,
};
use vstd::prelude::*;

verus! {

/// The most rounds a battle runs before it is called off.
pub const MAX_ROUND_NUM: u32 = 1000;

/// The input of a battle: the battlefield's size and who fights.
#[derive(Debug)]
pub struct BattlefieldData {
    pub battlefield_height: u8,
    pub battlefield_width: u8,
    pub combatants: Vec<Combatant>,
}

/// Those of `s` still alive, in order.
pub open spec fn alive_of(s: Seq<Combatant>) -> Seq<Combatant>
    decreases s.len(),
{
    if s.len() == 0 {
        Seq::empty()
    } else if s.last().hp != 0 {
        alive_of(s.drop_last()).push(s.last())
    } else {
        alive_of(s.drop_last())
    }
}

/// Those of `s` that are dead, in order.
pub open spec fn dead_of(s: Seq<Combatant>) -> Seq<Combatant>
    decreases s.len(),
{
    if s.len() == 0 {
        Seq::empty()
    } else if s.last().hp == 0 {
        dead_of(s.drop_last()).push(s.last())
    } else {
        dead_of(s.drop_last())
    }
}

/// Those of `s` not named `name`, in order.
pub open spec fn others_of(s: Seq<Combatant>, name: Seq<char>) -> Seq<Combatant>
    decreases s.len(),
{
    if s.len() == 0 {
        Seq::empty()
    } else if s.last().name@ != name {
        others_of(s.drop_last(), name).push(s.last())
    } else {
        others_of(s.drop_last(), name)
    }
}

/// The first index of `s` named `name`, or -1.
pub open spec fn first_named(s: Seq<Combatant>, name: Seq<char>) -> int
    decreases s.len(),
{
    if s.len() == 0 {
        -1
    } else if first_named(s.drop_last(), name) >= 0 {
        first_named(s.drop_last(), name)
    } else if s.last().name@ == name {
        s.len() - 1
    } else {
        -1
    }
}

/// No two combatants of `s` share a name.
pub open spec fn names_unique(s: Seq<Combatant>) -> bool {
    forall|i: int, j: int| 0 <= i < s.len() && 0 <= j < s.len() && i != j ==> s[i].name@ != s[j].name@
}

pub proof fn lemma_first_named(s: Seq<Combatant>, name: Seq<char>)
    ensures
        -1 <= first_named(s, name) < s.len(),
        first_named(s, name) >= 0 ==> s[first_named(s, name)].name@ == name,
        first_named(s, name) >= 0 ==> forall|k: int| 0 <= k < first_named(s, name) ==> s[k].name@ != name,
        first_named(s, name) == -1 ==> forall|k: int| 0 <= k < s.len() ==> s[k].name@ != name,
    decreases s.len(),
{
    if s.len() > 0 {
        lemma_first_named(s.drop_last(), name);
        assert forall|k: int| 0 <= k < s.len() - 1 implies s[k] == s.drop_last()[k] by {}
    }
}

/// How many combatants of `s` are named `m`.
pub open spec fn name_count(s: Seq<Combatant>, m: Seq<char>) -> nat
    decreases s.len(),
{
    if s.len() == 0 {
        0
    } else {
        name_count(s.drop_last(), m) + if s.last().name@ == m {
            1nat
        } else {
            0nat
        }
    }
}

/// No name occurs twice in `s`.
pub open spec fn roster_unique(s: Seq<Combatant>) -> bool {
    forall|m: Seq<char>| #[trigger] name_count(s, m) <= 1
}

/// `a` and `b` hold the same names, as often each.
pub open spec fn same_roster(a: Seq<Combatant>, b: Seq<Combatant>) -> bool {
    a.len() == b.len() && forall|m: Seq<char>| #[trigger] name_count(a, m) == name_count(b, m)
}

pub proof fn lemma_name_count_zero(s: Seq<Combatant>, m: Seq<char>)
    ensures
        name_count(s, m) == 0 <==> forall|k: int| 0 <= k < s.len() ==> s[k].name@ != m,
    decreases s.len(),
{
    if s.len() > 0 {
        lemma_name_count_zero(s.drop_last(), m);
        assert forall|k: int| 0 <= k < s.len() - 1 implies s[k] == s.drop_last()[k] by {}
        if name_count(s, m) != 0 && forall|k: int| 0 <= k < s.len() ==> s[k].name@ != m {
            assert(s[s.len() - 1] == s.last());
        }
    }
}

/// Unique names in the sense of indices are unique names in the sense of
/// counts.
pub proof fn lemma_unique_roster(s: Seq<Combatant>)
    requires
        names_unique(s),
    ensures
        roster_unique(s),
    decreases s.len(),
{
    if s.len() > 0 {
        let t = s.drop_last();
        assert forall|i: int, j: int| 0 <= i < t.len() && 0 <= j < t.len() && i != j implies t[i].name@ != t[j].name@ by {
            assert(t[i] == s[i] && t[j] == s[j]);
        }
        lemma_unique_roster(t);
        assert forall|m: Seq<char>| #[trigger] name_count(s, m) <= 1 by {
            assert(name_count(t, m) <= 1);
            assert(name_count(s, m) == name_count(t, m) + if s.last().name@ == m { 1nat } else { 0nat });
            if s.last().name@ == m {
                lemma_name_count_zero(t, m);
                assert forall|k: int| 0 <= k < t.len() implies t[k].name@ != m by {
                    assert(t[k] == s[k]);
                    assert(s[s.len() - 1] == s.last());
                }
            }
        }
    }
}

/// A name that `first_named` finds occurs at least once.
pub proof fn lemma_first_named_counted(s: Seq<Combatant>, m: Seq<char>)
    requires
        first_named(s, m) >= 0,
    ensures
        name_count(s, m) >= 1,
{
    lemma_first_named(s, m);
    lemma_name_count_zero(s, m);
}

/// Leaving out every combatant named `n` drops exactly those.
pub proof fn lemma_others_count(s: Seq<Combatant>, n: Seq<char>)
    ensures
        others_of(s, n).len() == s.len() - name_count(s, n),
        forall|m: Seq<char>|
            #[trigger] name_count(others_of(s, n), m) == if m == n {
                0
            } else {
                name_count(s, m)
            },
    decreases s.len(),
{
    if s.len() > 0 {
        lemma_others_count(s.drop_last(), n);
        let o = others_of(s.drop_last(), n);
        lemma_push_count(o, s.last());
        assert forall|m: Seq<char>|
            #[trigger] name_count(others_of(s, n), m) == if m == n {
                0
            } else {
                name_count(s, m)
            } by {
            assert(name_count(s, m) == name_count(s.drop_last(), m) + if s.last().name@ == m { 1nat } else { 0nat });
            assert(name_count(o, m) == if m == n { 0 } else { name_count(s.drop_last(), m) });
        }
    }
}

/// Striking combatants changes no names.
pub proof fn lemma_strike_count(s: Seq<Combatant>, id: Seq<char>, dmg: u16)
    ensures
        strike_all(s, id, dmg).len() == s.len(),
        forall|m: Seq<char>| #[trigger] name_count(strike_all(s, id, dmg), m) == name_count(s, m),
    decreases s.len(),
{
    if s.len() > 0 {
        lemma_strike_count(s.drop_last(), id, dmg);
        let t = strike_all(s, id, dmg);
        assert(t.drop_last() =~= strike_all(s.drop_last(), id, dmg));
        assert(t.last().name@ == s.last().name@);
        assert forall|m: Seq<char>| #[trigger] name_count(strike_all(s, id, dmg), m) == name_count(s, m) by {
            assert(name_count(t, m) == name_count(t.drop_last(), m) + if t.last().name@ == m { 1nat } else { 0nat });
            assert(name_count(s, m) == name_count(s.drop_last(), m) + if s.last().name@ == m { 1nat } else { 0nat });
            assert(name_count(strike_all(s.drop_last(), id, dmg), m) == name_count(s.drop_last(), m));
        }
    }
}

/// Adding one combatant counts its name once more.
pub proof fn lemma_push_count(s: Seq<Combatant>, c: Combatant)
    ensures
        forall|m: Seq<char>|
            #[trigger] name_count(s.push(c), m) == name_count(s, m) + if c.name@ == m {
                1nat
            } else {
                0nat
            },
{
    assert(s.push(c).drop_last() =~= s);
}

/// Every name placed on `map` belongs to some combatant of `s`.
pub open spec fn names_known(map: BattleMap, s: Seq<Combatant>) -> bool {
    forall|x: Seq<char>| #[trigger] map.placed(x) ==> name_count(s, x) >= 1
}

/// A combatant not named `n` is kept by `others_of`.
pub proof fn lemma_others_keeps(s: Seq<Combatant>, n: Seq<char>, j: int)
    requires
        0 <= j < s.len(),
        s[j].name@ != n,
    ensures
        others_of(s, n).contains(s[j]),
    decreases s.len(),
{
    let rest = others_of(s.drop_last(), n);
    if j == s.len() - 1 {
        assert(others_of(s, n) == rest.push(s.last()));
        assert(others_of(s, n)[rest.len() as int] == s[j]);
    } else {
        assert(s.drop_last()[j] == s[j]);
        lemma_others_keeps(s.drop_last(), n, j);
        let i = choose|i: int| 0 <= i < rest.len() && rest[i] == s[j];
        if s.last().name@ != n {
            assert(others_of(s, n)[i] == s[j]);
        }
    }
}

/// There are no more living combatants than combatants.
pub proof fn lemma_alive_len(s: Seq<Combatant>)
    ensures
        alive_of(s).len() <= s.len(),
    decreases s.len(),
{
    if s.len() > 0 {
        lemma_alive_len(s.drop_last());
    }
}

/// No combatant of `now` has more hit points, or other damage, than the
/// combatant of the same name in `start`.
pub open spec fn no_gain(now: Seq<Combatant>, start: Seq<Combatant>) -> bool {
    forall|i: int, j: int|
        #![trigger now[i], start[j]]
        0 <= i < now.len() && 0 <= j < start.len() && now[i].name@ == start[j].name@ ==> now[i].hp <= start[j].hp
            && now[i].dmg == start[j].dmg
}

/// Everything `others_of` keeps comes from `s`.
pub proof fn lemma_others_from(s: Seq<Combatant>, n: Seq<char>)
    ensures
        forall|i: int| 0 <= i < others_of(s, n).len() ==> s.contains(#[trigger] others_of(s, n)[i]),
    decreases s.len(),
{
    if s.len() > 0 {
        lemma_others_from(s.drop_last(), n);
        let rest = others_of(s.drop_last(), n);
        assert forall|i: int| 0 <= i < others_of(s, n).len() implies s.contains(#[trigger] others_of(s, n)[i]) by {
            if i < rest.len() {
                assert(others_of(s, n)[i] == rest[i]);
                let k = choose|k: int| 0 <= k < s.drop_last().len() && s.drop_last()[k] == rest[i];
                assert(s[k] == rest[i]);
            } else {
                assert(s[s.len() - 1] == others_of(s, n)[i]);
            }
        }
    }
}

/// Two combatants sharing a name count twice.
pub proof fn lemma_two_named(s: Seq<Combatant>, i: int, j: int)
    requires
        0 <= i < s.len(),
        0 <= j < s.len(),
        i != j,
        s[i].name@ == s[j].name@,
    ensures
        name_count(s, s[i].name@) >= 2,
    decreases s.len(),
{
    let m = s[i].name@;
    let t = s.drop_last();
    if i == s.len() - 1 || j == s.len() - 1 {
        let k = if i == s.len() - 1 { j } else { i };
        assert(t[k] == s[k]);
        lemma_name_count_zero(t, m);
    } else {
        assert(t[i] == s[i] && t[j] == s[j]);
        lemma_two_named(t, i, j);
    }
}

/// `x` is a blow whose victim was left as `c` is.
pub open spec fn blow_for(x: BattleAction, c: Combatant) -> bool {
    match x {
        BattleAction::Attack(_, b) => b.victim.name@ == c.name@ && b.victim.hp == c.hp,
        _ => false,
    }
}

/// Every combatant of `now` with fewer hit points than the one of the same
/// name in `start` has a blow in `log` that left it as it is.
pub open spec fn drops_logged(now: Seq<Combatant>, start: Seq<Combatant>, log: Seq<BattleAction>) -> bool {
    forall|i: int, j: int|
        #![trigger now[i], start[j]]
        0 <= i < now.len() && 0 <= j < start.len() && now[i].name@ == start[j].name@ && now[i].hp < start[j].hp
            ==> exists|k: int| 0 <= k < log.len() && #[trigger] blow_for(log[k], now[i])
}

/// A turn leaves a blow in the log for every hit point it takes.
pub proof fn lemma_turn_logs_drops(
    a: Combatant,
    opps: Seq<Combatant>,
    map: BattleMap,
    log: Seq<BattleAction>,
    round: u32,
    limit: usize,
    res: CombatantTurnResult,
    cs: Seq<Combatant>,
    s0: Seq<Combatant>,
)
    requires
        turn_ok(a, opps, map, log, round, limit, res),
        drops_logged(cs, s0, log),
        cs.contains(a),
        forall|i: int| 0 <= i < opps.len() ==> cs.contains(#[trigger] opps[i]),
    ensures
        drops_logged(res.opponents@.push(res.active_combatant), s0, res.actions@),
{
    let now = res.opponents@.push(res.active_combatant);
    let last = turn_last(a, opps, map, limit);
    assert forall|i: int, j: int|
        #![trigger now[i], s0[j]]
        0 <= i < now.len() && 0 <= j < s0.len() && now[i].name@ == s0[j].name@ && now[i].hp < s0[j].hp implies exists|k: int|
            0 <= k < res.actions@.len() && #[trigger] blow_for(res.actions@[k], now[i]) by {
        if i < res.opponents@.len() && res.opponents@ != opps {
            let id = choose|id: Seq<char>|
                {
                    let blows = attack_log(opps, id, a, round);
                    let base = log.len() + if turn_steps(a, opps, map, limit).len() > 0 { 1int } else { 0int };
                    &&& res.map.neighbor_names(last).contains(id)
                    &&& #[trigger] strike_all(opps, id, a.dmg) == res.opponents@
                    &&& res.actions@.len() == base + blows.len()
                    &&& forall|k: int| 0 <= k < blows.len() ==> res.actions@[base + k] == blows[k]
                };
            let blows = attack_log(opps, id, a, round);
            let base = log.len() + if turn_steps(a, opps, map, limit).len() > 0 { 1int } else { 0int };
            assert(res.opponents@[i] == strike_all(opps, id, a.dmg)[i]);
            if opps[i].name@ == id {
                lemma_attack_log_has(opps, id, a, round, i);
                let t = choose|t: int|
                    0 <= t < blows.len() && #[trigger] blows[t] == BattleAction::Attack(
                        round,
                        BattleAttackAction { assailant: a, victim: struck(opps[i], a.dmg), damage: a.dmg },
                    );
                assert(res.actions@[base + t] == blows[t]);
                assert(blow_for(res.actions@[base + t], now[i]));
            } else {
                assert(now[i] == opps[i]);
                lemma_kept_logged(now[i], cs, s0, j, log, res.actions@);
            }
        } else {
            if i < res.opponents@.len() {
                assert(now[i] == opps[i]);
            } else {
                assert(now[i] == a);
            }
            lemma_kept_logged(now[i], cs, s0, j, log, res.actions@);
        }
    }
}

/// A combatant that a turn left alone keeps the blow logged for it.
pub proof fn lemma_kept_logged(
    c: Combatant,
    cs: Seq<Combatant>,
    s0: Seq<Combatant>,
    j: int,
    log: Seq<BattleAction>,
    after: Seq<BattleAction>,
)
    requires
        cs.contains(c),
        drops_logged(cs, s0, log),
        0 <= j < s0.len(),
        c.name@ == s0[j].name@,
        c.hp < s0[j].hp,
        after.len() >= log.len(),
        forall|k: int| 0 <= k < log.len() ==> same_action(#[trigger] after[k], log[k]),
    ensures
        exists|k: int| 0 <= k < after.len() && #[trigger] blow_for(after[k], c),
{
    let q = choose|q: int| 0 <= q < cs.len() && cs[q] == c;
    assert(cs[q].name@ == s0[j].name@ && cs[q].hp < s0[j].hp);
    let k = choose|k: int| 0 <= k < log.len() && #[trigger] blow_for(log[k], cs[q]);
    assert(same_action(after[k], log[k]));
    assert(blow_for(after[k], c));
}

/// The bounds on hit points and the blows logged for them carry over from
/// one round to the next.
pub proof fn lemma_compose_rounds(
    next: Seq<Combatant>,
    mid: Seq<Combatant>,
    start: Seq<Combatant>,
    log_mid: Seq<BattleAction>,
    log_next: Seq<BattleAction>,
)
    requires
        no_gain(next, mid),
        no_gain(mid, start),
        drops_logged(next, mid, log_next),
        drops_logged(mid, start, log_mid),
        same_roster(mid, start),
        log_next.len() >= log_mid.len(),
        forall|i: int| 0 <= i < log_mid.len() ==> same_action(#[trigger] log_next[i], log_mid[i]),
    ensures
        no_gain(next, start),
        drops_logged(next, start, log_next),
{
    assert forall|i: int, j: int|
        #![trigger next[i], start[j]]
        0 <= i < next.len() && 0 <= j < start.len() && next[i].name@ == start[j].name@ implies next[i].hp
            <= start[j].hp && next[i].dmg == start[j].dmg && (next[i].hp < start[j].hp ==> exists|k: int|
            0 <= k < log_next.len() && #[trigger] blow_for(log_next[k], next[i])) by {
        let m = start[j].name@;
        lemma_name_count_zero(start, m);
        lemma_name_count_zero(mid, m);
        assert(name_count(mid, m) == name_count(start, m));
        let q = choose|q: int| 0 <= q < mid.len() && mid[q].name@ == m;
        assert(next[i].hp <= mid[q].hp && mid[q].hp <= start[j].hp);
        if next[i].hp < start[j].hp && next[i].hp == mid[q].hp {
            let k = choose|k: int| 0 <= k < log_mid.len() && #[trigger] blow_for(log_mid[k], mid[q]);
            assert(same_action(log_next[k], log_mid[k]));
            assert(blow_for(log_next[k], next[i]));
        }
    }
}

/// The living are counted no more often than all combatants.
pub proof fn lemma_alive_count(s: Seq<Combatant>, m: Seq<char>)
    ensures
        name_count(alive_of(s), m) <= name_count(s, m),
    decreases s.len(),
{
    if s.len() > 0 {
        lemma_alive_count(s.drop_last(), m);
        if s.last().hp != 0 {
            lemma_push_count(alive_of(s.drop_last()), s.last());
        }
    }
}

/// In a list where no name occurs twice, equal names mean equal indices.
pub proof fn lemma_distinct_names(s: Seq<Combatant>)
    requires
        roster_unique(s),
    ensures
        forall|i: int, j: int| 0 <= i < s.len() && 0 <= j < s.len() && s[i].name@ == s[j].name@ ==> i == j,
{
    assert forall|i: int, j: int| 0 <= i < s.len() && 0 <= j < s.len() && s[i].name@ == s[j].name@ implies i == j by {
        if i != j {
            lemma_two_named(s, i, j);
            assert(name_count(s, s[i].name@) <= 1);
        }
    }
}

/// Everything a round works on: the combatants, the map, the log so far
/// and the round's number.
#[derive(Debug)]
pub struct BattleRoundState {
    pub combatants: Vec<Combatant>,
    pub map: BattleMap,
    pub actions: Vec<BattleAction>,
    pub round_number: u32,
}

/// `c` is the state a round numbered `round` works from, given the state
/// `st` it was started in: the same combatants and log, the round's number,
/// and the map without the combatants that were dead at the start.
pub open spec fn round_start(st: BattleRoundState, round: u32, c: BattleRoundState) -> bool {
    let dead = dead_of(st.combatants@);
    &&& c.combatants@ == st.combatants@
    &&& same_log(c.actions@, st.actions@)
    &&& c.round_number == round
    &&& c.map.wf()
    &&& c.map.width_spec() == st.map.width_spec()
    &&& c.map.height_spec() == st.map.height_spec()
    &&& forall|x: Seq<char>|
        #[trigger] c.map.placed(x) ==> st.map.placed(x) && c.map.position_of(x) == st.map.position_of(x)
    &&& forall|x: Seq<char>|
        st.map.placed(x) && !#[trigger] c.map.placed(x) ==> exists|k: int| 0 <= k < dead.len() && dead[k].name@ == x
    &&& forall|k: int| 0 <= k < dead.len() ==> !c.map.placed(#[trigger] dead[k].name@)
}

/// `next` is a state that the turn of the combatant named `name` in round
/// `round`, walking at most `limit` cells, may leave from `st`: nothing
/// changes when nobody of that name is left alive; otherwise it fights
/// every other combatant as `CombatantTurn::execute` describes, and then
/// stands after its opponents in the list.
pub open spec fn round_link(st: BattleRoundState, name: Seq<char>, round: u32, limit: usize, next: BattleRoundState) -> bool {
    let cs = st.combatants@;
    let i = first_named(cs, name);
    if i < 0 || cs[i].hp == 0 {
        next == st
    } else {
        exists|res: CombatantTurnResult|
            #[trigger] turn_ok(cs[i], others_of(cs, name), st.map, st.actions@, round, limit, res)
                && next.combatants@ == res.opponents@.push(res.active_combatant) && next.map == res.map
                && next.actions@ == res.actions@ && next.round_number == res.round_number
    }
}

/// `st` is a state that round `round` of a battle, walking at most `limit`
/// cells per turn, may leave from `start`: it is reached from `start`, with
/// the dead taken off the map, by one turn of each combatant alive at the
/// start, in list order (see `round_link`). It keeps the map sound, the
/// roster and the log so far; no one gains hit points or changes damage,
/// and every loss of hit points has its blow in the log; the new entries
/// belong to this round, come from combatants alive at its start, and hold
/// at most one walk and one blow per name.
pub open spec fn round_ok(start: BattleRoundState, round: u32, limit: usize, st: BattleRoundState) -> bool {
    let alive = alive_of(start.combatants@);
    let dead = dead_of(start.combatants@);
    &&& exists|chain: Seq<BattleRoundState>|
        {
            &&& chain.len() == alive.len() + 1
            &&& #[trigger] round_start(start, round, chain[0])
            &&& forall|k: int| 0 <= k < alive.len() ==> #[trigger] round_link(chain[k], alive[k].name@, round, limit, chain[k + 1])
            &&& chain[alive.len() as int] == st
        }
    &&& st.map.wf()
    &&& no_gain(st.combatants@, start.combatants@)
    &&& drops_logged(st.combatants@, start.combatants@, st.actions@)
    &&& same_roster(st.combatants@, start.combatants@)
    &&& st.map.width_spec() == start.map.width_spec()
    &&& st.map.height_spec() == start.map.height_spec()
    &&& st.round_number == round
    &&& start.map.all_within() ==> st.map.all_within()
    &&& names_known(start.map, start.combatants@) ==> names_known(st.map, st.combatants@)
    &&& forall|k: int| 0 <= k < dead.len() ==> !st.map.placed(#[trigger] dead[k].name@)
    &&& forall|k: int| start.actions@.len() <= k < st.actions@.len() ==> round_of(#[trigger] st.actions@[k]) == round
    &&& st.actions@.len() >= start.actions@.len()
    &&& forall|i: int| 0 <= i < start.actions@.len() ==> same_action(#[trigger] st.actions@[i], start.actions@[i])
    &&& forall|k: int|
        start.actions@.len() <= k < st.actions@.len() ==> name_count(alive, actor_of(#[trigger] st.actions@[k])) >= 1
    &&& forall|k1: int, k2: int|
        start.actions@.len() <= k1 < st.actions@.len() && start.actions@.len() <= k2 < st.actions@.len() && k1 != k2
            ==> ((#[trigger] st.actions@[k1]) is Move && (#[trigger] st.actions@[k2]) is Move ==> actor_of(
            st.actions@[k1],
        ) != actor_of(st.actions@[k2])) && (st.actions@[k1] is Attack && st.actions@[k2] is Attack ==> actor_of(
            st.actions@[k1],
        ) != actor_of(st.actions@[k2]))
}

/// One round of a battle, from the state it starts in.
#[derive(Debug)]
pub struct BattleRound {
    round_number: u32,
    state: BattleRoundState,
    step_limit: usize,
}

/// A battle, placed and ready to run.
#[derive(Debug)]
pub struct BattleEngine {
    map: BattleMap,
    combatants: Vec<Combatant>,
    round_counter: u32,
    max_rounds: u32,
    step_limit: usize,
}

/// Those of `s` that are alive, or those that are dead.
pub(crate) fn filter_alive(s: &Vec<Combatant>, alive: bool) -> (r: Vec<Combatant>)
    ensures
        r@ == (if alive {
            alive_of(s@)
        } else {
            dead_of(s@)
        }),
{
    let mut out: Vec<Combatant> = Vec::new();
    let mut i: usize = 0;
    while i < s.len()
        invariant
            i <= s@.len(),
            out@ == (if alive {
                alive_of(s@.take(i as int))
            } else {
                dead_of(s@.take(i as int))
            }),
        decreases s@.len() - i,
    {
        assert(s@.take(i as int + 1).drop_last() =~= s@.take(i as int));
        if s[i].is_alive() == alive {
            out.push(s[i].clone());
        }
        i = i + 1;
    }
    assert(s@.take(i as int) =~= s@);
    out
}

/// Those of `s` not named `name`.
fn others(s: &Vec<Combatant>, name: &String) -> (r: Vec<Combatant>)
    ensures
        r@ == others_of(s@, name@),
{
    let mut out: Vec<Combatant> = Vec::new();
    let mut i: usize = 0;
    while i < s.len()
        invariant
            i <= s@.len(),
            out@ == others_of(s@.take(i as int), name@),
        decreases s@.len() - i,
    {
        assert(s@.take(i as int + 1).drop_last() =~= s@.take(i as int));
        if s[i].name != *name {
            out.push(s[i].clone());
        }
        i = i + 1;
    }
    assert(s@.take(i as int) =~= s@);
    out
}

impl BattleRoundState {
    /// At least two combatants are alive.
    pub fn min_two_alive(&self) -> (r: bool)
        ensures
            r == (alive_of(self.combatants@).len() >= 2),
    {
        filter_alive(&self.combatants, true).len() >= 2
    }

    /// The living combatants, in order.
    pub fn alive_combatants(&self) -> (r: Vec<Combatant>)
        ensures
            r@ == alive_of(self.combatants@),
    {
        filter_alive(&self.combatants, true)
    }

    /// The dead combatants, in order.
    pub fn dead_combatants(&self) -> (r: Vec<Combatant>)
        ensures
            r@ == dead_of(self.combatants@),
    {
        filter_alive(&self.combatants, false)
    }

    /// The first combatant named `name`.
    pub fn get_combatant(&self, name: &String) -> (r: Option<&Combatant>)
        ensures
            r is Some <==> first_named(self.combatants@, name@) >= 0,
            r matches Some(c) ==> *c == self.combatants@[first_named(self.combatants@, name@)],
    {
        let mut i: usize = 0;
        while i < self.combatants.len()
            invariant
                i <= self.combatants@.len(),
                first_named(self.combatants@.take(i as int), name@) == -1,
            decreases self.combatants@.len() - i,
        {
            assert(self.combatants@.take(i as int + 1).drop_last() =~= self.combatants@.take(i as int));
            if self.combatants[i].name == *name {
                proof {
                    lemma_first_named(self.combatants@, name@);
                    lemma_first_named(self.combatants@.take(i as int), name@);
                    assert forall|k: int| 0 <= k < i implies self.combatants@[k].name@ != name@ by {
                        assert(self.combatants@[k] == self.combatants@.take(i as int)[k]);
                    }
                }
                return Some(&self.combatants[i]);
            }
            i = i + 1;
        }
        assert(self.combatants@.take(i as int) =~= self.combatants@);
        None
    }

    /// The state a turn leaves: its opponents followed by the combatant
    /// that acted.
    pub fn from_turn(value: CombatantTurnResult) -> (r: BattleRoundState)
        ensures
            r.combatants@ == value.opponents@.push(value.active_combatant),
            r.map == value.map,
            r.actions@ == value.actions@,
            r.round_number == value.round_number,
    {
        let mut all = value.opponents;
        all.push(value.active_combatant);
        BattleRoundState { combatants: all, map: value.map, actions: value.actions, round_number: value.round_number }
    }
}

impl BattleRound {
    pub closed spec fn round_spec(&self) -> u32 {
        self.round_number
    }

    pub closed spec fn state_spec(&self) -> BattleRoundState {
        self.state
    }

    pub closed spec fn step_limit_spec(&self) -> usize {
        self.step_limit
    }

    pub fn new(round_number: u32, initial_state: BattleRoundState) -> (r: BattleRound)
        ensures
            r.round_spec() == round_number,
            r.state_spec() == initial_state,
            r.step_limit_spec() == MAX_COMBATANT_MOVE,
    {
        BattleRound { round_number, state: initial_state, step_limit: MAX_COMBATANT_MOVE }
    }

    /// The same round, each turn allowing `step_limit` cells of movement.
    pub fn with_step_limit(self, step_limit: usize) -> (r: BattleRound)
        ensures
            r.round_spec() == self.round_spec(),
            r.state_spec() == self.state_spec(),
            r.step_limit_spec() == step_limit,
    {
        BattleRound { step_limit, ..self }
    }

    /// Plays the round: the dead leave the map, then each combatant alive
    /// at the start of the round, in list order, takes a turn against all
    /// the others, unless it died earlier in the round. With at least two
    /// combatants, placements within bounds and only combatants' names on
    /// the map, the round succeeds and keeps those properties.
    pub fn do_battle(&self) -> (r: Result<BattleRoundState, Error>)
        requires
            self.state_spec().map.wf(),
            roster_unique(self.state_spec().combatants@),
        ensures
            self.state_spec().combatants@.len() >= 2 && self.state_spec().map.all_within() && names_known(
                self.state_spec().map,
                self.state_spec().combatants@,
            ) ==> r is Ok,
            self.state_spec().combatants@.len() >= 2 ==> r != Err::<BattleRoundState, Error>(
                Error::NoOpponentsPresent,
            ),
            r matches Ok(st) ==> round_ok(self.state_spec(), self.round_spec(), self.step_limit_spec(), st),
    {
        let ghost log0 = self.state.actions@;
        let ghost s0 = self.state.combatants@;
        let ghost inb = self.state.map.all_within();
        let ghost known = names_known(self.state.map, s0);
        let w = self.state.map.get_width();
        let h = self.state.map.get_height();
        let mut map = self.state.map.clone();
        proof {
            if known {
                assert forall|x: Seq<char>| #[trigger] map.placed(x) implies name_count(s0, x) >= 1 by {
                    assert(self.state.map.placed(x));
                }
            }
        }
        let dead = self.state.dead_combatants();
        let ghost map0 = self.state.map;
        proof {
            assert forall|x: Seq<char>| #[trigger] map.placed(x) implies map0.placed(x) && map.position_of(x)
                == map0.position_of(x) by {}
        }
        let mut i: usize = 0;
        while i < dead.len()
            invariant
                i <= dead@.len(),
                map.wf(),
                map.width_spec() == w,
                map.height_spec() == h,
                forall|k: int| 0 <= k < i ==> !map.placed(#[trigger] dead@[k].name@),
                inb ==> map.all_within(),
                known ==> names_known(map, s0),
                map0 == self.state.map,
                forall|x: Seq<char>|
                    #[trigger] map.placed(x) ==> map0.placed(x) && map.position_of(x) == map0.position_of(x),
                forall|x: Seq<char>|
                    map0.placed(x) && !#[trigger] map.placed(x) ==> exists|k: int| 0 <= k < i && dead@[k].name@ == x,
            decreases dead@.len() - i,
        {
            let ghost old_map = map;
            let ghost e = map.entries();
            let ghost n = dead@[i as int].name@;
            map = map.remove_poi(&dead[i].name);
            proof {
                if find_id(e, n) < 0 {
                    assert forall|x: Seq<char>| #[trigger] map.placed(x) implies map0.placed(x) && map.position_of(x)
                        == map0.position_of(x) by {
                        assert(old_map.placed(x));
                    }
                    assert forall|x: Seq<char>| map0.placed(x) && !#[trigger] map.placed(x) implies exists|k: int|
                        0 <= k < i + 1 && dead@[k].name@ == x by {
                        assert(!old_map.placed(x));
                    }
                }
                if find_id(e, n) < 0 && known {
                    assert forall|x: Seq<char>| #[trigger] map.placed(x) implies name_count(s0, x) >= 1 by {
                        assert(old_map.placed(x));
                    }
                }
                if find_id(e, n) >= 0 {
                    assert forall|x: Seq<char>| #[trigger] map.placed(x) implies map0.placed(x) && map.position_of(x)
                        == map0.position_of(x) by {
                        lemma_find_id(e, n);
                        lemma_remove_names(e, find_id(e, n), x);
                        lemma_find_id(e, x);
                        lemma_find_id(e.remove(find_id(e, n)), x);
                        assert(old_map.placed(x));
                        lemma_remove_position(e, find_id(e, n), x);
                    }
                    assert forall|x: Seq<char>| map0.placed(x) && !#[trigger] map.placed(x) implies exists|k: int|
                        0 <= k < i + 1 && dead@[k].name@ == x by {
                        lemma_find_id(e, n);
                        lemma_remove_names(e, find_id(e, n), x);
                        lemma_find_id(e, x);
                        if !old_map.placed(x) {
                            let k = choose|k: int| 0 <= k < i && dead@[k].name@ == x;
                            assert(dead@[k].name@ == x);
                        } else {
                            assert(map.entries() == e.remove(find_id(e, n)));
                            lemma_find_id(e.remove(find_id(e, n)), x);
                            assert(e[find_id(e, n)].1 == x);
                            assert(dead@[i as int].name@ == x);
                        }
                    }
                    lemma_find_id(e, n);
                    assert(map.entries() == e.remove(find_id(e, n)));
                    let r = e.remove(find_id(e, n));
                    assert forall|q: int| 0 <= q < r.len() implies r[q] == e[if q < find_id(e, n) { q } else { q + 1 }] by {}
                    if inb {
                        assert forall|q: int| 0 <= q < map.entries().len() implies within(#[trigger] map.entries()[q].0, map.bounds()) by {
                            assert(within(e[if q < find_id(e, n) { q } else { q + 1 }].0, old_map.bounds()));
                        }
                    }
                    if known {
                        assert forall|x: Seq<char>| #[trigger] map.placed(x) implies name_count(s0, x) >= 1 by {
                            lemma_remove_names(e, find_id(e, n), x);
                            lemma_find_id(e, x);
                            lemma_find_id(r, x);
                            assert(old_map.placed(x));
                        }
                    }
                    assert forall|k: int| 0 <= k < i + 1 implies !map.placed(#[trigger] dead@[k].name@) by {
                        let x = dead@[k].name@;
                        lemma_remove_names(e, find_id(e, n), x);
                        lemma_find_id(e, x);
                        if k < i {
                            assert(!old_map.placed(x));
                        }
                    }
                }
            }
            i = i + 1;
        }
        let mut state = BattleRoundState {
            combatants: copy_combatants(&self.state.combatants),
            map,
            actions: copy_log(&self.state.actions),
            round_number: self.round_number,
        };
        let alive = self.state.alive_combatants();
        let ghost mut chain: Seq<BattleRoundState> = seq![state];
        proof {
            assert(round_start(self.state, self.round_number, state));
            assert forall|a: int, b: int|
                #![trigger s0[a], s0[b]]
                0 <= a < s0.len() && 0 <= b < s0.len() && s0[a].name@ == s0[b].name@ implies s0[a].hp <= s0[b].hp
                    && s0[a].dmg == s0[b].dmg by {
                if a != b {
                    lemma_two_named(s0, a, b);
                }
            }
            assert forall|a: int, b: int|
                #![trigger s0[a], s0[b]]
                0 <= a < s0.len() && 0 <= b < s0.len() && s0[a].name@ == s0[b].name@ && s0[a].hp < s0[b].hp implies exists|k: int|
                    0 <= k < state.actions@.len() && #[trigger] blow_for(state.actions@[k], s0[a]) by {
                if a != b {
                    lemma_two_named(s0, a, b);
                }
            }
        }
        let mut j: usize = 0;
        while j < alive.len()
            invariant
                j <= alive@.len(),
                alive@ == alive_of(s0),
                chain.len() == j + 1,
                round_start(self.state, self.round_number, chain[0]),
                forall|k: int|
                    0 <= k < j ==> #[trigger] round_link(
                        chain[k],
                        alive@[k].name@,
                        self.round_number,
                        self.step_limit,
                        chain[k + 1],
                    ),
                chain[j as int] == state,
                no_gain(state.combatants@, s0),
                drops_logged(state.combatants@, s0, state.actions@),
                forall|k: int|
                    log0.len() <= k < state.actions@.len() ==> exists|i: int|
                        0 <= i < j && alive@[i].name@ == actor_of(#[trigger] state.actions@[k]),
                forall|k1: int, k2: int|
                    log0.len() <= k1 < state.actions@.len() && log0.len() <= k2 < state.actions@.len() && k1 != k2
                        ==> ((#[trigger] state.actions@[k1]) is Move && (#[trigger] state.actions@[k2]) is Move
                        ==> actor_of(state.actions@[k1]) != actor_of(state.actions@[k2])) && (state.actions@[k1] is Attack
                        && state.actions@[k2] is Attack ==> actor_of(state.actions@[k1]) != actor_of(state.actions@[k2])),
                dead@ == dead_of(s0),
                forall|k: int| 0 <= k < dead@.len() ==> !state.map.placed(#[trigger] dead@[k].name@),
                forall|k: int| log0.len() <= k < state.actions@.len() ==> round_of(#[trigger] state.actions@[k]) == self.round_number,
                s0 == self.state.combatants@,
                inb == self.state.map.all_within(),
                known == names_known(self.state.map, s0),
                roster_unique(s0),
                same_roster(state.combatants@, s0),
                inb ==> state.map.all_within(),
                known ==> names_known(state.map, s0),
                state.map.wf(),
                state.map.width_spec() == w,
                state.map.height_spec() == h,
                state.round_number == self.round_number,
                state.actions@.len() >= log0.len(),
                forall|k: int| 0 <= k < log0.len() ==> same_action(#[trigger] state.actions@[k], log0[k]),
            decreases alive@.len() - j,
        {
            let ghost st_before = state;
            let ghost cs = state.combatants@;
            let ghost name = alive@[j as int].name@;
            proof {
                lemma_first_named(cs, name);
            }
            let active = match state.get_combatant(&alive[j].name) {
                Some(c) => c.clone(),
                None => {
                    proof {
                        chain = chain.push(state);
                        assert(round_link(chain[j as int], name, self.round_number, self.step_limit, chain[j + 1]));
                    }
                    j = j + 1;
                    continue;
                },
            };
            if active.is_alive() {
                proof {
                    lemma_first_named(cs, alive@[j as int].name@);
                    lemma_first_named_counted(cs, active.name@);
                    assert(name_count(s0, active.name@) <= 1);
                    lemma_others_count(cs, active.name@);
                }
                let opponents = others(&state.combatants, &active.name);
                let ghost opps = opponents@;
                proof {
                    if s0.len() >= 2 && inb && known {
                        assert(opps.len() > 0);
                        let e = state.map.entries();
                        assert forall|k: int| 0 <= k < e.len() implies (#[trigger] e[k]).1 == active.name@ || exists|q: int|
                            0 <= q < opps.len() && opps[q].name@ == e[k].1 by {
                            let x = e[k].1;
                            lemma_find_id(e, x);
                            assert(state.map.placed(x));
                            assert(name_count(cs, x) == name_count(s0, x));
                            lemma_name_count_zero(cs, x);
                            if x != active.name@ {
                                let q0 = choose|q0: int| 0 <= q0 < cs.len() && cs[q0].name@ == x;
                                lemma_others_keeps(cs, active.name@, q0);
                                let q = choose|q: int| 0 <= q < opps.len() && opps[q] == cs[q0];
                                assert(opps[q].name@ == x);
                            }
                        }
                        assert(occupants_known(state.map, active, opps));
                    }
                }
                let ghost before = state.actions@;
                let ghost map_before = state.map;
                let mut turn = CombatantTurn::new(active, opponents, state.map, state.actions, self.round_number)
                    .with_step_limit(self.step_limit);
                match turn.execute() {
                    Ok(res) => {
                        let ghost rg = res;
                        proof {
                            lemma_others_from(cs, active.name@);
                            assert forall|a: int, b: int|
                                #![trigger res.opponents@.push(res.active_combatant)[a], s0[b]]
                                0 <= a < res.opponents@.len() + 1 && 0 <= b < s0.len()
                                    && res.opponents@.push(res.active_combatant)[a].name@ == s0[b].name@ implies res.opponents@.push(
                                    res.active_combatant,
                                )[a].hp <= s0[b].hp && res.opponents@.push(res.active_combatant)[a].dmg == s0[b].dmg by {
                                let v = res.opponents@.push(res.active_combatant)[a];
                                if a == res.opponents@.len() {
                                    let f = first_named(cs, name);
                                    assert(v == cs[f]);
                                } else {
                                    let o = opps[a];
                                    assert(cs.contains(o));
                                    let q = choose|q: int| 0 <= q < cs.len() && cs[q] == o;
                                    assert(cs[q].hp <= s0[b].hp || cs[q].name@ != s0[b].name@);
                                    if res.opponents@ != opps {
                                        let id = choose|id: Seq<char>| #[trigger] strike_all(opps, id, active.dmg) == res.opponents@;
                                        assert(res.opponents@[a] == strike_all(opps, id, active.dmg)[a]);
                                    }
                                }
                            }
                            if res.opponents@ != opps {
                                let id = choose|id: Seq<char>| #[trigger] strike_all(opps, id, active.dmg) == res.opponents@;
                                lemma_strike_count(opps, id, active.dmg);
                            }
                            lemma_push_count(res.opponents@, res.active_combatant);
                        }
                        state = BattleRoundState::from_turn(res);
                        proof {
                            let f = first_named(cs, name);
                            assert(cs[f] == active);
                            lemma_turn_logs_drops(active, opps, map_before, before, self.round_number, self.step_limit, rg, cs, s0);
                            assert(roster_unique(opps)) by {
                                assert forall|m: Seq<char>| #[trigger] name_count(opps, m) <= 1 by {
                                    assert(name_count(cs, m) == name_count(s0, m));
                                }
                            }
                            lemma_distinct_names(opps);
                            lemma_turn_appends(active, opps, map_before, before, self.round_number, self.step_limit, rg);
                            assert(roster_unique(alive@)) by {
                                assert forall|m: Seq<char>| #[trigger] name_count(alive@, m) <= 1 by {
                                    lemma_alive_count(s0, m);
                                }
                            }
                            lemma_distinct_names(alive@);
                            let na = rg.actions@;
                            assert forall|k: int| log0.len() <= k < na.len() implies exists|i: int|
                                0 <= i < j + 1 && alive@[i].name@ == actor_of(#[trigger] na[k]) by {
                                if k < before.len() {
                                    assert(same_action(na[k], before[k]));
                                    let i = choose|i: int| 0 <= i < j && alive@[i].name@ == actor_of(before[k]);
                                    assert(alive@[i].name@ == actor_of(na[k]));
                                } else {
                                    assert(alive@[j as int].name@ == actor_of(na[k]));
                                }
                            }
                            assert forall|k1: int, k2: int|
                                log0.len() <= k1 < na.len() && log0.len() <= k2 < na.len() && k1 != k2 implies ((#[trigger] na[k1]) is Move
                                && (#[trigger] na[k2]) is Move ==> actor_of(na[k1]) != actor_of(na[k2])) && (na[k1] is Attack
                                && na[k2] is Attack ==> actor_of(na[k1]) != actor_of(na[k2])) by {
                                if k1 < before.len() {
                                    assert(same_action(na[k1], before[k1]));
                                }
                                if k2 < before.len() {
                                    assert(same_action(na[k2], before[k2]));
                                }
                                if k1 < before.len() && k2 >= before.len() {
                                    let i = choose|i: int| 0 <= i < j && alive@[i].name@ == actor_of(before[k1]);
                                    assert(alive@[i].name@ != alive@[j as int].name@);
                                }
                                if k2 < before.len() && k1 >= before.len() {
                                    let i = choose|i: int| 0 <= i < j && alive@[i].name@ == actor_of(before[k2]);
                                    assert(alive@[i].name@ != alive@[j as int].name@);
                                }
                            }
                            assert(turn_ok(cs[f], others_of(cs, name), st_before.map, st_before.actions@, self.round_number, self.step_limit, rg));
                            chain = chain.push(state);
                            assert(round_link(chain[j as int], name, self.round_number, self.step_limit, chain[j + 1]));
                        }
                        assert forall|m: Seq<char>| #[trigger] name_count(state.combatants@, m) == name_count(s0, m) by {
                            assert(name_count(cs, m) == name_count(s0, m));
                            assert(name_count(opps, m) == name_count(res.opponents@, m));
                        }
                        assert forall|k: int| 0 <= k < log0.len() implies same_action(#[trigger] state.actions@[k], log0[k]) by {
                            assert(same_action(state.actions@[k], before[k]));
                        }
                        assert forall|k: int| log0.len() <= k < state.actions@.len() implies round_of(
                            #[trigger] state.actions@[k],
                        ) == self.round_number by {
                            if k < before.len() {
                                assert(same_action(state.actions@[k], before[k]));
                            }
                        }
                        assert forall|k: int| 0 <= k < dead@.len() implies !state.map.placed(#[trigger] dead@[k].name@) by {
                            assert(!map_before.placed(dead@[k].name@));
                        }
                        proof {
                            if known {
                                assert forall|x: Seq<char>| #[trigger] state.map.placed(x) implies name_count(s0, x) >= 1 by {
                                    assert(map_before.placed(x));
                                }
                            }
                        }
                    },
                    Err(e) => {
                        assert(!(s0.len() >= 2 && inb && known));
                        proof {
                            if s0.len() >= 2 {
                                assert(opps.len() > 0);
                            }
                        }
                        return Err(e);
                    },
                }
            } else {
                proof {
                    chain = chain.push(state);
                    assert(round_link(chain[j as int], name, self.round_number, self.step_limit, chain[j + 1]));
                }
            }
            j = j + 1;
        }
        proof {
            assert(chain[alive_of(s0).len() as int] == state);
            let alive_s = alive_of(self.state_spec().combatants@);
            assert(alive_s == alive@);
            let sa = state.actions@;
            assert(round_start(self.state_spec(), self.round_spec(), chain[0]));
            assert(forall|k: int|
                0 <= k < alive_s.len() ==> #[trigger] round_link(
                    chain[k],
                    alive_s[k].name@,
                    self.round_spec(),
                    self.step_limit_spec(),
                    chain[k + 1],
                ));
            if known {
                assert forall|x: Seq<char>| #[trigger] state.map.placed(x) implies name_count(state.combatants@, x) >= 1 by {
                    assert(name_count(state.combatants@, x) == name_count(s0, x));
                }
            }
            assert forall|k: int| log0.len() <= k < sa.len() implies name_count(alive_s, actor_of(#[trigger] sa[k])) >= 1 by {
                let i = choose|i: int| 0 <= i < j && alive@[i].name@ == actor_of(sa[k]);
                lemma_name_count_zero(alive_s, actor_of(sa[k]));
                assert(alive_s[i].name@ == actor_of(sa[k]));
            }
        }
        Ok(state)
    }
}

impl BattleEngine {
    pub closed spec fn map_spec(&self) -> BattleMap {
        self.map
    }

    pub closed spec fn combatants_spec(&self) -> Seq<Combatant> {
        self.combatants@
    }

    pub closed spec fn round_counter_spec(&self) -> u32 {
        self.round_counter
    }

    pub closed spec fn max_rounds_spec(&self) -> u32 {
        self.max_rounds
    }

    pub closed spec fn step_limit_spec(&self) -> usize {
        self.step_limit
    }

    /// The map holds each combatant at most once, within its bounds and
    /// under a combatant's name, and no two combatants share a name.
    pub open spec fn wf(&self) -> bool {
        &&& self.map_spec().wf()
        &&& self.map_spec().all_within()
        &&& names_known(self.map_spec(), self.combatants_spec())
        &&& roster_unique(self.combatants_spec())
        &&& self.max_rounds_spec() < u32::MAX
    }

    /// Builds the map and places every combatant on a random free cell of
    /// `[0, width) x [0, height)`; fails when two combatants share a name.
    pub fn new(battlefield_data: BattlefieldData) -> (r: Result<BattleEngine, Error>)
        requires
            battlefield_data.combatants@.len() <= battlefield_data.battlefield_width
                * battlefield_data.battlefield_height,
        ensures
            r is Ok <==> names_unique(battlefield_data.combatants@),
            r is Err ==> r == Err::<BattleEngine, Error>(Error::UserAlreadyOnMap),
            r matches Ok(e) ==> {
                let s = battlefield_data.combatants@;
                let m = e.map_spec();
                &&& e.combatants_spec() == s
                &&& e.round_counter_spec() == 0
                &&& e.max_rounds_spec() == MAX_ROUND_NUM
                &&& e.step_limit_spec() == MAX_COMBATANT_MOVE
                &&& e.wf()
                &&& m.width_spec() == battlefield_data.battlefield_width
                &&& m.height_spec() == battlefield_data.battlefield_height
                &&& m.entries().len() == s.len()
                &&& forall|k: int|
                    0 <= k < s.len() ==> {
                        &&& (#[trigger] m.entries()[k]).1 == s[k].name@
                        &&& m.entries()[k].0.x < battlefield_data.battlefield_width
                        &&& m.entries()[k].0.y < battlefield_data.battlefield_height
                    }
            },
    {
        let w = battlefield_data.battlefield_width;
        let h = battlefield_data.battlefield_height;
        let ghost s = battlefield_data.combatants@;
        let combatants = &battlefield_data.combatants;
        let mut map = BattleMap::new(w, h);
        let mut i: usize = 0;
        while i < combatants.len()
            invariant
                s == combatants@,
                s == battlefield_data.combatants@,
                s.len() <= w * h,
                i <= s.len(),
                map.wf(),
                map.width_spec() == w,
                map.height_spec() == h,
                map.entries().len() == i,
                names_unique(s.take(i as int)),
                forall|k: int|
                    0 <= k < i ==> {
                        &&& (#[trigger] map.entries()[k]).1 == s[k].name@
                        &&& map.entries()[k].0.x < w
                        &&& map.entries()[k].0.y < h
                    },
            decreases s.len() - i,
        {
            proof {
                lemma_free_cell(map.entries(), w as int, h as int);
                let p = choose|p: Point| p.x < w && p.y < h && find_point(map.entries(), p) == -1;
                assert(!map.occupied(p));
            }
            let ghost e = map.entries();
            match map.place_randomly(combatants[i].name.clone()) {
                Ok(_) => {
                    proof {
                        lemma_find_id(e, s[i as int].name@);
                        let t = s.take(i as int + 1);
                        assert forall|a: int, b: int|
                            #![trigger t[a], t[b]]
                            0 <= a < t.len() && 0 <= b < t.len() && a != b implies t[a].name@ != t[b].name@ by {
                            if a < i && b < i {
                                assert(t[a] == s.take(i as int)[a]);
                                assert(t[b] == s.take(i as int)[b]);
                            } else if a == i {
                                assert(e[b].1 == s[b].name@);
                            } else {
                                assert(e[a].1 == s[a].name@);
                            }
                        }
                    }
                },
                Err(err) => {
                    proof {
                        lemma_find_id(e, s[i as int].name@);
                        let k = find_id(e, s[i as int].name@);
                        assert(s[k].name@ == s[i as int].name@);
                        assert(k != i as int);
                        assert(!names_unique(s));
                    }
                    return Err(err);
                },
            }
            i = i + 1;
        }
        assert(s.take(i as int) =~= s);
        proof {
            lemma_unique_roster(s);
            assert forall|x: Seq<char>| #[trigger] map.placed(x) implies name_count(s, x) >= 1 by {
                lemma_find_id(map.entries(), x);
                let k = find_id(map.entries(), x);
                assert(map.entries()[k].1 == s[k].name@);
                lemma_name_count_zero(s, x);
            }
            assert forall|k: int| 0 <= k < map.entries().len() implies within(#[trigger] map.entries()[k].0, map.bounds()) by {
                assert(map.entries()[k].0.x < w);
            }
        }
        Ok(
            BattleEngine {
                map,
                combatants: battlefield_data.combatants,
                round_counter: 0,
                max_rounds: MAX_ROUND_NUM,
                step_limit: MAX_COMBATANT_MOVE,
            },
        )
    }

    /// The same battle, capped at `max_rounds` rounds and allowing
    /// `step_limit` cells of movement per turn.
    pub fn with_limits(self, max_rounds: u32, step_limit: usize) -> (r: BattleEngine)
        requires
            max_rounds < u32::MAX,
        ensures
            r.map_spec() == self.map_spec(),
            r.combatants_spec() == self.combatants_spec(),
            r.round_counter_spec() == self.round_counter_spec(),
            r.max_rounds_spec() == max_rounds,
            r.step_limit_spec() == step_limit,
    {
        BattleEngine { max_rounds, step_limit, ..self }
    }

    /// Runs rounds while at least two combatants live and the round cap is
    /// not passed, numbering them one after another, then analyses the end
    /// state. A well-formed battle always completes.
    pub fn start_battle(&mut self) -> (r: Result<BattleResult, Error>)
        requires
            old(self).wf(),
        ensures
            final(self).map_spec() == old(self).map_spec(),
            final(self).combatants_spec() == old(self).combatants_spec(),
            final(self).round_counter_spec() >= old(self).round_counter_spec(),
            final(self).max_rounds_spec() == old(self).max_rounds_spec(),
            final(self).step_limit_spec() == old(self).step_limit_spec(),
            final(self).round_counter_spec() <= vstd::math::max(
                old(self).round_counter_spec() as int,
                old(self).max_rounds_spec() + 1,
            ),
            r is Ok,
            r matches Ok(res) ==> {
                &&& res.is_analyzed
                &&& res.winner == winner_of(res.combatants@)
                &&& res.map.wf()
                &&& same_roster(res.combatants@, old(self).combatants_spec())
                &&& alive_of(res.combatants@).len() < 2 || final(self).round_counter_spec() > old(self).max_rounds_spec()
                &&& res.round_number == final(self).round_counter_spec()
                &&& no_gain(res.combatants@, old(self).combatants_spec())
                &&& drops_logged(res.combatants@, old(self).combatants_spec(), res.actions@)
                &&& forall|k: int|
                    0 <= k < res.actions@.len() ==> old(self).round_counter_spec() < round_of(#[trigger] res.actions@[k])
                        <= res.round_number
                &&& forall|k1: int, k2: int|
                    0 <= k1 < k2 < res.actions@.len() ==> round_of(#[trigger] res.actions@[k1]) <= round_of(
                        #[trigger] res.actions@[k2],
                    )
                &&& exists|rounds: Seq<BattleRoundState>|
                    {
                        &&& rounds.len() == final(self).round_counter_spec() - old(self).round_counter_spec() + 1
                        &&& #[trigger] rounds[0].combatants@ == old(self).combatants_spec()
                        &&& rounds[0].map.entries() == old(self).map_spec().entries()
                        &&& rounds[0].actions@.len() == 0
                        &&& rounds[0].round_number == old(self).round_counter_spec()
                        &&& forall|k: int|
                            0 <= k < rounds.len() - 1 ==> #[trigger] round_ok(
                                rounds[k],
                                (old(self).round_counter_spec() + k + 1) as u32,
                                old(self).step_limit_spec(),
                                rounds[k + 1],
                            )
                        &&& res.combatants@ == rounds.last().combatants@
                        &&& res.map == rounds.last().map
                        &&& res.actions@ == rounds.last().actions@
                    }
            },
    {
        let ghost c0 = self.round_counter;
        let mut state = BattleRoundState {
            combatants: copy_combatants(&self.combatants),
            map: self.map.clone(),
            actions: Vec::new(),
            round_number: self.round_counter,
        };
        assert(same_roster(state.combatants@, self.combatants@));
        let ghost mut rounds: Seq<BattleRoundState> = seq![state];
        proof {
            let s0 = self.combatants@;
            assert forall|a: int, b: int|
                #![trigger s0[a], s0[b]]
                0 <= a < s0.len() && 0 <= b < s0.len() && s0[a].name@ == s0[b].name@ implies s0[a].hp <= s0[b].hp
                    && s0[a].dmg == s0[b].dmg && s0[a].hp >= s0[b].hp by {
                if a != b {
                    lemma_two_named(s0, a, b);
                }
            }
        }
        assert forall|x: Seq<char>| #[trigger] state.map.placed(x) implies name_count(state.combatants@, x) >= 1 by {
            assert(self.map.placed(x));
            assert(name_count(state.combatants@, x) == name_count(self.combatants@, x));
        }
        while state.min_two_alive() && self.round_counter <= self.max_rounds
            invariant
                self.max_rounds == old(self).max_rounds,
                self.step_limit == old(self).step_limit,
                self.max_rounds < u32::MAX,
                state.map.wf(),
                state.map.all_within(),
                names_known(state.map, state.combatants@),
                roster_unique(self.combatants@),
                same_roster(state.combatants@, self.combatants@),
                self.map == old(self).map,
                self.combatants == old(self).combatants,
                c0 == old(self).round_counter,
                c0 <= self.round_counter <= vstd::math::max(c0 as int, self.max_rounds + 1),
                state.round_number == self.round_counter,
                no_gain(state.combatants@, self.combatants@),
                drops_logged(state.combatants@, self.combatants@, state.actions@),
                forall|k: int| 0 <= k < state.actions@.len() ==> c0 < round_of(#[trigger] state.actions@[k]) <= self.round_counter,
                forall|k1: int, k2: int|
                    0 <= k1 < k2 < state.actions@.len() ==> round_of(#[trigger] state.actions@[k1]) <= round_of(
                        #[trigger] state.actions@[k2],
                    ),
                rounds.len() == self.round_counter - c0 + 1,
                rounds[0].combatants@ == self.combatants@,
                rounds[0].map.entries() == self.map.entries(),
                rounds[0].actions@.len() == 0,
                rounds[0].round_number == c0,
                forall|k: int|
                    0 <= k < rounds.len() - 1 ==> #[trigger] round_ok(
                        rounds[k],
                        (c0 + k + 1) as u32,
                        self.step_limit,
                        rounds[k + 1],
                    ),
                rounds.last() == state,
            decreases self.max_rounds + 1 - self.round_counter,
        {
            self.round_counter = self.round_counter + 1;
            proof {
                lemma_alive_len(state.combatants@);
            }
            let round = BattleRound::new(self.round_counter, state).with_step_limit(self.step_limit);
            let ghost prev = state;
            state = match round.do_battle() {
                Ok(next) => next,
                Err(e) => {
                    return Err(e);
                },
            };
            proof {
                lemma_compose_rounds(state.combatants@, prev.combatants@, self.combatants@, prev.actions@, state.actions@);
                assert forall|k: int| 0 <= k < state.actions@.len() implies c0 < round_of(#[trigger] state.actions@[k])
                    <= self.round_counter by {
                    if k < prev.actions@.len() {
                        assert(same_action(state.actions@[k], prev.actions@[k]));
                    }
                }
                assert forall|k1: int, k2: int|
                    0 <= k1 < k2 < state.actions@.len() implies round_of(#[trigger] state.actions@[k1]) <= round_of(
                        #[trigger] state.actions@[k2],
                    ) by {
                    if k1 < prev.actions@.len() {
                        assert(same_action(state.actions@[k1], prev.actions@[k1]));
                    }
                    if k2 < prev.actions@.len() {
                        assert(same_action(state.actions@[k2], prev.actions@[k2]));
                    }
                }
                rounds = rounds.push(state);
                assert(round_ok(rounds[rounds.len() - 2], (c0 + (rounds.len() - 2) + 1) as u32, self.step_limit, rounds[rounds.len() - 1]));
            }
        }
        let result = BattleResult::new(state).analyze_results();
        proof {
            assert(rounds[0].combatants@ == self.combatants@);
        }
        Ok(result)
    }
}

} // verus!
