//! The shapes in which a battle is requested and reported, and the
//! conversions between them and the kernel's types.

use crate::actions::BattleAction;
use crate::battle_map::{BattleMap, Entry, entries_of};
use crate::combatant::Combatant;
use crate::engine::BattlefieldData;
use crate::point::Point;
use crate::result::BattleResult;
use vstd::prelude::*;

verus! {

/// A combatant as callers send and receive it.
#[derive(Debug)]
pub struct CombatantContract {
    pub name: String,
    pub id: Option<String>,
    pub hp: u16,
    pub dmg: u16,
}

/// The size of a requested battlefield.
#[derive(Debug)]
pub struct BattleBapContract {
    pub height: u8,
    pub width: u8,
}

/// A request for a battle.
#[derive(Debug)]
pub struct CreateBattleContract {
    pub map: BattleBapContract,
    pub combatants: Vec<CombatantContract>,
}

/// A stored battlefield.
#[derive(Debug)]
pub struct BattleFieldContract {
    pub height: u8,
    pub width: u8,
    pub id: Option<String>,
    pub combatants: Vec<CombatantContract>,
}

#[derive(Debug)]
pub struct PointContract {
    pub x: u8,
    pub y: u8,
}

/// Who stands where.
#[derive(Debug)]
pub struct PoiContract {
    pub location: PointContract,
    pub name: String,
}

#[derive(Debug)]
pub struct MapContract {
    pub width: u8,
    pub height: u8,
    pub pois: Vec<PoiContract>,
}

#[derive(Debug)]
pub struct BattleActionMoveContract {
    pub round: u32,
    pub combatant: String,
    pub start: PointContract,
    pub end: PointContract,
    pub path: Vec<PointContract>,
}

#[derive(Debug)]
pub struct BattleActionAttackContract {
    pub round: u32,
    pub attacker: String,
    pub attacked: String,
    pub dmg: u16,
    pub remaining_hp: u16,
}

#[derive(Debug)]
pub enum BattleActionContract {
    Move(BattleActionMoveContract),
    Attack(BattleActionAttackContract),
}

/// The report of a finished battle.
#[derive(Debug)]
pub struct BattleResultContract {
    pub combatants: Vec<CombatantContract>,
    pub map: MapContract,
    pub actions: Vec<BattleActionContract>,
    pub round_number: u32,
    pub winner: Option<CombatantContract>,
}

/// The points of a list of reported points.
pub open spec fn points_of(v: Seq<PointContract>) -> Seq<Point> {
    v.map_values(|p: PointContract| Point { x: p.x, y: p.y })
}

/// The entries of a list of reported placements.
pub open spec fn pois_of(v: Seq<PoiContract>) -> Seq<Entry> {
    v.map_values(|p: PoiContract| (Point { x: p.location.x, y: p.location.y }, p.name@))
}

/// `c` reports `k`: same name and numbers, no id.
pub open spec fn reports(c: CombatantContract, k: Combatant) -> bool {
    c.name@ == k.name@ && c.hp == k.hp && c.dmg == k.dmg && c.id is None
}

/// `r` reports the log entry `a`.
pub open spec fn reports_action(r: BattleActionContract, a: BattleAction) -> bool {
    match (r, a) {
        (BattleActionContract::Move(m), BattleAction::Move(round, name, movement)) => m.round == round
            && m.combatant@ == name@ && m.start == (PointContract { x: movement.start.x, y: movement.start.y })
            && m.end == (PointContract { x: movement.last_position.x, y: movement.last_position.y })
            && points_of(m.path@) == movement.steps@,
        (BattleActionContract::Attack(t), BattleAction::Attack(round, blow)) => t.round == round
            && t.attacker@ == blow.assailant.name@ && t.attacked@ == blow.victim.name@ && t.dmg
            == blow.assailant.dmg && t.remaining_hp == blow.victim.hp,
        _ => false,
    }
}

impl PointContract {
    pub fn from_point(p: Point) -> (r: PointContract)
        ensures
            r.x == p.x,
            r.y == p.y,
    {
        PointContract { x: p.x, y: p.y }
    }
}

/// The reported form of a list of points.
fn points_contract(v: &Vec<Point>) -> (r: Vec<PointContract>)
    ensures
        points_of(r@) == v@,
{
    let mut out: Vec<PointContract> = Vec::new();
    let mut i: usize = 0;
    while i < v.len()
        invariant
            i <= v@.len(),
            out@.len() == i,
            points_of(out@) =~= v@.take(i as int),
        decreases v@.len() - i,
    {
        out.push(PointContract::from_point(v[i]));
        assert(points_of(out@)[i as int] == v@[i as int]);
        i = i + 1;
    }
    assert(v@.take(i as int) =~= v@);
    out
}

impl CombatantContract {
    /// The reported form of a combatant.
    pub fn from_combatant(value: &Combatant) -> (r: CombatantContract)
        ensures
            reports(r, *value),
    {
        CombatantContract { name: value.name.clone(), id: None, hp: value.hp, dmg: value.dmg }
    }

    /// The reported form of a combatant, if any.
    pub fn from_option(value: Option<Combatant>) -> (r: Option<CombatantContract>)
        ensures
            r is Some <==> value is Some,
            r matches Some(c) ==> reports(c, value->0),
    {
        match value {
            Some(v) => Some(CombatantContract::from_combatant(&v)),
            None => None,
        }
    }

    /// The combatant this contract asks for.
    pub fn to_combatant(&self) -> (r: Combatant)
        ensures
            r.name@ == self.name@,
            r.hp == self.hp,
            r.dmg == self.dmg,
    {
        Combatant { name: self.name.clone(), hp: self.hp, dmg: self.dmg }
    }
}

impl MapContract {
    /// The reported form of a map.
    pub fn from_map(value: &BattleMap) -> (r: MapContract)
        ensures
            r.width == value.width_spec(),
            r.height == value.height_spec(),
            pois_of(r.pois@) == value.entries(),
    {
        let pois = value.get_pois();
        let mut out: Vec<PoiContract> = Vec::new();
        let mut i: usize = 0;
        while i < pois.len()
            invariant
                i <= pois@.len(),
                out@.len() == i,
                entries_of(pois@) == value.entries(),
                pois_of(out@) =~= entries_of(pois@).take(i as int),
            decreases pois@.len() - i,
        {
            let poi = PoiContract { location: PointContract::from_point(pois[i].0), name: pois[i].1.clone() };
            out.push(poi);
            assert(pois_of(out@)[i as int] == entries_of(pois@)[i as int]);
            i = i + 1;
        }
        assert(entries_of(pois@).take(i as int) =~= entries_of(pois@));
        MapContract { width: value.get_width(), height: value.get_height(), pois: out }
    }
}

impl BattleActionContract {
    /// The reported form of a log entry.
    pub fn from_action(value: &BattleAction) -> (r: BattleActionContract)
        ensures
            reports_action(r, *value),
    {
        match value {
            BattleAction::Move(round, name, movement) => BattleActionContract::Move(
                BattleActionMoveContract {
                    round: *round,
                    combatant: name.clone(),
                    start: PointContract::from_point(movement.start),
                    end: PointContract::from_point(movement.last_position),
                    path: points_contract(&movement.steps),
                },
            ),
            BattleAction::Attack(round, blow) => BattleActionContract::Attack(
                BattleActionAttackContract {
                    round: *round,
                    attacker: blow.assailant.name.clone(),
                    attacked: blow.victim.name.clone(),
                    dmg: blow.assailant.dmg,
                    remaining_hp: blow.victim.hp,
                },
            ),
        }
    }
}

impl BattleResultContract {
    /// The report of a battle result: every combatant, the map, every log
    /// entry, the last round and the winner.
    pub fn from_result(value: &BattleResult) -> (r: BattleResultContract)
        ensures
            r.combatants@.len() == value.combatants@.len(),
            forall|i: int| 0 <= i < r.combatants@.len() ==> reports(#[trigger] r.combatants@[i], value.combatants@[i]),
            r.map.width == value.map.width_spec(),
            r.map.height == value.map.height_spec(),
            pois_of(r.map.pois@) == value.map.entries(),
            r.actions@.len() == value.actions@.len(),
            forall|i: int| 0 <= i < r.actions@.len() ==> reports_action(#[trigger] r.actions@[i], value.actions@[i]),
            r.round_number == value.round_number,
            r.winner is Some <==> value.winner is Some,
            r.winner matches Some(w) ==> reports(w, value.winner->0),
    {
        let mut combatants: Vec<CombatantContract> = Vec::new();
        let mut i: usize = 0;
        while i < value.combatants.len()
            invariant
                i <= value.combatants@.len(),
                combatants@.len() == i,
                forall|k: int| 0 <= k < i ==> reports(#[trigger] combatants@[k], value.combatants@[k]),
            decreases value.combatants@.len() - i,
        {
            combatants.push(CombatantContract::from_combatant(&value.combatants[i]));
            i = i + 1;
        }
        let mut actions: Vec<BattleActionContract> = Vec::new();
        let mut j: usize = 0;
        while j < value.actions.len()
            invariant
                j <= value.actions@.len(),
                actions@.len() == j,
                forall|k: int| 0 <= k < j ==> reports_action(#[trigger] actions@[k], value.actions@[k]),
            decreases value.actions@.len() - j,
        {
            actions.push(BattleActionContract::from_action(&value.actions[j]));
            j = j + 1;
        }
        let winner = match &value.winner {
            Some(w) => Some(CombatantContract::from_combatant(w)),
            None => None,
        };
        BattleResultContract {
            combatants,
            map: MapContract::from_map(&value.map),
            actions,
            round_number: value.round_number,
            winner,
        }
    }
}

impl CreateBattleContract {
    /// The battlefield this request asks for.
    pub fn to_battlefield(&self) -> (r: BattlefieldData)
        ensures
            r.battlefield_height == self.map.height,
            r.battlefield_width == self.map.width,
            r.combatants@.len() == self.combatants@.len(),
            forall|i: int|
                0 <= i < r.combatants@.len() ==> (#[trigger] r.combatants@[i]).name@ == self.combatants@[i].name@
                    && r.combatants@[i].hp == self.combatants@[i].hp && r.combatants@[i].dmg
                    == self.combatants@[i].dmg,
    {
        let mut combatants: Vec<Combatant> = Vec::new();
        let mut i: usize = 0;
        while i < self.combatants.len()
            invariant
                i <= self.combatants@.len(),
                combatants@.len() == i,
                forall|k: int|
                    0 <= k < i ==> (#[trigger] combatants@[k]).name@ == self.combatants@[k].name@
                        && combatants@[k].hp == self.combatants@[k].hp && combatants@[k].dmg
                        == self.combatants@[k].dmg,
            decreases self.combatants@.len() - i,
        {
            combatants.push(self.combatants[i].to_combatant());
            i = i + 1;
        }
        BattlefieldData { battlefield_height: self.map.height, battlefield_width: self.map.width, combatants }
    }
}

} // verus!
