//! The log of what happened in a battle.

use crate::combatant::Combatant;
use crate::movement::MovementResult;
use vstd::prelude::*;

verus! {

/// One entry of the battle log, tagged with its round number.
#[derive(Debug)]
pub enum BattleAction {
    /// A combatant, by name, walked.
    Move(u32, String, MovementResult),
    /// A combatant struck another.
    Attack(u32, BattleAttackAction),
}

/// Who struck whom, for how much; `victim` is as it was after the blow.
#[derive(Debug)]
pub struct BattleAttackAction {
    pub assailant: Combatant,
    pub victim: Combatant,
    pub damage: u16,
}

impl Clone for BattleAttackAction {
    fn clone(&self) -> (r: BattleAttackAction)
        ensures
            r == *self,
    {
        BattleAttackAction { assailant: self.assailant.clone(), victim: self.victim.clone(), damage: self.damage }
    }
}

/// The round an entry belongs to.
pub open spec fn round_of(x: BattleAction) -> u32 {
    match x {
        BattleAction::Move(r, _, _) => r,
        BattleAction::Attack(r, _) => r,
    }
}

/// The name of the combatant an entry is about: who walked, or who
/// struck.
pub open spec fn actor_of(x: BattleAction) -> Seq<char> {
    match x {
        BattleAction::Move(_, n, _) => n@,
        BattleAction::Attack(_, b) => b.assailant.name@,
    }
}

/// `a` and `b` say the same: equal rounds, names, points and combatants.
pub open spec fn same_action(a: BattleAction, b: BattleAction) -> bool {
    match (a, b) {
        (BattleAction::Move(ra, na, ma), BattleAction::Move(rb, nb, mb)) => ra == rb && na@ == nb@
            && ma.start == mb.start && ma.goal == mb.goal && ma.last_position == mb.last_position
            && ma.steps@ == mb.steps@,
        (BattleAction::Attack(ra, aa), BattleAction::Attack(rb, ab)) => ra == rb && aa == ab,
        _ => false,
    }
}

/// Two logs say the same, entry by entry.
pub open spec fn same_log(a: Seq<BattleAction>, b: Seq<BattleAction>) -> bool {
    a.len() == b.len() && forall|i: int| 0 <= i < a.len() ==> same_action(#[trigger] a[i], b[i])
}

impl Clone for BattleAction {
    fn clone(&self) -> (r: BattleAction)
        ensures
            same_action(r, *self),
    {
        match self {
            BattleAction::Move(round, name, movement) => BattleAction::Move(*round, name.clone(), movement.clone()),
            BattleAction::Attack(round, attack) => BattleAction::Attack(*round, attack.clone()),
        }
    }
}

/// A copy of a log.
pub fn copy_log(log: &Vec<BattleAction>) -> (r: Vec<BattleAction>)
    ensures
        same_log(r@, log@),
{
    let mut out: Vec<BattleAction> = Vec::new();
    let mut i: usize = 0;
    while i < log.len()
        invariant
            i <= log@.len(),
            out@.len() == i,
            forall|k: int| 0 <= k < i ==> same_action(#[trigger] out@[k], log@[k]),
        decreases log@.len() - i,
    {
        out.push(log[i].clone());
        i = i + 1;
    }
    out
}

} // verus!
