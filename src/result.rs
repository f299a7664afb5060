//! The outcome of a finished battle.

use crate::actions::BattleAction;
use crate::battle_map::BattleMap;
use crate::combatant::Combatant;
use crate::engine::{BattleRoundState, alive_of, filter_alive};
use vstd::prelude::*;

verus! {

/// The winner among `s`: the living combatant with the most hit points,
/// the first one seen among equals; nobody when all are dead.
pub open spec fn winner_of(s: Seq<Combatant>) -> Option<Combatant>
    decreases s.len(),
{
    if s.len() == 0 {
        None
    } else {
        let best = winner_of(s.drop_last());
        let c = s.last();
        if c.hp == 0 {
            best
        } else {
            match best {
                None => Some(c),
                Some(b) => if b.hp < c.hp {
                    Some(c)
                } else {
                    best
                },
            }
        }
    }
}

/// The winner is one of the living combatants, none of them has more hit
/// points, and none of those before it has as many; there is a winner
/// exactly when someone is alive.
pub proof fn lemma_winner(s: Seq<Combatant>)
    ensures
        winner_of(s) is None <==> forall|i: int| 0 <= i < s.len() ==> s[i].hp == 0,
        winner_of(s) matches Some(w) ==> exists|i: int|
            0 <= i < s.len() && s[i] == w && w.hp != 0 && (forall|j: int| 0 <= j < i ==> #[trigger] s[j].hp < w.hp),
        winner_of(s) matches Some(w) ==> forall|i: int| 0 <= i < s.len() ==> #[trigger] s[i].hp <= w.hp,
    decreases s.len(),
{
    if s.len() > 0 {
        let t = s.drop_last();
        lemma_winner(t);
        assert forall|i: int| 0 <= i < t.len() implies t[i] == s[i] by {}
        match winner_of(t) {
            Some(b) => {
                let k = choose|i: int|
                    0 <= i < t.len() && t[i] == b && b.hp != 0 && (forall|j: int| 0 <= j < i ==> #[trigger] t[j].hp < b.hp);
                assert(s[k] == b);
                if s.last().hp != 0 && b.hp < s.last().hp {
                    assert(s[s.len() - 1] == s.last());
                }
            },
            None => {
                if s.last().hp != 0 {
                    assert(s[s.len() - 1] == s.last());
                }
            },
        }
    }
}

/// When every combatant is dead, there is no winner.
pub proof fn lemma_no_survivor_no_winner(s: Seq<Combatant>)
    requires
        forall|i: int| 0 <= i < s.len() ==> s[i].hp == 0,
    ensures
        winner_of(s) is None,
{
    lemma_winner(s);
}

/// The final state of a battle and, once analysed, its winner.
#[derive(Debug)]
pub struct BattleResult {
    pub combatants: Vec<Combatant>,
    pub map: BattleMap,
    pub actions: Vec<BattleAction>,
    pub round_number: u32,
    pub is_analyzed: bool,
    pub winner: Option<Combatant>,
}

impl BattleResult {
    /// The result of a battle that ended in `state`, not yet analysed.
    pub fn new(state: BattleRoundState) -> (r: BattleResult)
        ensures
            r.combatants@ == state.combatants@,
            r.map == state.map,
            r.actions@ == state.actions@,
            r.round_number == state.round_number,
            !r.is_analyzed,
            r.winner is None,
    {
        BattleResult {
            combatants: state.combatants,
            map: state.map,
            actions: state.actions,
            round_number: state.round_number,
            is_analyzed: false,
            winner: None,
        }
    }

    /// Marks the result analysed and names its winner.
    pub fn analyze_results(self) -> (r: BattleResult)
        ensures
            r.combatants@ == self.combatants@,
            r.map == self.map,
            r.actions@ == self.actions@,
            r.round_number == self.round_number,
            r.is_analyzed,
            r.winner == winner_of(self.combatants@),
    {
        let winner = self.determine_winner();
        BattleResult { is_analyzed: true, winner, ..self }
    }

    /// The living combatant with the most hit points, the first one among
    /// equals; nobody when all are dead.
    pub fn determine_winner(&self) -> (r: Option<Combatant>)
        ensures
            r == winner_of(self.combatants@),
            (forall|i: int| 0 <= i < self.combatants@.len() ==> self.combatants@[i].hp == 0) ==> r is None,
    {
        let mut winner: Option<Combatant> = None;
        let mut i: usize = 0;
        while i < self.combatants.len()
            invariant
                i <= self.combatants@.len(),
                winner == winner_of(self.combatants@.take(i as int)),
            decreases self.combatants@.len() - i,
        {
            assert(self.combatants@.take(i as int + 1).drop_last() =~= self.combatants@.take(i as int));
            let c = &self.combatants[i];
            if c.hp != 0 {
                let better = match &winner {
                    None => true,
                    Some(w) => w.hp < c.hp,
                };
                if better {
                    winner = Some(c.clone());
                }
            }
            i = i + 1;
        }
        assert(self.combatants@.take(i as int) =~= self.combatants@);
        proof {
            lemma_winner(self.combatants@);
        }
        winner
    }

    /// The combatants still alive.
    pub fn survivors(&self) -> (r: Vec<Combatant>)
        ensures
            r@ == alive_of(self.combatants@),
    {
        filter_alive(&self.combatants, true)
    }

    /// The number of the last round played.
    pub fn rounds_played(&self) -> (r: u32)
        ensures
            r == self.round_number,
    {
        self.round_number
    }
}

} // verus!
