//! The round log and roster of the skill-based combat model.

use crate::player::Player;
use vstd::prelude::*;

verus! {

/// One line of a round's log: who struck whom for how much, or who did
/// nothing.
#[derive(Debug, PartialEq, Eq)]
pub enum BattleRoundAction {
    Attack(String, String, u16),
    Inaction(String),
}

/// A round's number and its log.
#[derive(Debug)]
pub struct BattleRoundResults {
    pub round_num: u16,
    pub actions: Vec<BattleRoundAction>,
}

/// The players of a battle, at most one per name.
#[derive(Debug)]
pub struct BattleField {
    players: Vec<Player>,
}

impl BattleRoundResults {
    /// An empty log for round `round_num`.
    pub fn new(round_num: u16) -> (r: BattleRoundResults)
        ensures
            r.round_num == round_num,
            r.actions@.len() == 0,
    {
        BattleRoundResults { round_num, actions: Vec::new() }
    }

    /// Logs a blow.
    pub fn add_action(&mut self, player_identifier: String, target_identifier: String, dmg_taken: u16)
        ensures
            final(self).round_num == old(self).round_num,
            final(self).actions@ == old(self).actions@.push(
                BattleRoundAction::Attack(player_identifier, target_identifier, dmg_taken),
            ),
    {
        self.actions.push(BattleRoundAction::Attack(player_identifier, target_identifier, dmg_taken));
    }

    /// Logs that a player did nothing.
    pub fn add_inaction(&mut self, player_identifier: String)
        ensures
            final(self).round_num == old(self).round_num,
            final(self).actions@ == old(self).actions@.push(BattleRoundAction::Inaction(player_identifier)),
    {
        self.actions.push(BattleRoundAction::Inaction(player_identifier));
    }
}

/// The names of a list of players.
pub open spec fn player_names(v: Seq<Player>) -> Seq<Seq<char>> {
    v.map_values(|p: Player| p.name_spec())
}

impl BattleField {
    pub closed spec fn players_spec(&self) -> Seq<Player> {
        self.players@
    }

    /// A battlefield without players.
    pub fn new() -> (r: BattleField)
        ensures
            r.players_spec().len() == 0,
    {
        BattleField { players: Vec::new() }
    }

    /// The players, in the order they joined.
    pub fn players(&self) -> (r: &Vec<Player>)
        ensures
            r@ == self.players_spec(),
    {
        &self.players
    }

    /// Adds `player`, replacing any player of the same name.
    pub fn add_player(&mut self, player: Player)
        requires
            player_names(old(self).players_spec()).no_duplicates(),
        ensures
            player_names(final(self).players_spec()).no_duplicates(),
            final(self).players_spec().contains(player),
            forall|p: Player|
                #[trigger] old(self).players_spec().contains(p) && p.name_spec() != player.name_spec()
                    ==> final(self).players_spec().contains(p),
            forall|p: Player|
                #[trigger] final(self).players_spec().contains(p) ==> p == player || old(self).players_spec().contains(p),
    {
        let name = player.name();
        let mut i: usize = 0;
        while i < self.players.len()
            invariant
                i <= self.players@.len(),
                self.players@ == old(self).players@,
                name@ == player.name_spec(),
                player_names(old(self).players_spec()).no_duplicates(),
                forall|k: int| 0 <= k < i ==> self.players@[k].name_spec() != name@,
            decreases self.players@.len() - i,
        {
            if self.players[i].name() == name {
                let ghost before = self.players@;
                self.players.set(i, player);
                proof {
                    let names = player_names(before);
                    assert(player_names(self.players@) =~= names);
                    assert(self.players@[i as int] == player);
                    assert forall|p: Player|
                        #[trigger] before.contains(p) && p.name_spec() != player.name_spec()
                            implies self.players@.contains(p) by {
                        let k = choose|k: int| 0 <= k < before.len() && before[k] == p;
                        assert(k != i);
                        assert(self.players@[k] == p);
                    }
                    assert forall|p: Player| #[trigger] self.players@.contains(p) implies p == player || before.contains(p) by {
                        let k = choose|k: int| 0 <= k < self.players@.len() && self.players@[k] == p;
                        if k != i {
                            assert(before[k] == p);
                        }
                    }
                }
                return;
            }
            i = i + 1;
        }
        let ghost before = self.players@;
        self.players.push(player);
        proof {
            let names = player_names(before);
            assert(player_names(self.players@) =~= names.push(player.name_spec()));
            assert forall|a: int, b: int|
                0 <= a < names.len() + 1 && 0 <= b < names.len() + 1 && a != b implies names.push(
                    player.name_spec(),
                )[a] != names.push(player.name_spec())[b] by {
                if a < names.len() && b < names.len() {
                    assert(names[a] != names[b]);
                } else if a < names.len() {
                    assert(before[a].name_spec() != name@);
                } else {
                    assert(before[b].name_spec() != name@);
                }
            }
            assert(self.players@[before.len() as int] == player);
            assert forall|p: Player| #[trigger] self.players@.contains(p) implies p == player || before.contains(p) by {
                let k = choose|k: int| 0 <= k < self.players@.len() && self.players@[k] == p;
                if k < before.len() {
                    assert(before[k] == p);
                }
            }
            assert forall|p: Player| #[trigger] before.contains(p) && p.name_spec() != player.name_spec() implies self.players@.contains(p) by {
                let k = choose|k: int| 0 <= k < before.len() && before[k] == p;
                assert(self.players@[k] == p);
            }
        }
    }
}

} // verus!
