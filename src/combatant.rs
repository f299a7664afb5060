//! The fighters of a battle.

use vstd::prelude::*;

verus! {

/// A fighter, identified by its name. It never leaves the battle; it is
/// dead once its hit points reach zero.
#[derive(Debug)]
pub struct Combatant {
    pub name: String,
    pub hp: u16,
    pub dmg: u16,
}

/// Hit points left after taking `damage`, floored at zero.
pub open spec fn hp_after(hp: u16, damage: u16) -> u16 {
    if damage >= hp {
        0
    } else {
        (hp - damage) as u16
    }
}

impl Combatant {
    /// The combatant can still take part in the battle.
    pub fn is_alive(&self) -> (r: bool)
        ensures
            r == (self.hp != 0),
    {
        self.hp != 0
    }

    /// Takes `damage` off the hit points, stopping at zero.
    pub fn apply_damage(&mut self, damage: u16)
        ensures
            final(self).hp == hp_after(old(self).hp, damage),
            final(self).name == old(self).name,
            final(self).dmg == old(self).dmg,
    {
        if damage >= self.hp {
            self.hp = 0;
        } else {
            self.hp = self.hp - damage;
        }
    }
}

impl Clone for Combatant {
    fn clone(&self) -> (r: Combatant)
        ensures
            r == *self,
    {
        Combatant { name: self.name.clone(), hp: self.hp, dmg: self.dmg }
    }
}

impl PartialEq for Combatant {
    /// Two combatants are the same when their names are.
    fn eq(&self, other: &Combatant) -> (r: bool) {
        self.name == other.name
    }
}

impl vstd::std_specs::cmp::PartialEqSpecImpl for Combatant {
    open spec fn obeys_eq_spec() -> bool {
        true
    }

    open spec fn eq_spec(&self, other: &Combatant) -> bool {
        self.name@ == other.name@
    }
}

impl Eq for Combatant {
}

} // verus!
