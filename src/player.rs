//! Players of the skill-based combat model.

use crate::skills::Skills;
use crate::weapons::Weapon;
use vstd::prelude::*;

verus! {

/// Armour that takes `reduction` off each blow; `allow_heal` says whether
/// a reduction past zero may heal.
#[derive(Debug, Clone, Copy)]
pub struct Armor {
    pub reduction: i16,
    pub allow_heal: bool,
}

impl Armor {
    pub fn new(reduction: i16, allow_heal: bool) -> (r: Armor)
        ensures
            r.reduction == reduction,
            r.allow_heal == allow_heal,
    {
        Armor { reduction, allow_heal }
    }
}

/// A named fighter with skills, hit points and optional gear.
#[derive(Debug)]
pub struct Player {
    name: String,
    skills: Skills,
    hit_points: u16,
    weapon: Option<Weapon>,
    armor: Option<Armor>,
}

impl Player {
    pub closed spec fn name_spec(&self) -> Seq<char> {
        self.name@
    }

    pub closed spec fn skills_spec(&self) -> Skills {
        self.skills
    }

    pub closed spec fn hit_points_spec(&self) -> u16 {
        self.hit_points
    }

    pub closed spec fn weapon_spec(&self) -> Option<Weapon> {
        self.weapon
    }

    pub closed spec fn armor_spec(&self) -> Option<Armor> {
        self.armor
    }

    /// A player without weapon or armour.
    pub fn new(name: String, skills: Skills, hit_points: u16) -> (r: Player)
        ensures
            r.name_spec() == name@,
            r.skills_spec() == skills,
            r.hit_points_spec() == hit_points,
            r.weapon_spec() is None,
            r.armor_spec() is None,
    {
        Player { name, skills, hit_points, weapon: None, armor: None }
    }

    pub fn name(&self) -> (r: String)
        ensures
            r@ == self.name_spec(),
    {
        self.name.clone()
    }

    /// The same player, carrying `weapon`.
    pub fn add_weapon(self, weapon: Weapon) -> (r: Player)
        ensures
            r.name_spec() == self.name_spec(),
            r.skills_spec() == self.skills_spec(),
            r.hit_points_spec() == self.hit_points_spec(),
            r.weapon_spec() == Some(weapon),
            r.armor_spec() == self.armor_spec(),
    {
        Player { weapon: Some(weapon), ..self }
    }

    /// The same player, wearing `armor`.
    pub fn add_armor(self, armor: Armor) -> (r: Player)
        ensures
            r.name_spec() == self.name_spec(),
            r.skills_spec() == self.skills_spec(),
            r.hit_points_spec() == self.hit_points_spec(),
            r.weapon_spec() == self.weapon_spec(),
            r.armor_spec() == Some(armor),
    {
        Player { armor: Some(armor), ..self }
    }

    /// The weapon slot, for changing it in place.
    pub fn weapon_mut(&mut self) -> (r: &mut Option<Weapon>)
        ensures
            *r == old(self).weapon_spec(),
            final(self).weapon_spec() == *final(r),
            final(self).name_spec() == old(self).name_spec(),
            final(self).hit_points_spec() == old(self).hit_points_spec(),
    {
        &mut self.weapon
    }

    /// The player has hit points left.
    pub fn is_alive(&self) -> (r: bool)
        ensures
            r == (self.hit_points_spec() > 0),
    {
        self.hit_points > 0
    }
}

} // verus!
