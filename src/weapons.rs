//! Weapons of the skill-based combat model.

use crate::skills::Skills;
use vstd::prelude::*;

verus! {

/// How a blow hurts.
#[derive(Debug, Clone, Copy, PartialEq, Eq, Structural, Default)]
pub enum DamageType {
    #[default]
    Piercing,
    Slashing,
}

/// A weapon's name and the damage it deals before any roll.
#[derive(Debug)]
pub struct WeaponStats {
    pub name: String,
    pub base_damage: u16,
}

/// A firearm with a clip.
#[derive(Debug)]
pub struct Gun {
    stats: WeaponStats,
    clip_size: u16,
    rate_of_fire: u8,
    shots_remaining: u16,
    min_skill: Option<Skills>,
}

/// A melee weapon.
#[derive(Debug)]
pub struct Blade {
    stats: WeaponStats,
    min_skill: Option<Skills>,
}

/// Any weapon a player can carry.
#[derive(Debug)]
pub enum Weapon {
    Gun(Gun),
    Blade(Blade),
}

impl Gun {
    pub closed spec fn clip_size_spec(&self) -> u16 {
        self.clip_size
    }

    pub closed spec fn rate_of_fire_spec(&self) -> u8 {
        self.rate_of_fire
    }

    pub closed spec fn shots_remaining_spec(&self) -> u16 {
        self.shots_remaining
    }

    pub closed spec fn base_damage_spec(&self) -> u16 {
        self.stats.base_damage
    }

    pub closed spec fn stats_spec(&self) -> WeaponStats {
        self.stats
    }

    pub closed spec fn min_skill_spec(&self) -> Option<Skills> {
        self.min_skill
    }

    /// Shots per attack: the rate of fire, but never more than a clip.
    pub fn normalized_rate_of_fire(&self) -> (r: i32)
        ensures
            r == (if self.clip_size_spec() <= self.rate_of_fire_spec() {
                self.clip_size_spec() as i32
            } else {
                self.rate_of_fire_spec() as i32
            }),
    {
        if self.clip_size <= self.rate_of_fire as u16 {
            self.clip_size as i32
        } else {
            self.rate_of_fire as i32
        }
    }

    /// Fills the clip.
    pub fn reload(&mut self)
        ensures
            final(self).shots_remaining_spec() == old(self).clip_size_spec(),
            final(self).clip_size_spec() == old(self).clip_size_spec(),
            final(self).rate_of_fire_spec() == old(self).rate_of_fire_spec(),
            final(self).stats_spec() == old(self).stats_spec(),
            final(self).min_skill_spec() == old(self).min_skill_spec(),
    {
        self.shots_remaining = self.clip_size;
    }

    /// No shot is left.
    pub fn is_clip_empty(&self) -> (r: bool)
        ensures
            r == (self.shots_remaining_spec() == 0),
    {
        self.shots_remaining == 0
    }
}

/// Ready-made guns.
pub struct GunFactory;

impl GunFactory {
    /// A pistol: 108 base damage, a clip of 7, one shot per attack.
    pub fn m_10af_lexington(&self) -> (r: Gun)
        ensures
            r.base_damage_spec() == 108,
            r.clip_size_spec() == 7,
            r.shots_remaining_spec() == 7,
            r.rate_of_fire_spec() == 1,
    {
        Gun {
            stats: WeaponStats { name: String::from_str("m 10AF Lexington"), base_damage: 108 },
            shots_remaining: 7,
            clip_size: 7,
            rate_of_fire: 1,
            min_skill: Some(Skills::new(3, 3)),
        }
    }
}

impl Blade {
    pub closed spec fn base_damage_spec(&self) -> u16 {
        self.stats.base_damage
    }

    pub closed spec fn min_skill_spec(&self) -> Option<Skills> {
        self.min_skill
    }
}

/// Ready-made blades.
pub struct BladeFactory;

impl BladeFactory {
    /// A katana: 100 base damage, strength 2 and dexterity 6 needed.
    pub fn katana(&self) -> (r: Blade)
        ensures
            r.base_damage_spec() == 100,
            r.min_skill_spec() matches Some(s) && s.scores() == (2u8, 6u8),
    {
        Blade {
            stats: WeaponStats { name: String::from_str("Katana"), base_damage: 100 },
            min_skill: Some(Skills::new(2, 6)),
        }
    }
}

} // verus!
