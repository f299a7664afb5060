//! A combatant's skills: strength and dexterity.

use crate::skill_point::SkillPoint;
use rand::Rng;
use vstd::prelude::*;

verus! {

/// Strength and dexterity, compared strength first.
#[derive(Debug, Clone, Copy)]
pub struct Skills {
    strength: SkillPoint,
    dexterity: SkillPoint,
}

/// Relies on rand's `thread_rng().gen_range(1..=10)`: a value in `[1, 10]`.
#[verifier::external_body]
fn random_score() -> (r: u8)
    ensures
        1 <= r <= 10,
{
    rand::thread_rng().gen_range(1..=10)
}

/// The ordering of two pairs of scores, first components first.
pub open spec fn order_of(a: (u8, u8), b: (u8, u8)) -> core::cmp::Ordering {
    if a.0 < b.0 || (a.0 == b.0 && a.1 < b.1) {
        core::cmp::Ordering::Less
    } else if a == b {
        core::cmp::Ordering::Equal
    } else {
        core::cmp::Ordering::Greater
    }
}

impl Skills {
    pub closed spec fn scores(&self) -> (u8, u8) {
        (self.strength.value(), self.dexterity.value())
    }

    /// Skills of the given scores, each capped at the maximum.
    pub fn new(strength: u8, dexterity: u8) -> (r: Skills)
        ensures
            r.scores() == (
                if strength <= SkillPoint::MAX_VALUE { strength } else { SkillPoint::MAX_VALUE },
                if dexterity <= SkillPoint::MAX_VALUE { dexterity } else { SkillPoint::MAX_VALUE },
            ),
    {
        Skills { strength: SkillPoint::from_raw(strength), dexterity: SkillPoint::from_raw(dexterity) }
    }

    pub fn strength(&self) -> (r: SkillPoint)
        ensures
            r.value() == self.scores().0,
    {
        self.strength
    }

    pub fn dexterity(&self) -> (r: SkillPoint)
        ensures
            r.value() == self.scores().1,
    {
        self.dexterity
    }
}

impl PartialEq for Skills {
    fn eq(&self, other: &Skills) -> (r: bool) {
        self.strength.raw_value() == other.strength.raw_value() && self.dexterity.raw_value()
            == other.dexterity.raw_value()
    }
}

impl vstd::std_specs::cmp::PartialEqSpecImpl for Skills {
    open spec fn obeys_eq_spec() -> bool {
        true
    }

    open spec fn eq_spec(&self, other: &Skills) -> bool {
        self.scores() == other.scores()
    }
}

impl PartialOrd for Skills {
    fn partial_cmp(&self, other: &Skills) -> (r: Option<core::cmp::Ordering>) {
        let (a0, a1) = (self.strength.raw_value(), self.dexterity.raw_value());
        let (b0, b1) = (other.strength.raw_value(), other.dexterity.raw_value());
        if a0 < b0 || (a0 == b0 && a1 < b1) {
            Some(core::cmp::Ordering::Less)
        } else if a0 == b0 && a1 == b1 {
            Some(core::cmp::Ordering::Equal)
        } else {
            Some(core::cmp::Ordering::Greater)
        }
    }
}

impl vstd::std_specs::cmp::PartialOrdSpecImpl for Skills {
    open spec fn obeys_partial_cmp_spec() -> bool {
        true
    }

    open spec fn partial_cmp_spec(&self, other: &Skills) -> Option<core::cmp::Ordering> {
        Some(order_of(self.scores(), other.scores()))
    }
}

/// Ready-made skill sets.
pub struct SkillsFactory;

impl SkillsFactory {
    /// Strength 6, dexterity 9.
    pub fn ninja(&self) -> (r: Skills)
        ensures
            r.scores() == (6u8, 9u8),
    {
        Skills::new(6, 9)
    }

    /// Random scores from 1 to 10.
    pub fn random(&self) -> (r: Skills)
        ensures
            1 <= r.scores().0 <= 10,
            1 <= r.scores().1 <= 10,
    {
        Skills::new(random_score(), random_score())
    }
}

} // verus!
