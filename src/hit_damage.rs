//! Damage in hit points, from -9999 to 9999; a negative amount heals.

use vstd::prelude::*;

verus! {

/// An amount of damage.
#[derive(Debug, Clone, Copy, PartialEq, Eq, Structural)]
pub struct HitDamage {
    pub value: i16,
}

/// `v` clamped to `[MIN_VALUE, MAX_VALUE]`.
pub open spec fn clamped(v: i16) -> i16 {
    if v > HitDamage::MAX_VALUE {
        HitDamage::MAX_VALUE
    } else if v < HitDamage::MIN_VALUE {
        HitDamage::MIN_VALUE
    } else {
        v
    }
}

/// The sum of two amounts; a sum above the maximum, or beyond what an
/// `i16` holds, becomes the maximum.
pub open spec fn damage_sum(a: i16, b: i16) -> i16 {
    if a + b > HitDamage::MAX_VALUE || a + b < i16::MIN {
        HitDamage::MAX_VALUE
    } else {
        (a + b) as i16
    }
}

impl HitDamage {
    pub const MAX_VALUE: i16 = 9999;

    pub const MIN_VALUE: i16 = -9999;

    /// The largest amount.
    pub fn maximum() -> (r: HitDamage)
        ensures
            r.value == Self::MAX_VALUE,
    {
        HitDamage { value: Self::MAX_VALUE }
    }

    /// The smallest amount.
    pub fn minimum() -> (r: HitDamage)
        ensures
            r.value == Self::MIN_VALUE,
    {
        HitDamage { value: Self::MIN_VALUE }
    }

    /// `value`, clamped to the range.
    pub fn from_raw(value: i16) -> (r: HitDamage)
        ensures
            r.value == clamped(value),
    {
        if value > Self::MAX_VALUE {
            Self::maximum()
        } else if value < Self::MIN_VALUE {
            Self::minimum()
        } else {
            HitDamage { value }
        }
    }

    /// The sum of two amounts.
    pub fn plus(self, rhs: HitDamage) -> (r: HitDamage)
        ensures
            r.value == damage_sum(self.value, rhs.value),
    {
        let sum: i32 = self.value as i32 + rhs.value as i32;
        if sum > Self::MAX_VALUE as i32 || sum < i16::MIN as i32 {
            Self::maximum()
        } else {
            HitDamage { value: sum as i16 }
        }
    }
}

impl Default for HitDamage {
    fn default() -> (r: HitDamage)
        ensures
            r.value == 0,
    {
        HitDamage { value: 0 }
    }
}

impl From<i16> for HitDamage {
    fn from(value: i16) -> (r: HitDamage) {
        HitDamage::from_raw(value)
    }
}

impl vstd::std_specs::convert::FromSpecImpl<i16> for HitDamage {
    open spec fn obeys_from_spec() -> bool {
        true
    }

    open spec fn from_spec(v: i16) -> HitDamage {
        HitDamage { value: clamped(v) }
    }
}

impl core::ops::Add for HitDamage {
    type Output = HitDamage;

    fn add(self, rhs: HitDamage) -> HitDamage {
        self.plus(rhs)
    }
}

impl vstd::std_specs::ops::AddSpecImpl for HitDamage {
    open spec fn obeys_add_spec() -> bool {
        true
    }

    open spec fn add_req(self, rhs: HitDamage) -> bool {
        true
    }

    open spec fn add_spec(self, rhs: HitDamage) -> HitDamage {
        HitDamage { value: damage_sum(self.value, rhs.value) }
    }
}

impl core::ops::AddAssign for HitDamage {
    fn add_assign(&mut self, rhs: HitDamage) {
        *self = self.plus(rhs);
    }
}

} // verus!
