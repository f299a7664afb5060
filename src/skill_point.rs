//! Skill points: a score from 0 to 10 that saturates at both ends.

use vstd::prelude::*;

verus! {

/// A skill score in `[0, 10]`.
#[derive(Debug, Clone, Copy)]
pub struct SkillPoint {
    point_value: u8,
}

/// `a + b`, capped at the maximum score.
pub open spec fn capped_sum(a: u8, b: u8) -> u8 {
    if a + b >= SkillPoint::MAX_VALUE {
        SkillPoint::MAX_VALUE
    } else {
        (a + b) as u8
    }
}

/// `a - b`, floored at the minimum score.
pub open spec fn floored_difference(a: u8, b: u8) -> u8 {
    if a <= b {
        SkillPoint::MIN_VALUE
    } else {
        (a - b) as u8
    }
}

impl SkillPoint {
    pub const MAX_VALUE: u8 = 10;

    pub const MIN_VALUE: u8 = 0;

    #[verifier::type_invariant]
    spec fn in_range(self) -> bool {
        self.point_value <= Self::MAX_VALUE
    }

    pub closed spec fn value(self) -> u8 {
        self.point_value
    }

    /// The score `v`, for `v` in range.
    pub closed spec fn of(v: u8) -> SkillPoint {
        SkillPoint { point_value: v }
    }

    /// The score that `from` gives for `v`.
    pub closed spec fn from_spec_value(v: u8) -> SkillPoint {
        SkillPoint { point_value: if v <= Self::MAX_VALUE { v } else { Self::MAX_VALUE } }
    }

    /// The highest score.
    pub fn maximum() -> (r: SkillPoint)
        ensures
            r.value() == Self::MAX_VALUE,
    {
        SkillPoint { point_value: Self::MAX_VALUE }
    }

    /// The lowest score.
    pub fn minimum() -> (r: SkillPoint)
        ensures
            r.value() == Self::MIN_VALUE,
    {
        SkillPoint { point_value: Self::MIN_VALUE }
    }

    pub fn raw_value(&self) -> (r: u8)
        ensures
            r == self.value(),
            r <= Self::MAX_VALUE,
    {
        proof {
            use_type_invariant(self);
        }
        self.point_value
    }

    /// A score of `value`; anything above the maximum becomes the maximum.
    pub fn from_raw(value: u8) -> (r: SkillPoint)
        ensures
            r == Self::from_spec_value(value),
            r.value() == (if value <= Self::MAX_VALUE {
                value
            } else {
                Self::MAX_VALUE
            }),
    {
        if value <= Self::MAX_VALUE {
            SkillPoint { point_value: value }
        } else {
            SkillPoint { point_value: Self::MAX_VALUE }
        }
    }

    /// The sum of two scores, capped at the maximum.
    pub fn add_points(self, rhs: SkillPoint) -> (r: SkillPoint)
        ensures
            r.value() == capped_sum(self.value(), rhs.value()),
            r == Self::of(capped_sum(self.value(), rhs.value())),
    {
        proof {
            use_type_invariant(&self);
            use_type_invariant(&rhs);
        }
        if self.point_value == Self::MIN_VALUE {
            SkillPoint { point_value: rhs.point_value }
        } else if self.point_value < Self::MAX_VALUE {
            let combined: u8 = self.point_value + rhs.point_value;
            if combined >= Self::MAX_VALUE {
                SkillPoint { point_value: Self::MAX_VALUE }
            } else {
                SkillPoint { point_value: combined }
            }
        } else {
            SkillPoint { point_value: Self::MAX_VALUE }
        }
    }

    /// The difference of two scores, floored at the minimum.
    pub fn sub_points(self, rhs: SkillPoint) -> (r: SkillPoint)
        ensures
            r.value() == floored_difference(self.value(), rhs.value()),
            r == Self::of(floored_difference(self.value(), rhs.value())),
    {
        proof {
            use_type_invariant(&self);
            use_type_invariant(&rhs);
        }
        if rhs.point_value == Self::MAX_VALUE {
            SkillPoint { point_value: Self::MIN_VALUE }
        } else if rhs.point_value == Self::MIN_VALUE {
            self
        } else if self.point_value >= rhs.point_value {
            SkillPoint { point_value: self.point_value - rhs.point_value }
        } else {
            SkillPoint { point_value: Self::MIN_VALUE }
        }
    }
}

impl Default for SkillPoint {
    fn default() -> (r: SkillPoint)
        ensures
            r.value() == SkillPoint::MIN_VALUE,
    {
        SkillPoint::minimum()
    }
}

impl From<u8> for SkillPoint {
    fn from(value: u8) -> (r: SkillPoint) {
        SkillPoint::from_raw(value)
    }
}

impl vstd::std_specs::convert::FromSpecImpl<u8> for SkillPoint {
    open spec fn obeys_from_spec() -> bool {
        true
    }

    open spec fn from_spec(v: u8) -> SkillPoint {
        SkillPoint::from_spec_value(v)
    }
}

impl core::ops::Add for SkillPoint {
    type Output = SkillPoint;

    fn add(self, rhs: SkillPoint) -> SkillPoint {
        self.add_points(rhs)
    }
}

impl core::ops::Sub for SkillPoint {
    type Output = SkillPoint;

    fn sub(self, rhs: SkillPoint) -> SkillPoint {
        self.sub_points(rhs)
    }
}

impl vstd::std_specs::ops::AddSpecImpl for SkillPoint {
    open spec fn obeys_add_spec() -> bool {
        true
    }

    open spec fn add_req(self, rhs: SkillPoint) -> bool {
        true
    }

    open spec fn add_spec(self, rhs: SkillPoint) -> SkillPoint {
        SkillPoint::of(capped_sum(self.value(), rhs.value()))
    }
}

impl vstd::std_specs::ops::SubSpecImpl for SkillPoint {
    open spec fn obeys_sub_spec() -> bool {
        true
    }

    open spec fn sub_req(self, rhs: SkillPoint) -> bool {
        true
    }

    open spec fn sub_spec(self, rhs: SkillPoint) -> SkillPoint {
        SkillPoint::of(floored_difference(self.value(), rhs.value()))
    }
}

impl PartialEq for SkillPoint {
    fn eq(&self, other: &SkillPoint) -> (r: bool) {
        self.point_value == other.point_value
    }
}

impl vstd::std_specs::cmp::PartialEqSpecImpl for SkillPoint {
    open spec fn obeys_eq_spec() -> bool {
        true
    }

    open spec fn eq_spec(&self, other: &SkillPoint) -> bool {
        self.value() == other.value()
    }
}

impl Eq for SkillPoint {
}

impl PartialEq<u8> for SkillPoint {
    fn eq(&self, other: &u8) -> (r: bool) {
        self.point_value == *other
    }
}

impl vstd::std_specs::cmp::PartialEqSpecImpl<u8> for SkillPoint {
    open spec fn obeys_eq_spec() -> bool {
        true
    }

    open spec fn eq_spec(&self, other: &u8) -> bool {
        self.value() == *other
    }
}

impl PartialOrd for SkillPoint {
    fn partial_cmp(&self, other: &SkillPoint) -> (r: Option<core::cmp::Ordering>) {
        if self.point_value < other.point_value {
            Some(core::cmp::Ordering::Less)
        } else if self.point_value == other.point_value {
            Some(core::cmp::Ordering::Equal)
        } else {
            Some(core::cmp::Ordering::Greater)
        }
    }
}

impl vstd::std_specs::cmp::PartialOrdSpecImpl for SkillPoint {
    open spec fn obeys_partial_cmp_spec() -> bool {
        true
    }

    open spec fn partial_cmp_spec(&self, other: &SkillPoint) -> Option<core::cmp::Ordering> {
        if self.value() < other.value() {
            Some(core::cmp::Ordering::Less)
        } else if self.value() == other.value() {
            Some(core::cmp::Ordering::Equal)
        } else {
            Some(core::cmp::Ordering::Greater)
        }
    }
}

} // verus!
