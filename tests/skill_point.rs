use battle_kernel::skill_point::SkillPoint;

#[test]
fn add() {
    assert_eq!(SkillPoint::maximum(), SkillPoint::maximum() + SkillPoint::maximum());
    assert_eq!(SkillPoint::minimum(), SkillPoint::minimum() + SkillPoint::minimum());
    assert_eq!(SkillPoint::maximum(), SkillPoint::maximum() + SkillPoint::minimum());
    assert_eq!(SkillPoint::maximum(), SkillPoint::minimum() + SkillPoint::maximum());
    assert_eq!(SkillPoint::maximum(), SkillPoint::from(6) + SkillPoint::from(6));
    assert_eq!(SkillPoint::from(6), SkillPoint::from(3) + SkillPoint::from(3));
    assert_eq!(SkillPoint::from(3), SkillPoint::from(3) + SkillPoint::minimum());
    assert_eq!(SkillPoint::from(3), SkillPoint::minimum() + SkillPoint::from(3));
}

#[test]
fn sub() {
    assert_eq!(SkillPoint::minimum(), SkillPoint::maximum() - SkillPoint::maximum());
    assert_eq!(SkillPoint::maximum(), SkillPoint::maximum() - SkillPoint::minimum());
    assert_eq!(SkillPoint::from(3), SkillPoint::from(6) - SkillPoint::from(3));
    assert_eq!(SkillPoint::minimum(), SkillPoint::from(3) - SkillPoint::from(6));
}

#[test]
fn from_min_value() {
    assert_eq!(SkillPoint::minimum(), SkillPoint::from(u8::MIN));
}

#[test]
fn from_max_value() {
    assert_eq!(SkillPoint::maximum(), SkillPoint::from(u8::MAX));
}

#[test]
fn skillpoint_from_upper_bound() {
    assert_eq!(SkillPoint::maximum(), SkillPoint::from(SkillPoint::MAX_VALUE));
}

#[test]
fn eq_pass() {
    let s1: SkillPoint = SkillPoint::from(3);
    let s2: SkillPoint = SkillPoint::from(3);

    assert_eq!(true, s1 == s2);
    assert_eq!(false, s1 != s2);
}

#[test]
fn eq_with_u8() {
    let s1: SkillPoint = SkillPoint::from(3);

    assert_eq!(true, s1 == 3);
    assert_eq!(false, s1 == u8::MAX);
}

#[test]
fn eq_fail() {
    let s1: SkillPoint = SkillPoint::from(3);
    let s2: SkillPoint = SkillPoint::from(4);

    assert_eq!(false, s1 == s2);
    assert_eq!(true, s1 != s2);
}

#[test]
fn eq_max() {
    assert_eq!(true, SkillPoint::maximum() == SkillPoint::maximum());
    assert_eq!(true, SkillPoint::maximum() != SkillPoint::minimum());
    assert_eq!(false, SkillPoint::maximum() == SkillPoint::minimum());
}

#[test]
fn eq_min() {
    assert_eq!(true, SkillPoint::minimum() == SkillPoint::minimum());
    assert_eq!(true, SkillPoint::maximum() != SkillPoint::minimum());
}

#[test]
fn ord() {
    let s1: SkillPoint = SkillPoint::from(3);
    let s2: SkillPoint = SkillPoint::from(4);

    assert_eq!(true, s1 < s2);
    assert_eq!(true, s1 <= s1);
}

#[test]
fn raw_value_and_default() {
    assert_eq!(SkillPoint::from(7).raw_value(), 7);
    assert_eq!(SkillPoint::from(11).raw_value(), 10);
    assert_eq!(SkillPoint::default().raw_value(), 0);
}
