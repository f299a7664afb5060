use battle_kernel::skills::{Skills, SkillsFactory};

#[test]
fn skills_eq() {
    let s1 = Skills::new(3, 3);
    let s2 = Skills::new(4, 4);

    assert_eq!(false, s1 == s2);
    assert_eq!(true, s1 != s2);
    assert_eq!(true, s1 == s1);
}

#[test]
fn skills_ord_same_values() {
    let s1 = Skills::new(3, 3);
    let s2 = Skills::new(4, 4);

    assert_eq!(true, s1 < s2);
    assert_eq!(true, s1 <= s2);
    assert_eq!(true, s1 <= s1);
    assert_eq!(true, s1 >= s1);
}

#[test]
fn skills_ord_different_values() {
    let s1 = Skills::new(3, 4);
    let s2 = Skills::new(5, 4);

    assert_eq!(true, s1 < s2);
    assert_eq!(true, s1 <= s2);
    assert_eq!(false, s2 < s1);
    assert_eq!(false, s2 <= s1);
}

#[test]
fn factory_skills() {
    let ninja = SkillsFactory.ninja();
    assert_eq!(ninja.strength().raw_value(), 6);
    assert_eq!(ninja.dexterity().raw_value(), 9);
    let r = SkillsFactory.random();
    assert!((1..=10).contains(&r.strength().raw_value()));
    assert!((1..=10).contains(&r.dexterity().raw_value()));
    assert_eq!(Skills::new(20, 1).strength().raw_value(), 10);
}
