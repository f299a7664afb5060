use battle_kernel::combatant::Combatant;

fn combatant(name: &str, dmg: u16, hp: u16) -> Combatant {
    Combatant { name: name.to_owned(), dmg, hp }
}

#[test]
fn is_alive_hp_0() {
    let test_object = combatant("test", 2, 0);
    assert!(!test_object.is_alive());
}

#[test]
fn is_alive_hp_min() {
    let test_object = combatant("test", 2, u16::MIN);
    assert!(!test_object.is_alive());
}

#[test]
fn apply_damage_hp_left() {
    let mut test_object = combatant("test", 2, 15);
    test_object.apply_damage(5);
    assert_eq!(10, test_object.hp);
}

#[test]
fn apply_damage_hp_gone() {
    let mut test_object = combatant("test", 2, 15);
    test_object.apply_damage(15);

    assert_eq!(0, test_object.hp);
    assert_eq!(u16::MIN, test_object.hp);
    assert!(!test_object.is_alive());
}

#[test]
fn apply_damage_dmg_higher_than_hp() {
    let mut test_object = combatant("test", 2, 15);
    test_object.apply_damage(u16::MAX);

    assert_eq!(0, test_object.hp);
    assert_eq!(u16::MIN, test_object.hp);
    assert!(!test_object.is_alive());
}

#[test]
fn partial_eq() {
    let c1 = combatant("test", 2, 15);
    assert_eq!(c1, c1);
}

#[test]
fn partial_eq_only_name_checked() {
    let c1 = combatant("c1", 5, 10);
    let c2 = combatant("c1", 2, 20);
    assert_eq!(c1, c2);
}

#[test]
fn different_names_differ() {
    assert_ne!(combatant("a", 1, 1), combatant("b", 1, 1));
}

#[test]
fn apply_damage_keeps_name_and_dmg() {
    let mut c = combatant("keep", 7, 3);
    c.apply_damage(1);
    assert_eq!(c.hp, 2);
    assert_eq!(c.dmg, 7);
    assert_eq!(c.name, "keep");
    assert!(c.is_alive());
}
