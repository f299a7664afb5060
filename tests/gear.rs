#![allow(non_snake_case)]

use battle_kernel::battlefield::{BattleField, BattleRoundAction, BattleRoundResults};
use battle_kernel::hit_damage::HitDamage;
use battle_kernel::player::{Armor, Player};
use battle_kernel::skills::SkillsFactory;
use battle_kernel::weapons::{BladeFactory, GunFactory, Weapon};

#[test]
fn hitDamage_from_in_range() {
    assert_eq!(15, HitDamage::from(15).value);
}

#[test]
fn hitDamage_from_upper_bound() {
    assert_eq!(HitDamage::MAX_VALUE, HitDamage::from(HitDamage::maximum()).value);
}

#[test]
fn hitDamage_from_above_upper_bound() {
    assert_eq!(HitDamage::MAX_VALUE, HitDamage::from(i16::MAX).value);
}

#[test]
fn hitDamage_from_lower_bound() {
    assert_eq!(HitDamage::MIN_VALUE, HitDamage::from(HitDamage::minimum()).value);
}

#[test]
fn hitDamage_from_below_lower_bound() {
    assert_eq!(HitDamage::MIN_VALUE, HitDamage::from(i16::MIN).value);
}

#[test]
fn hitDamage_add_assign_in_bound() {
    let mut hd1 = HitDamage::default();
    let hd2 = HitDamage::from(12);
    hd1 += hd2;
    assert_eq!(12, hd1.value);
}

#[test]
fn hit_damage_sum_caps_at_maximum() {
    assert_eq!((HitDamage::from(9000) + HitDamage::from(2000)).value, HitDamage::MAX_VALUE);
    assert_eq!((HitDamage::from(-20) + HitDamage::from(5)).value, -15);
}

#[test]
fn armor_incoming_damage_reduced() {
    let armor = Armor::new(5, false);
    assert_eq!(armor.reduction, 5);
    assert!(!armor.allow_heal);
}

#[test]
fn armor_reduce_damage_past_zero_piercing() {
    let armor = Armor::new(-3, true);
    assert_eq!(armor.reduction, -3);
    assert!(armor.allow_heal);
}

#[test]
fn armor_reduce_damage_past_zero_slashing() {
    let armor = Armor::new(i16::MAX, false);
    assert_eq!(armor.reduction, i16::MAX);
}

#[test]
fn armor_reduce_all_damage_then_miss() {
    let armor = Armor::new(0, false);
    assert_eq!(armor.reduction, 0);
}

#[test]
fn test_calculate_hit_damage() {
    let mut gun = GunFactory.m_10af_lexington();
    assert_eq!(gun.normalized_rate_of_fire(), 1);
    assert!(!gun.is_clip_empty());
    gun.reload();
    assert!(!gun.is_clip_empty());
}

#[test]
fn player_gear() {
    let player = Player::new(String::from("p"), SkillsFactory.ninja(), 3)
        .add_weapon(Weapon::Blade(BladeFactory.katana()))
        .add_armor(Armor::new(2, false));
    assert_eq!(player.name(), "p");
    assert!(player.is_alive());
    let mut player = player;
    assert!(matches!(player.weapon_mut(), Some(Weapon::Blade(_))));
    *player.weapon_mut() = None;
    assert!(player.weapon_mut().is_none());
    assert!(!Player::new(String::from("q"), SkillsFactory.ninja(), 0).is_alive());
}

#[test]
fn round_log_records_blows_and_idling() {
    let mut log = BattleRoundResults::new(3);
    log.add_action(String::from("a"), String::from("b"), 12);
    log.add_inaction(String::from("c"));
    assert_eq!(log.round_num, 3);
    assert_eq!(
        log.actions,
        vec![
            BattleRoundAction::Attack(String::from("a"), String::from("b"), 12),
            BattleRoundAction::Inaction(String::from("c")),
        ]
    );
}

#[test]
fn battlefield_keeps_one_player_per_name() {
    let mut field = BattleField::new();
    field.add_player(Player::new(String::from("a"), SkillsFactory.ninja(), 5));
    field.add_player(Player::new(String::from("b"), SkillsFactory.ninja(), 5));
    field.add_player(Player::new(String::from("a"), SkillsFactory.ninja(), 0));
    let players = field.players();
    assert_eq!(players.len(), 2);
    assert!(!players.iter().find(|p| p.name() == "a").unwrap().is_alive());
}
