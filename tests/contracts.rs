use battle_kernel::actions::{BattleAction, BattleAttackAction};
use battle_kernel::battle_map::BattleMap;
use battle_kernel::combatant::Combatant;
use battle_kernel::contracts::{
    BattleActionContract, BattleBapContract, BattleResultContract, CombatantContract, CreateBattleContract,
};
use battle_kernel::engine::BattleRoundState;
use battle_kernel::movement::MovementEngine;
use battle_kernel::point::Point;
use battle_kernel::result::BattleResult;

fn combatant(name: &str, dmg: u16, hp: u16) -> Combatant {
    Combatant { name: name.to_owned(), dmg, hp }
}

#[test]
fn request_becomes_battlefield() {
    let request = CreateBattleContract {
        map: BattleBapContract { height: 8, width: 6 },
        combatants: vec![CombatantContract { name: String::from("a"), id: Some(String::from("x")), hp: 3, dmg: 2 }],
    };
    let data = request.to_battlefield();
    assert_eq!(data.battlefield_height, 8);
    assert_eq!(data.battlefield_width, 6);
    assert_eq!(data.combatants[0].name, "a");
    assert_eq!(data.combatants[0].hp, 3);
    assert_eq!(data.combatants[0].dmg, 2);
}

#[test]
fn result_report_carries_everything() {
    let mut map = BattleMap::new(5, 5);
    map.place(String::from("a"), Point::new(1, 2)).unwrap();
    let movement = MovementEngine::new(Point::new(0, 0), vec![Point::new(0, 4)], Some(3)).do_move();
    let blow = BattleAttackAction { assailant: combatant("a", 7, 9), victim: combatant("b", 1, 3), damage: 7 };
    let state = BattleRoundState {
        combatants: vec![combatant("a", 7, 9), combatant("b", 1, 3)],
        map,
        actions: vec![BattleAction::Move(1, String::from("a"), movement), BattleAction::Attack(2, blow)],
        round_number: 2,
    };
    let result = BattleResult::new(state).analyze_results();
    let report = BattleResultContract::from_result(&result);
    assert_eq!(report.round_number, 2);
    assert_eq!(report.combatants.len(), 2);
    assert_eq!(report.combatants[1].hp, 3);
    assert_eq!(report.winner.as_ref().unwrap().name, "a");
    assert_eq!(report.map.pois.len(), 1);
    assert_eq!((report.map.pois[0].location.x, report.map.pois[0].location.y), (1, 2));
    match &report.actions[0] {
        BattleActionContract::Move(m) => {
            assert_eq!((m.end.x, m.end.y), (0, 3));
            assert_eq!(m.path.len(), 3);
        }
        BattleActionContract::Attack(_) => panic!("a move was logged first"),
    }
    match &report.actions[1] {
        BattleActionContract::Attack(t) => {
            assert_eq!(t.attacker, "a");
            assert_eq!(t.attacked, "b");
            assert_eq!(t.dmg, 7);
            assert_eq!(t.remaining_hp, 3);
            assert_eq!(t.round, 2);
        }
        BattleActionContract::Move(_) => panic!("an attack was logged second"),
    }
    assert!(CombatantContract::from_option(None).is_none());
}
