use battle_kernel::actions::BattleAction;
use battle_kernel::battle_map::BattleMap;
use battle_kernel::combatant::Combatant;
use battle_kernel::engine::{BattleEngine, BattleRound, BattleRoundState, BattlefieldData};
use battle_kernel::err::Error;
use battle_kernel::point::Point;
use battle_kernel::result::BattleResult;
use battle_kernel::turn::CombatantTurn;

fn combatant(name: &str, dmg: u16, hp: u16) -> Combatant {
    Combatant { name: name.to_owned(), dmg, hp }
}

#[test]
fn do_battle() {
    let engine = BattleEngine::new(BattlefieldData {
        battlefield_height: 10,
        battlefield_width: 10,
        combatants: vec![combatant("test1", 2, 15), combatant("test2", 4, 10), combatant("test3", 2, 15)],
    });

    let results = engine.unwrap().start_battle();

    assert!(results.is_ok());

    let r = results.unwrap();

    let foo = r.actions.iter().any(|a| match a {
        BattleAction::Move(_, _, _) => false,
        BattleAction::Attack(_r, attack) => attack.victim.hp == 0,
    });

    assert!(foo);

    assert_eq!(3, r.combatants.len());
}

#[test]
#[allow(unused_must_use)]
fn battle_engine_do_test() {
    let combatant1 = combatant("Combatant1", 2, 10);
    let combatant2 = combatant("Combatant2", 2, 10);
    let combatant3 = combatant("Combatant3", 2, 10);

    let mut map = BattleMap::new(10, 10);

    map.place_randomly(combatant1.name.clone());
    map.place_randomly(combatant2.name.clone());
    map.place_randomly(combatant3.name.clone());

    let initial_state = BattleRoundState {
        actions: vec![],
        combatants: vec![combatant1, combatant2, combatant3],
        map: map,
        round_number: 1,
    };

    let test_object = BattleRound::new(2, initial_state);

    let test_result = test_object.do_battle().unwrap();

    assert_ne!(0, test_result.actions.len(), "The number of actions can not be 0")
}

#[test]
#[allow(unused_must_use)]
fn combatant_turn_do_test() {
    let active_combattant = combatant("Active", 2, 10);
    let opponent1 = combatant("Opponent1", 2, 10);
    let opponent2 = combatant("Opponent2", 2, 10);

    let mut map = BattleMap::new(10, 10);

    map.place_randomly(active_combattant.name.clone());
    map.place_randomly(opponent1.name.clone());
    map.place_randomly(opponent2.name.clone());

    let mut test_object: CombatantTurn =
        CombatantTurn::new(active_combattant, vec![opponent1, opponent2], map, vec![], 1);

    let test_result = test_object.execute().unwrap();

    assert_ne!(0, test_result.actions.len(), "The number of actions can not be 0")
}

#[test]
fn engine_places_everyone_on_distinct_cells() {
    let engine = BattleEngine::new(BattlefieldData {
        battlefield_height: 2,
        battlefield_width: 2,
        combatants: vec![combatant("a", 1, 1), combatant("b", 1, 1), combatant("c", 1, 1), combatant("d", 1, 1)],
    });
    assert!(engine.is_ok());
}

#[test]
fn engine_rejects_shared_names() {
    let engine = BattleEngine::new(BattlefieldData {
        battlefield_height: 5,
        battlefield_width: 5,
        combatants: vec![combatant("a", 1, 1), combatant("a", 2, 2)],
    });
    assert_eq!(engine.err(), Some(Error::UserAlreadyOnMap));
}

#[test]
fn turn_without_opponents_fails() {
    let mut map = BattleMap::new(4, 4);
    map.place(String::from("solo"), Point::new(0, 0)).unwrap();
    let mut turn = CombatantTurn::new(combatant("solo", 1, 1), vec![], map, vec![], 1);
    assert_eq!(turn.execute().err(), Some(Error::NoOpponentsPresent));
}

#[test]
fn turn_without_place_does_nothing() {
    let map = BattleMap::new(4, 4);
    let mut turn = CombatantTurn::new(combatant("ghost", 1, 1), vec![combatant("x", 1, 5)], map, vec![], 3);
    let result = turn.execute().unwrap();
    assert!(result.actions.is_empty());
    assert_eq!(result.opponents[0].hp, 5);
    assert_eq!(result.round_number, 3);
}

#[test]
fn turn_strikes_the_only_neighbour() {
    let mut map = BattleMap::new(10, 10);
    map.place(String::from("hero"), Point::new(2, 2)).unwrap();
    map.place(String::from("foe"), Point::new(2, 3)).unwrap();
    let mut turn = CombatantTurn::new(combatant("hero", 4, 10), vec![combatant("foe", 1, 10)], map, vec![], 1);
    let result = turn.execute().unwrap();
    assert_eq!(result.opponents[0].hp, 6);
    assert_eq!(result.actions.len(), 1);
    match &result.actions[0] {
        BattleAction::Attack(round, blow) => {
            assert_eq!(*round, 1);
            assert_eq!(blow.damage, 4);
            assert_eq!(blow.victim.hp, 6);
            assert_eq!(blow.assailant.name, "hero");
        }
        BattleAction::Move(_, _, _) => panic!("no move expected"),
    }
}

#[test]
fn turn_walks_then_logs_the_move() {
    let mut map = BattleMap::new(10, 10);
    map.place(String::from("hero"), Point::new(0, 0)).unwrap();
    map.place(String::from("foe"), Point::new(0, 9)).unwrap();
    let mut turn = CombatantTurn::new(combatant("hero", 4, 10), vec![combatant("foe", 1, 10)], map, vec![], 1);
    let result = turn.execute().unwrap();
    assert_eq!(result.map.position_for(&String::from("hero")), Some(Point::new(0, 3)));
    assert_eq!(result.actions.len(), 1);
    assert_eq!(result.opponents[0].hp, 10);
}

#[test]
fn state_queries() {
    let state = BattleRoundState {
        combatants: vec![combatant("a", 1, 0), combatant("b", 1, 3), combatant("c", 1, 0)],
        map: BattleMap::new(3, 3),
        actions: vec![],
        round_number: 0,
    };
    assert!(!state.min_two_alive());
    assert_eq!(state.alive_combatants().len(), 1);
    assert_eq!(state.dead_combatants().len(), 2);
    assert_eq!(state.get_combatant(&String::from("b")).unwrap().hp, 3);
    assert!(state.get_combatant(&String::from("z")).is_none());
}

fn result_of(combatants: Vec<Combatant>) -> BattleResult {
    BattleResult::new(BattleRoundState { combatants, map: BattleMap::new(1, 1), actions: vec![], round_number: 4 })
}

#[test]
fn winner_has_most_hp() {
    let result = result_of(vec![combatant("A", 1, 0), combatant("B", 1, 5), combatant("C", 1, 3)]);
    assert_eq!(result.determine_winner().unwrap().name, "B");
}

#[test]
fn no_winner_when_all_dead() {
    let result = result_of(vec![combatant("A", 1, 0), combatant("B", 1, 0)]);
    assert!(result.determine_winner().is_none());
    let analyzed = result.analyze_results();
    assert!(analyzed.is_analyzed);
    assert!(analyzed.winner.is_none());
    assert_eq!(analyzed.rounds_played(), 4);
}

#[test]
fn winner_tie_keeps_first() {
    let result = result_of(vec![combatant("A", 1, 4), combatant("B", 1, 4)]);
    assert_eq!(result.determine_winner().unwrap().name, "A");
    assert_eq!(result.survivors().len(), 2);
}

#[test]
fn battle_ends_with_at_most_one_alive() {
    let mut engine = BattleEngine::new(BattlefieldData {
        battlefield_height: 4,
        battlefield_width: 4,
        combatants: vec![combatant("x", 3, 9), combatant("y", 1, 2)],
    })
    .unwrap();
    let result = engine.start_battle().unwrap();
    assert!(result.survivors().len() <= 1 || result.round_number > 1000);
    assert!(result.round_number >= 1);
    assert!(result.is_analyzed);
}

#[test]
fn turn_picks_among_neighbours_at_random() {
    let mut hit_north = false;
    let mut hit_east = false;
    for _ in 0..200 {
        let mut map = BattleMap::new(10, 10);
        map.place(String::from("hero"), Point::new(5, 5)).unwrap();
        map.place(String::from("north"), Point::new(5, 6)).unwrap();
        map.place(String::from("east"), Point::new(6, 5)).unwrap();
        let mut turn = CombatantTurn::new(
            combatant("hero", 1, 10),
            vec![combatant("north", 1, 10), combatant("east", 1, 10)],
            map,
            vec![],
            1,
        );
        let result = turn.execute().unwrap();
        let struck: Vec<&Combatant> = result.opponents.iter().filter(|c| c.hp == 9).collect();
        assert_eq!(struck.len(), 1);
        if struck[0].name == "north" {
            hit_north = true;
        } else {
            hit_east = true;
        }
    }
    assert!(hit_north && hit_east);
}

#[test]
fn battle_keeps_every_combatant() {
    let mut engine = BattleEngine::new(BattlefieldData {
        battlefield_height: 6,
        battlefield_width: 6,
        combatants: vec![combatant("a", 5, 5), combatant("b", 5, 5), combatant("c", 5, 5), combatant("d", 5, 5)],
    })
    .unwrap();
    let result = engine.start_battle().unwrap();
    let mut names: Vec<String> = result.combatants.iter().map(|c| c.name.clone()).collect();
    names.sort();
    assert_eq!(names, vec!["a", "b", "c", "d"]);
}

#[test]
fn round_cap_bounds_the_battle() {
    let mut engine = BattleEngine::new(BattlefieldData {
        battlefield_height: 200,
        battlefield_width: 200,
        combatants: vec![combatant("slow", 1, 60000), combatant("tough", 1, 60000)],
    })
    .unwrap()
    .with_limits(4, 1);
    let result = engine.start_battle().unwrap();
    assert!(result.round_number <= 5);
    assert_eq!(result.round_number, 5);
    assert_eq!(result.combatants.len(), 2);
}

#[test]
fn crowded_battles_always_finish() {
    for _ in 0..20 {
        let names = ["a", "b", "c", "d", "e", "f", "g", "h", "i"];
        let combatants = names.iter().map(|n| combatant(n, 3, 7)).collect();
        let mut engine =
            BattleEngine::new(BattlefieldData { battlefield_height: 3, battlefield_width: 3, combatants }).unwrap();
        let result = engine.start_battle().unwrap();
        assert_eq!(result.combatants.len(), 9);
        assert!(result.survivors().len() <= 1);
    }
}

#[test]
fn battle_log_is_ordered_and_explains_every_wound() {
    let start = vec![combatant("p", 3, 9), combatant("q", 2, 8), combatant("r", 4, 6)];
    let mut engine = BattleEngine::new(BattlefieldData {
        battlefield_height: 5,
        battlefield_width: 5,
        combatants: start.iter().map(|c| combatant(&c.name, c.dmg, c.hp)).collect(),
    })
    .unwrap();
    let result = engine.start_battle().unwrap();
    let rounds: Vec<u32> = result
        .actions
        .iter()
        .map(|a| match a {
            BattleAction::Move(r, _, _) => *r,
            BattleAction::Attack(r, _) => *r,
        })
        .collect();
    assert!(rounds.windows(2).all(|w| w[0] <= w[1]));
    assert!(rounds.iter().all(|r| *r >= 1 && *r <= result.round_number));
    for c in &result.combatants {
        let before = start.iter().find(|s| s.name == c.name).unwrap();
        assert!(c.hp <= before.hp);
        assert_eq!(c.dmg, before.dmg);
        if c.hp < before.hp {
            assert!(result.actions.iter().any(|a| matches!(a, BattleAction::Attack(_, b) if b.victim.name == c.name && b.victim.hp == c.hp)));
        }
    }
}

#[test]
fn battle_without_two_alive_plays_no_round() {
    let mut engine = BattleEngine::new(BattlefieldData {
        battlefield_height: 3,
        battlefield_width: 3,
        combatants: vec![combatant("alone", 1, 4), combatant("gone", 1, 0)],
    })
    .unwrap();
    let result = engine.start_battle().unwrap();
    assert_eq!(result.round_number, 0);
    assert!(result.actions.is_empty());
    assert_eq!(result.winner.unwrap().name, "alone");
}

#[test]
fn round_with_one_combatant_reports_no_opponents() {
    let mut map = BattleMap::new(3, 3);
    map.place(String::from("solo"), Point::new(1, 1)).unwrap();
    let state = BattleRoundState { combatants: vec![combatant("solo", 1, 1)], map, actions: vec![], round_number: 0 };
    assert_eq!(BattleRound::new(1, state).do_battle().err(), Some(Error::NoOpponentsPresent));
}
