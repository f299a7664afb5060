use battle_kernel::battle_map::BattleMap;
use battle_kernel::err::Error;
use battle_kernel::point::Point;

#[test]
#[allow(unused_must_use)]
fn move_to() {
    let mut test_object = BattleMap::new(10, 10);

    test_object.place(String::from("value"), Point::new(1, 1));

    test_object.move_to(Point::new(1, 1), Point::new(2, 2));

    assert!(!test_object.is_occupied(Point::new(1, 1)));
}

#[test]
fn move_to_same_point_is_a_no_op() {
    let mut map = BattleMap::new(10, 10);
    assert_eq!(map.move_to(Point::new(3, 3), Point::new(3, 3)), Ok(true));
    assert!(map.get_pois().is_empty());
    map.place(String::from("a"), Point::new(3, 3)).unwrap();
    assert_eq!(map.move_to(Point::new(3, 3), Point::new(3, 3)), Ok(true));
    assert_eq!(map.position_for(&String::from("a")), Some(Point::new(3, 3)));
}

#[test]
fn move_beyond_bounds_fails() {
    let mut map = BattleMap::new(10, 10);
    map.place(String::from("a"), Point::new(10, 10)).unwrap();
    assert_eq!(
        map.move_to(Point::new(10, 10), Point::new(11, 10)),
        Err(Error::DestinationOutOfBounds(Point::new(11, 10), Point::new(10, 10)))
    );
    assert_eq!(
        map.move_to(Point::new(10, 10), Point::new(3, 200)),
        Err(Error::DestinationOutOfBounds(Point::new(3, 200), Point::new(10, 10)))
    );
    assert_eq!(map.position_for(&String::from("a")), Some(Point::new(10, 10)));
}

#[test]
fn move_onto_someone_fails() {
    let mut map = BattleMap::new(10, 10);
    map.place(String::from("a"), Point::new(1, 1)).unwrap();
    map.place(String::from("b"), Point::new(1, 2)).unwrap();
    assert_eq!(
        map.move_to(Point::new(1, 1), Point::new(1, 2)),
        Err(Error::DestinationOccupied(Point::new(1, 1), Point::new(1, 2)))
    );
}

#[test]
fn move_from_empty_point_fails() {
    let mut map = BattleMap::new(10, 10);
    assert_eq!(
        map.move_to(Point::new(4, 4), Point::new(4, 5)),
        Err(Error::MapLocationEmpty(Point::new(4, 4)))
    );
}

#[test]
fn place_checks_point_and_name() {
    let mut map = BattleMap::new(5, 5);
    assert_eq!(map.place(String::from("a"), Point::new(0, 0)), Ok(true));
    assert_eq!(
        map.place(String::from("b"), Point::new(0, 0)),
        Err(Error::DestinationOccupied(Point::new(0, 0), Point::new(0, 0)))
    );
    assert_eq!(map.place(String::from("a"), Point::new(1, 0)), Err(Error::UserAlreadyOnMap));
    assert_eq!(map.get_pois(), vec![(Point::new(0, 0), String::from("a"))]);
}

#[test]
fn place_randomly_stays_inside_and_rejects_duplicates() {
    let mut map = BattleMap::new(2, 3);
    for name in ["a", "b", "c", "d", "e", "f"] {
        assert_eq!(map.place_randomly(String::from(name)), Ok(true));
    }
    let pois = map.get_pois();
    assert_eq!(pois.len(), 6);
    for (p, _) in &pois {
        assert!(p.x < 2 && p.y < 3);
    }
    let mut map = BattleMap::new(4, 4);
    map.place_randomly(String::from("a")).unwrap();
    assert_eq!(map.place_randomly(String::from("a")), Err(Error::UserAlreadyOnMap));
}

#[test]
fn remove_poi_frees_the_cell() {
    let mut map = BattleMap::new(10, 10);
    map.place(String::from("a"), Point::new(1, 1)).unwrap();
    map.place(String::from("b"), Point::new(2, 2)).unwrap();
    let smaller = map.remove_poi(&String::from("a"));
    assert!(!smaller.is_occupied(Point::new(1, 1)));
    assert!(smaller.is_occupied(Point::new(2, 2)));
    assert!(map.is_occupied(Point::new(1, 1)));
    let same = map.remove_poi(&String::from("nobody"));
    assert_eq!(same.get_pois().len(), 2);
}

#[test]
fn occupied_neighbors_lists_adjacent_names() {
    let mut map = BattleMap::new(10, 10);
    map.place(String::from("n"), Point::new(5, 6)).unwrap();
    map.place(String::from("w"), Point::new(4, 5)).unwrap();
    map.place(String::from("far"), Point::new(7, 7)).unwrap();
    map.place(String::from("diag"), Point::new(6, 6)).unwrap();
    assert_eq!(
        map.get_occupied_neighbors(Point::new(5, 5)),
        vec![String::from("n"), String::from("w")]
    );
    assert!(map.get_occupied_neighbors(Point::new(11, 0)).is_empty());
}

#[test]
fn bounds_and_lookups() {
    let map = BattleMap::new(7, 9);
    assert_eq!(map.get_width(), 7);
    assert_eq!(map.get_height(), 9);
    assert_eq!(map.map_bounds(), Point::new(7, 9));
    assert_eq!(map.position_for(&String::from("x")), None);
}
