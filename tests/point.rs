use battle_kernel::point::Point;

#[test]
fn neighbors_center() {
    let center = Point::new(1, 1);
    let neighbors = center.neighbors(None);

    assert!(neighbors.contains(&Point::new(1, 0)));
    assert!(neighbors.contains(&Point::new(1, 2)));
    assert!(neighbors.contains(&Point::new(0, 1)));
    assert!(neighbors.contains(&Point::new(2, 1)));
}

#[test]
fn neighbors_0_0() {
    let point = Point::new(0, 0);
    let neighbors: Vec<Point> = point.neighbors(None);

    assert_eq!(neighbors.len(), 2);
    assert!(neighbors.contains(&Point::new(1, 0)));
    assert!(neighbors.contains(&Point::new(0, 1)));
}

#[test]
fn neighbors_max_max() {
    let point = Point::new(u8::MAX, u8::MAX);
    let neighbors: Vec<Point> = point.neighbors(None);

    assert_eq!(neighbors.len(), 2);
    assert!(neighbors.contains(&Point::new(u8::MAX, 254)));
    assert!(neighbors.contains(&Point::new(254, u8::MAX)));
}

#[test]
fn neighbors_out_of_bounds() {
    let point = Point::new(u8::MAX, u8::MAX);
    let neighbors: Vec<Point> = point.neighbors(Some(Point::new(10, 10)));

    assert_eq!(neighbors.len(), 0);
}

#[test]
fn neighbors_on_boundary_line() {
    let point = Point::new(10, 10);
    let boundary = Point::new(10, 12);
    let neighbors: Vec<Point> = point.neighbors(Some(boundary));

    assert_eq!(neighbors.len(), 3);
    assert!(neighbors.contains(&Point::new(10, 9)));
    assert!(neighbors.contains(&Point::new(10, 11)));
    assert!(neighbors.contains(&Point::new(9, 10)));
}

#[test]
fn neighbors_on_boundary_corner() {
    let point = Point::new(10, 10);
    let neighbors: Vec<Point> = point.neighbors(Some(point));

    assert_eq!(neighbors.len(), 2);
    assert!(neighbors.contains(&Point::new(10, 9)));
    assert!(neighbors.contains(&Point::new(9, 10)));
}

#[test]
fn closest() {
    let p1 = Point::new(0, 0);
    let p2 = Point::new(4, 4);
    let p3 = Point::new(6, 5);
    let p4 = Point::new(5, 5);

    let closest = p1.closest(vec![p2, p3, p4]);

    assert_eq!(closest, p2);
}

#[test]
fn neighbors_order_north_east_south_west() {
    let neighbors = Point::new(5, 5).neighbors(None);
    assert_eq!(
        neighbors,
        vec![Point::new(5, 6), Point::new(6, 5), Point::new(5, 4), Point::new(4, 5)]
    );
}

#[test]
fn closest_tie_keeps_last() {
    let me = Point::new(5, 5);
    let closest = me.closest(vec![Point::new(4, 5), Point::new(6, 5), Point::new(5, 4)]);
    assert_eq!(closest, Point::new(5, 4));
}

#[test]
fn closest_of_nothing_is_origin() {
    assert_eq!(Point::new(7, 7).closest(vec![]), Point::new(0, 0));
}

#[test]
fn distance_squared_exact() {
    assert_eq!(Point::new(1, 1).distance_squared(&Point::new(2, 2)), 2);
    assert_eq!(Point::new(0, 0).distance_squared(&Point::new(255, 255)), 130050);
    assert_eq!(Point::new(10, 3).distance_squared(&Point::new(7, 7)), 25);
}

#[test]
fn random_stays_below_bounds() {
    for _ in 0..200 {
        let p = Point::random(Some(Point::new(3, 2)));
        assert!(p.x < 3 && p.y < 2);
    }
}
