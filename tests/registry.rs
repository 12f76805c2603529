use photo_distance::{Point, PointRegistry, Position};

fn px(x: i32, y: i32) -> Position {
    Position::from_pixels(x, y)
}

#[test]
fn ids_start_at_one_and_count_up() {
    let mut reg = PointRegistry::new(3000);
    assert_eq!(reg.insert(&px(0, 0)), 1);
    assert_eq!(reg.find_near(&px(0, 0)), Some(0));
    assert_eq!(reg.find_near(&px(500, 0)), None);
    assert_eq!(reg.insert(&px(100, 0)), 2);
    assert_eq!(reg.find_near(&px(100, 0)), Some(1));
    assert_eq!(reg.insert(&px(200, 0)), 3);
    assert_eq!(reg.len(), 3);
    assert_eq!(reg.get(2), Point { id: 3, position: px(200, 0) });
}

#[test]
fn find_near_respects_the_threshold() {
    let mut reg = PointRegistry::new(3000);
    reg.insert(&px(0, 0));
    assert_eq!(reg.find_near(&px(30, 0)), Some(0));
    assert_eq!(reg.find_near(&px(0, -30)), Some(0));
    assert_eq!(reg.find_near(&px(31, 0)), None);
    assert_eq!(reg.find_near(&px(22, 22)), None);
    assert_eq!(reg.threshold(), 3000);
}

#[test]
fn find_near_prefers_the_earliest_point() {
    let mut reg = PointRegistry::new(3000);
    reg.insert(&px(0, 0));
    reg.insert(&px(50, 0));
    // (25, 0) is within 30 px of both; the first one inserted wins even
    // though (26, 0) is closer to the second.
    assert_eq!(reg.find_near(&px(25, 0)), Some(0));
    assert_eq!(reg.find_near(&px(26, 0)), Some(0));
    assert_eq!(reg.find_near(&px(31, 0)), Some(1));
}

#[test]
fn find_near_on_an_empty_registry() {
    let reg = PointRegistry::new(3000);
    assert_eq!(reg.find_near(&px(0, 0)), None);
    assert_eq!(reg.len(), 0);
}
