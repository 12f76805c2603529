use photo_distance::{replay, Event, LogEntry, Position, Session, Stroke};

fn px(x: i32, y: i32) -> Position {
    Position::from_pixels(x, y)
}

fn click_at(s: &mut Session, p: Position) -> Vec<LogEntry> {
    s.cursor_moved(&p);
    s.click()
}

#[test]
fn click_before_any_cursor_move_is_ignored() {
    let mut s = Session::new(3000);
    assert!(s.click().is_empty());
    assert_eq!(s.point_count(), 0);
    assert!(s.scene().is_empty());
}

#[test]
fn same_pixel_twice_gives_a_zero_length_line() {
    let mut t = Session::new(3000);
    assert_eq!(click_at(&mut t, px(100, 100)), vec![LogEntry::Point(1)]);
    let second = click_at(&mut t, px(100, 100));
    assert_eq!(second, vec![LogEntry::Connection { start_id: 1, end_id: 1, distance: 0 }]);
    assert_eq!(second[0].text(), b"1 1 0.00\n".to_vec());
    // A third click on it, from idle, starts a new line and logs nothing.
    assert!(click_at(&mut t, px(100, 100)).is_empty());
    assert_eq!(t.point_count(), 1);
    let (points, connections) = replay(3000, &vec![px(100, 100), px(100, 100)]);
    assert_eq!(points, b"1\n".to_vec());
    assert_eq!(connections, b"1 1 0.00\n".to_vec());
}

#[test]
fn far_second_click_creates_a_second_point() {
    let mut s = Session::new(3000);
    assert_eq!(click_at(&mut s, px(0, 0)), vec![LogEntry::Point(1)]);
    let log = click_at(&mut s, px(40, 0));
    assert_eq!(
        log,
        vec![LogEntry::Point(2), LogEntry::Connection { start_id: 1, end_id: 2, distance: 4000 }]
    );
    assert!(log[0].is_point());
    assert!(!log[1].is_point());
    assert_eq!(log[0].text(), b"2\n".to_vec());
    assert_eq!(log[1].text(), b"1 2 40.00\n".to_vec());
    let (points, connections) = replay(3000, &vec![px(0, 0), px(40, 0)]);
    assert_eq!(points, b"1\n2\n".to_vec());
    assert_eq!(connections, b"1 2 40.00\n".to_vec());
}

#[test]
fn near_second_click_resolves_to_the_start_point() {
    let mut s = Session::new(3000);
    click_at(&mut s, px(0, 0));
    let log = click_at(&mut s, px(5, 0));
    assert_eq!(log, vec![LogEntry::Connection { start_id: 1, end_id: 1, distance: 500 }]);
    assert_eq!(s.point_count(), 1);
    // The line ends at the click itself, not at the point it snapped to.
    assert_eq!(
        s.scene(),
        vec![Stroke { start: px(0, 0), end: px(5, 0), distance: 500, preview: false }]
    );
}

#[test]
fn snapped_end_keeps_the_raw_cursor_distance() {
    let mut s = Session::new(3000);
    click_at(&mut s, px(0, 0));
    click_at(&mut s, px(100, 0));
    // Start on point 1, end near point 2 at (110, 0).
    click_at(&mut s, px(3, 4));
    let log = click_at(&mut s, px(110, 0));
    assert_eq!(log, vec![LogEntry::Connection { start_id: 1, end_id: 2, distance: 11000 }]);
}

#[test]
fn replay_is_idempotent() {
    let clicks = vec![px(0, 0), px(40, 0), px(41, 2), px(200, 200), px(5, 5), px(300, 10)];
    let first = replay(3000, &clicks);
    let second = replay(3000, &clicks);
    assert_eq!(first, second);
    assert_eq!(first.0, b"1\n2\n3\n4\n".to_vec());
    assert_eq!(first.1, b"1 2 40.00\n2 3 256.12\n1 4 300.17\n".to_vec());
}

#[test]
fn preview_is_drawn_but_never_logged() {
    let mut s = Session::new(3000);
    assert!(s.handle(&Event::CursorMoved(px(0, 0))).is_empty());
    assert_eq!(s.handle(&Event::Clicked), vec![LogEntry::Point(1)]);
    assert!(s.handle(&Event::CursorMoved(px(60, 80))).is_empty());
    assert!(s.handle(&Event::FrameTick).is_empty());
    let scene = s.scene();
    assert_eq!(
        scene,
        vec![Stroke { start: px(0, 0), end: px(60, 80), distance: 10000, preview: true }]
    );
    assert_eq!(scene[0].label(), b"100.00 px".to_vec());
    assert_eq!(scene[0].label_anchor(), (3000, 3000));
    assert!(s.handle(&Event::CursorMoved(px(30, 40))).is_empty());
    assert!(s.handle(&Event::FrameTick).is_empty());
    assert!(s.handle(&Event::Closed).is_empty());
    assert_eq!(s.point_count(), 1);
}

#[test]
fn scene_lists_finished_lines_then_preview() {
    let mut s = Session::new(3000);
    click_at(&mut s, px(0, 0));
    click_at(&mut s, px(40, 0));
    click_at(&mut s, px(40, 0));
    s.cursor_moved(&px(40, 30));
    let scene = s.scene();
    assert_eq!(scene.len(), 2);
    assert_eq!(scene[0], Stroke { start: px(0, 0), end: px(40, 0), distance: 4000, preview: false });
    assert_eq!(scene[1], Stroke { start: px(40, 0), end: px(40, 30), distance: 3000, preview: true });
    assert_eq!(scene[0].label(), b"40.00 px".to_vec());
    assert_eq!(scene[0].label_anchor(), (2000, -1000));
}

#[test]
fn logs_only_grow() {
    let clicks = vec![px(0, 0), px(40, 0), px(41, 2), px(200, 200), px(5, 5), px(300, 10)];
    let full = replay(3000, &clicks);
    for n in 0..clicks.len() {
        let part = replay(3000, &clicks[..n].to_vec());
        assert!(full.0.starts_with(&part.0));
        assert!(full.1.starts_with(&part.1));
    }
}

#[test]
fn live_session_writes_what_replay_writes() {
    let clicks = vec![px(10, 10), px(10, 60), px(12, 58), px(100, 100)];
    let mut s = Session::new(3000);
    let (mut points, mut connections) = (Vec::new(), Vec::new());
    for p in &clicks {
        s.handle(&Event::CursorMoved(*p));
        s.handle(&Event::FrameTick);
        for entry in s.handle(&Event::Clicked) {
            if entry.is_point() {
                points.extend(entry.text());
            } else {
                connections.extend(entry.text());
            }
        }
    }
    assert_eq!((points.clone(), connections.clone()), replay(3000, &clicks));
    assert_eq!(points, b"1\n2\n3\n".to_vec());
    assert_eq!(connections, b"1 2 50.00\n2 3 98.49\n".to_vec());
}
