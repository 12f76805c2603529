use photo_distance::{connection_line, distance_label, point_line};

#[test]
fn point_lines() {
    assert_eq!(point_line(1), b"1\n".to_vec());
    assert_eq!(point_line(10), b"10\n".to_vec());
    assert_eq!(point_line(12345), b"12345\n".to_vec());
}

#[test]
fn connection_lines() {
    assert_eq!(connection_line(1, 2, 4000), b"1 2 40.00\n".to_vec());
    assert_eq!(connection_line(1, 1, 0), b"1 1 0.00\n".to_vec());
    assert_eq!(connection_line(12, 3, 7), b"12 3 0.07\n".to_vec());
    assert_eq!(connection_line(4, 5, 14150), b"4 5 141.50\n".to_vec());
}

#[test]
fn distance_labels() {
    assert_eq!(distance_label(4000), b"40.00 px".to_vec());
    assert_eq!(distance_label(141), b"1.41 px".to_vec());
    assert_eq!(distance_label(5), b"0.05 px".to_vec());
    assert_eq!(distance_label(u64::MAX), b"184467440737095516.15 px".to_vec());
}
