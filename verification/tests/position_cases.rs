use papyrus::Position;

#[test]
fn describe_renders_line_number() {
    assert_eq!(Position::new(1).describe(), "line 1");
    assert_eq!(Position::new(2).describe(), "line 2");
    assert_eq!(Position::new(120).describe(), "line 120");
    assert_eq!(Position::new(65535).describe(), "line 65535");
}

#[test]
fn positions_compare_by_value() {
    assert_eq!(Position::new(3), Position::new(3));
    assert_ne!(Position::new(3), Position::new(4));
}

#[test]
fn position_from_line_number() {
    assert_eq!(Position::from(7), Position::new(7));
    let p: Position = 9u16.into();
    assert_eq!(p, Position::new(9));
}
