use gdeditor::grid_display::is_primary_line;

#[test]
fn primary_lines_every_interval_both_sides() {
    assert!(is_primary_line(0, 8));
    assert!(is_primary_line(16, 8));
    assert!(is_primary_line(-8, 8));
    assert!(!is_primary_line(-3, 8));
    assert!(!is_primary_line(5, 8));
    assert!(!is_primary_line(0, 0));
    assert!(is_primary_line(i64::MIN, 2));
    assert!(!is_primary_line(i64::MIN + 1, 2));
}
