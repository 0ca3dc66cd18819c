use gdeditor::find_replace::{
    compute_line_starts, offset_to_line_col, FindReplace, FindReplaceConfig, FindReplaceError, SearchMatch,
    SearchMode,
};

fn engine() -> FindReplace {
    FindReplace::new()
}

const SAMPLE: &str =
    "func _ready():\n    var speed = 10\n    var speed_max = 100\n    print(speed)\n";

// -- SearchMatch --

#[test]
fn search_match_fields() {
    let m = SearchMatch {
        start: 0,
        end: 4,
        line: 0,
        column: 0,
        text: "func".into(),
    };
    assert_eq!(m.text, "func");
    assert_eq!(m.line, 0);
}

// -- FindReplaceConfig --

#[test]
fn config_defaults() {
    let cfg = FindReplaceConfig::default();
    assert!(cfg.pattern.is_empty());
    assert!(!cfg.case_sensitive);
    assert!(!cfg.whole_word);
    assert!(cfg.wrap_around);
    assert_eq!(cfg.mode, SearchMode::PlainText);
}

#[test]
fn config_builder() {
    let cfg = FindReplaceConfig::new("test")
        .with_replacement("new")
        .with_regex()
        .case_sensitive(true)
        .whole_word(true);
    assert_eq!(cfg.pattern, "test");
    assert_eq!(cfg.replacement, "new");
    assert_eq!(cfg.mode, SearchMode::Regex);
    assert!(cfg.case_sensitive);
    assert!(cfg.whole_word);
}

// -- Empty pattern --

#[test]
fn empty_pattern_error() {
    let fr = engine();
    let cfg = FindReplaceConfig::new("");
    assert_eq!(
        fr.find_all("text", &cfg).unwrap_err(),
        FindReplaceError::EmptyPattern
    );
}

// -- Plain text find --

#[test]
fn find_all_plain() {
    let fr = engine();
    let cfg = FindReplaceConfig::new("speed");
    let matches = fr.find_all(SAMPLE, &cfg).unwrap();
    assert_eq!(matches.len(), 3); // speed, speed_max, speed
}

#[test]
fn find_all_plain_case_insensitive() {
    let fr = engine();
    let cfg = FindReplaceConfig::new("SPEED");
    let matches = fr.find_all(SAMPLE, &cfg).unwrap();
    assert_eq!(matches.len(), 3); // case insensitive by default
}

#[test]
fn find_all_plain_case_sensitive() {
    let fr = engine();
    let cfg = FindReplaceConfig::new("SPEED").case_sensitive(true);
    let matches = fr.find_all(SAMPLE, &cfg).unwrap();
    assert_eq!(matches.len(), 0);
}

#[test]
fn find_all_whole_word() {
    let fr = engine();
    let cfg = FindReplaceConfig::new("speed").whole_word(true);
    let matches = fr.find_all(SAMPLE, &cfg).unwrap();
    // "speed" as whole word: line 2 ("var speed = 10") and line 4 ("print(speed)")
    // "speed_max" should NOT match
    assert_eq!(matches.len(), 2);
}

#[test]
fn find_all_line_and_column() {
    let fr = engine();
    let cfg = FindReplaceConfig::new("func");
    let matches = fr.find_all(SAMPLE, &cfg).unwrap();
    assert_eq!(matches.len(), 1);
    assert_eq!(matches[0].line, 0);
    assert_eq!(matches[0].column, 0);
}

#[test]
fn find_all_second_line() {
    let fr = engine();
    let cfg = FindReplaceConfig::new("var").case_sensitive(true);
    let matches = fr.find_all(SAMPLE, &cfg).unwrap();
    assert_eq!(matches.len(), 2);
    assert_eq!(matches[0].line, 1);
    assert_eq!(matches[1].line, 2);
}

// -- Regex find --

#[test]
fn find_all_regex() {
    let fr = engine();
    let cfg = FindReplaceConfig::new(r"speed\b").with_regex();
    let matches = fr.find_all(SAMPLE, &cfg).unwrap();
    // matches "speed" but not "speed_max"
    assert_eq!(matches.len(), 2);
}

#[test]
fn find_all_regex_groups() {
    let fr = engine();
    let cfg = FindReplaceConfig::new(r"\d+").with_regex();
    let matches = fr.find_all(SAMPLE, &cfg).unwrap();
    assert_eq!(matches.len(), 2); // 10 and 100
    assert_eq!(matches[0].text, "10");
    assert_eq!(matches[1].text, "100");
}

#[test]
fn invalid_regex_error() {
    let fr = engine();
    let cfg = FindReplaceConfig::new(r"[invalid").with_regex();
    let result = fr.find_all("text", &cfg);
    assert!(matches!(result, Err(FindReplaceError::InvalidRegex(_))));
}

// -- Count --

#[test]
fn count_matches_plain() {
    let fr = engine();
    let cfg = FindReplaceConfig::new("speed");
    assert_eq!(fr.count_matches(SAMPLE, &cfg).unwrap(), 3);
}

#[test]
fn count_matches_regex() {
    let fr = engine();
    let cfg = FindReplaceConfig::new(r"\d+").with_regex();
    assert_eq!(fr.count_matches(SAMPLE, &cfg).unwrap(), 2);
}

// -- Find next --

#[test]
fn find_next_from_start() {
    let fr = engine();
    let cfg = FindReplaceConfig::new("var");
    let m = fr.find_next(SAMPLE, &cfg, 0).unwrap().unwrap();
    assert_eq!(m.line, 1);
}

#[test]
fn find_next_from_middle() {
    let fr = engine();
    let cfg = FindReplaceConfig::new("var");
    // Find first, then find next from after it.
    let first = fr.find_next(SAMPLE, &cfg, 0).unwrap().unwrap();
    let second = fr.find_next(SAMPLE, &cfg, first.end).unwrap().unwrap();
    assert_eq!(second.line, 2);
}

#[test]
fn find_next_wrap_around() {
    let fr = engine();
    let cfg = FindReplaceConfig::new("func");
    // Start past "func", should wrap around.
    let m = fr.find_next(SAMPLE, &cfg, 10).unwrap().unwrap();
    assert_eq!(m.start, 0);
}

#[test]
fn find_next_no_wrap() {
    let fr = engine();
    let mut cfg = FindReplaceConfig::new("func");
    cfg.wrap_around = false;
    let m = fr.find_next(SAMPLE, &cfg, 10).unwrap();
    assert!(m.is_none());
}

#[test]
fn find_next_past_end() {
    let fr = engine();
    let cfg = FindReplaceConfig::new("func");
    let m = fr.find_next(SAMPLE, &cfg, SAMPLE.len() + 100).unwrap();
    // Should wrap and find it.
    assert!(m.is_some());
}

// -- Replace all --

#[test]
fn replace_all_plain() {
    let fr = engine();
    let cfg = FindReplaceConfig::new("speed")
        .with_replacement("velocity")
        .whole_word(true);
    let result = fr.replace_all(SAMPLE, &cfg).unwrap();
    assert_eq!(result.count, 2);
    assert!(result.text.contains("velocity"));
    assert!(result.text.contains("speed_max")); // whole word, not replaced
}

#[test]
fn replace_all_regex() {
    let fr = engine();
    let cfg = FindReplaceConfig::new(r"\d+")
        .with_regex()
        .with_replacement("0");
    let result = fr.replace_all(SAMPLE, &cfg).unwrap();
    assert_eq!(result.count, 2);
    assert!(result.text.contains("var speed = 0"));
    assert!(result.text.contains("var speed_max = 0"));
}

#[test]
fn replace_all_empty_replacement() {
    let fr = engine();
    let cfg = FindReplaceConfig::new("var ")
        .with_replacement("")
        .case_sensitive(true);
    let result = fr.replace_all(SAMPLE, &cfg).unwrap();
    assert_eq!(result.count, 2);
    assert!(!result.text.contains("var "));
}

#[test]
fn replace_all_no_matches() {
    let fr = engine();
    let cfg = FindReplaceConfig::new("zzzzz").with_replacement("x");
    let result = fr.replace_all(SAMPLE, &cfg).unwrap();
    assert_eq!(result.count, 0);
    assert_eq!(result.text, SAMPLE);
}

// -- Replace at index --

#[test]
fn replace_at_first() {
    let fr = engine();
    let cfg = FindReplaceConfig::new("speed").with_replacement("vel");
    let result = fr.replace_at(SAMPLE, &cfg, 0).unwrap();
    assert_eq!(result.count, 1);
    // Only first "speed" replaced.
    let remaining = FindReplaceConfig::new("speed");
    let after = fr.count_matches(&result.text, &remaining).unwrap();
    assert_eq!(after, 2); // was 3, now 2
}

#[test]
fn replace_at_last() {
    let fr = engine();
    let cfg = FindReplaceConfig::new("speed").with_replacement("vel");
    let result = fr.replace_at(SAMPLE, &cfg, 2).unwrap();
    assert_eq!(result.count, 1);
}

#[test]
fn replace_at_out_of_bounds() {
    let fr = engine();
    let cfg = FindReplaceConfig::new("speed").with_replacement("x");
    let result = fr.replace_at(SAMPLE, &cfg, 99);
    assert!(matches!(
        result,
        Err(FindReplaceError::MatchIndexOutOfBounds(99))
    ));
}

// -- Error display --

#[test]
fn error_display() {
    assert_eq!(
        FindReplaceError::EmptyPattern.to_string(),
        "search pattern is empty"
    );
    assert_eq!(
        FindReplaceError::MatchIndexOutOfBounds(5).to_string(),
        "match index 5 out of bounds"
    );
    let e = FindReplaceError::InvalidRegex("bad".into());
    assert!(e.to_string().contains("invalid regex"));
}

// -- Line/column helpers --

#[test]
fn line_starts_single_line() {
    let starts = compute_line_starts("hello");
    assert_eq!(starts, vec![0]);
}

#[test]
fn line_starts_multi_line() {
    let starts = compute_line_starts("a\nb\nc");
    assert_eq!(starts, vec![0, 2, 4]);
}

#[test]
fn offset_to_line_col_first_line() {
    let starts = compute_line_starts("hello\nworld");
    assert_eq!(offset_to_line_col(&starts, 0), (0, 0));
    assert_eq!(offset_to_line_col(&starts, 3), (0, 3));
}

#[test]
fn offset_to_line_col_second_line() {
    let starts = compute_line_starts("hello\nworld");
    assert_eq!(offset_to_line_col(&starts, 6), (1, 0));
    assert_eq!(offset_to_line_col(&starts, 8), (1, 2));
}

// -- Multiline regex --

#[test]
fn regex_multiline_not_dotall() {
    let fr = engine();
    // By default, `.` doesn't match newlines.
    let cfg = FindReplaceConfig::new(r"func.*var").with_regex();
    let matches = fr.find_all(SAMPLE, &cfg).unwrap();
    assert_eq!(matches.len(), 0); // spans lines, won't match
}

#[test]
fn find_all_matches_are_ordered_and_disjoint() {
    let fr = FindReplace::new();
    let cfg = FindReplaceConfig::new("aa");
    let matches = fr.find_all("aaaaa aa", &cfg).unwrap();
    assert_eq!(matches.len(), 3);
    for w in matches.windows(2) {
        assert!(w[0].end <= w[1].start);
    }
}
