use bb_cli::args::{parse_args_with_id, parse_u32};
use bb_cli::debug::{is_enabled, set_enabled, Verbosity};

#[test]
fn test_parse_args_with_id() {
    // Case 1: ID and patterns
    let args = vec!["123".to_string(), "src/".to_string()];
    let (id, patterns) = parse_args_with_id(&args);
    assert_eq!(id, Some(123));
    assert_eq!(patterns, &["src/".to_string()]);

    // Case 2: Only ID
    let args = vec!["456".to_string()];
    let (id, patterns) = parse_args_with_id(&args);
    assert_eq!(id, Some(456));
    assert!(patterns.is_empty());

    // Case 3: Only patterns (no ID)
    let args = vec!["src/".to_string(), "*.rs".to_string()];
    let (id, patterns) = parse_args_with_id(&args);
    assert_eq!(id, None);
    assert_eq!(patterns, &["src/".to_string(), "*.rs".to_string()]);

    // Case 4: Empty
    let args: Vec<String> = vec![];
    let (id, patterns) = parse_args_with_id(&args);
    assert_eq!(id, None);
    assert!(patterns.is_empty());
}

#[test]
fn parse_u32_matches_std() {
    for s in ["0", "+7", "007", "4294967295", "4294967296", "", "+", "-1", "12a", "99999999999"] {
        assert_eq!(parse_u32(s), s.parse::<u32>().ok(), "for {:?}", s);
    }
}

#[test]
fn verbosity_switch() {
    let mut v = Verbosity::default();
    assert!(!is_enabled(&v));
    set_enabled(&mut v, true);
    assert!(is_enabled(&v));
}
