use seedenv::model::PendingSecret;
use seedenv::parser::{
    classify_line, collect_input, is_affirmative, is_terminator, parse_paste_input, trim,
    LineOutcome,
};

fn lines(text: &[&str]) -> Vec<String> {
    text.iter().map(|s| s.to_string()).collect()
}

fn value_of(secrets: &[PendingSecret], key: &str) -> Option<String> {
    secrets.iter().find(|s| s.key == key).map(|s| s.value.clone())
}

#[test]
fn well_formed_line_is_trimmed() {
    match classify_line("  API_KEY =  abc123  ") {
        LineOutcome::Entry(e) => {
            assert_eq!(e.key, "API_KEY");
            assert_eq!(e.value, "abc123");
        }
        _ => panic!("expected an entry"),
    }
}

#[test]
fn value_keeps_further_equals_signs() {
    match classify_line("URL=a=b=c") {
        LineOutcome::Entry(e) => {
            assert_eq!(e.key, "URL");
            assert_eq!(e.value, "a=b=c");
        }
        _ => panic!("expected an entry"),
    }
}

#[test]
fn empty_value_is_allowed() {
    match classify_line("EMPTY=") {
        LineOutcome::Entry(e) => {
            assert_eq!(e.key, "EMPTY");
            assert_eq!(e.value, "");
        }
        _ => panic!("expected an entry"),
    }
}

#[test]
fn line_without_equals_is_rejected() {
    assert!(matches!(classify_line("NOT_A_PAIR"), LineOutcome::Rejected));
    let r = parse_paste_input(&lines(&["NOT_A_PAIR", "A=1"]));
    assert_eq!(r.secrets.len(), 1);
    assert_eq!(value_of(&r.secrets, "NOT_A_PAIR"), None);
    assert_eq!(r.rejected, vec!["NOT_A_PAIR".to_string()]);
}

#[test]
fn empty_key_is_rejected() {
    assert!(matches!(classify_line("  = value"), LineOutcome::Rejected));
    let r = parse_paste_input(&lines(&["=value"]));
    assert!(r.secrets.is_empty());
    assert_eq!(r.rejected.len(), 1);
}

#[test]
fn comments_and_blank_lines_give_nothing() {
    assert!(matches!(classify_line("# A=1"), LineOutcome::Ignored));
    assert!(matches!(classify_line("   # note"), LineOutcome::Ignored));
    assert!(matches!(classify_line("   "), LineOutcome::Ignored));
    let r = parse_paste_input(&lines(&["#comment", "   ", "# X=1"]));
    assert!(r.secrets.is_empty());
    assert!(r.rejected.is_empty());
}

#[test]
fn two_empty_lines_end_the_input() {
    let collected = collect_input(&lines(&["A=1", "", "", "B=2"]));
    assert_eq!(collected, lines(&["A=1"]));
    let r = parse_paste_input(&lines(&["A=1", "", "", "B=2"]));
    assert_eq!(r.secrets.len(), 1);
    assert_eq!(value_of(&r.secrets, "B"), None);
}

#[test]
fn single_empty_line_does_not_end_the_input() {
    let collected = collect_input(&lines(&["A=1", "", "B=2", "", "C=3"]));
    assert_eq!(collected, lines(&["A=1", "B=2", "C=3"]));
}

#[test]
fn whitespace_line_is_not_empty_for_termination() {
    let collected = collect_input(&lines(&["A=1", "", " ", "", "B=2"]));
    assert_eq!(collected, lines(&["A=1", " ", "B=2"]));
}

#[test]
fn input_may_end_without_terminator() {
    let collected = collect_input(&lines(&["A=1", "B=2"]));
    assert_eq!(collected, lines(&["A=1", "B=2"]));
    assert!(collect_input(&Vec::new()).is_empty());
}

#[test]
fn last_duplicate_wins() {
    let r = parse_paste_input(&lines(&["A=1", "B=2", "A=3"]));
    assert_eq!(r.secrets.len(), 2);
    assert_eq!(value_of(&r.secrets, "A"), Some("3".to_string()));
    assert_eq!(value_of(&r.secrets, "B"), Some("2".to_string()));
}

#[test]
fn pasted_scenario_parses_two_entries() {
    let r = parse_paste_input(&lines(&["API_KEY=abc123", "NEW_TOKEN=xyz789", ""]));
    assert_eq!(r.secrets.len(), 2);
    assert_eq!(value_of(&r.secrets, "API_KEY"), Some("abc123".to_string()));
    assert_eq!(value_of(&r.secrets, "NEW_TOKEN"), Some("xyz789".to_string()));
    assert!(r.rejected.is_empty());
}

#[test]
fn trim_strips_unicode_white_space() {
    assert_eq!(trim("  a b \t\n"), "a b");
    assert_eq!(trim("\u{a0}\u{3000}x\u{2009}"), "x");
    assert_eq!(trim("   "), "");
    assert_eq!(trim(""), "");
}

#[test]
fn two_empty_lines_are_a_terminator() {
    assert!(is_terminator("", ""));
    assert!(!is_terminator("A=1", ""));
    assert!(!is_terminator("", " "));
}

#[test]
fn yes_answers() {
    assert!(is_affirmative("y"));
    assert!(is_affirmative("  Yes\n"));
    assert!(!is_affirmative("n"));
    assert!(!is_affirmative(""));
    assert!(!is_affirmative(" no y"));
}

#[test]
fn hash_key_never_parsed() {
    let r = parse_paste_input(&lines(&["#A=1", "B=#2"]));
    assert_eq!(r.secrets.len(), 1);
    assert_eq!(value_of(&r.secrets, "#A"), None);
    assert_eq!(value_of(&r.secrets, "B"), Some("#2".to_string()));
}
