use logtrak::line_rules::{invalid_pattern_message, is_shown, split_events, LineRules};
use logtrak::watcher::LogEvent;

fn texts(list: &[&str]) -> Vec<String> {
    list.iter().map(|s| s.to_string()).collect()
}

fn event(line: &str) -> LogEvent {
    LogEvent {
        ts: 0,
        source: "a.log".to_string(),
        line: line.to_string(),
    }
}

#[test]
fn whitelist_overrides_blacklist() {
    let rules =
        LineRules::new(&texts(&["ERROR"]), &texts(&["ERROR allow-this"])).expect("valid rules");
    assert!(!rules.should_display("ERROR random issue"));
    assert!(rules.should_display("ERROR allow-this"));
}

#[test]
fn non_matching_lines_are_kept() {
    let rules = LineRules::new(&texts(&["DEBUG"]), &[]).expect("valid rules");
    assert!(rules.should_display("INFO started"));
}

#[test]
fn events_are_parted_in_their_order() {
    let rules = LineRules::new(&texts(&["^D", "x$"]), &texts(&["keep"])).expect("valid rules");
    let (kept, suppressed) = rules.partition_events(vec![
        event("D one"),
        event("two"),
        event("three x"),
        event("D keep"),
    ]);
    let lines: Vec<&str> = kept.iter().map(|event| event.line.as_str()).collect();
    assert_eq!(lines, vec!["two", "D keep"]);
    assert_eq!(suppressed, 2);
}

#[test]
fn the_first_pattern_that_does_not_compile_is_named() {
    assert_eq!(
        LineRules::new(&texts(&["ok", "(", "["]), &texts(&["("])).err(),
        Some("invalid blacklist regex `(`".to_string())
    );
    assert_eq!(
        LineRules::new(&texts(&["ok"]), &texts(&["["])).err(),
        Some("invalid whitelist regex `[`".to_string())
    );
    assert_eq!(invalid_pattern_message("blacklist", "a("), "invalid blacklist regex `a(`");
}

#[test]
fn decisions_follow_the_matches() {
    assert!(is_shown(true, true));
    assert!(is_shown(true, false));
    assert!(!is_shown(false, true));
    assert!(is_shown(false, false));
    let (kept, suppressed) = split_events(vec![event("a"), event("b")], &vec![false, true]);
    assert_eq!(kept.len(), 1);
    assert_eq!(kept[0].line, "b");
    assert_eq!(suppressed, 1);
}
