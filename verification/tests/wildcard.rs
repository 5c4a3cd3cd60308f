use logtrak::snapshot::{DirEntry, DirOutcome};
use logtrak::wildcard::{
    contains_wildcards, contains_wildcards_in_path, plan_wildcard, select_wildcard_matches,
    wildcard_match, WildcardPlan,
};

/// Matches by trying every way in which a star can be filled.
fn slow_match(pattern: &[u8], candidate: &[u8]) -> bool {
    match pattern.first() {
        None => candidate.is_empty(),
        Some(b'*') => (0..=candidate.len()).any(|n| slow_match(&pattern[1..], &candidate[n..])),
        Some(p) => {
            !candidate.is_empty()
                && (*p == b'?' || *p == candidate[0])
                && slow_match(&pattern[1..], &candidate[1..])
        }
    }
}

fn words(alphabet: &[u8], max: usize) -> Vec<Vec<u8>> {
    let mut all: Vec<Vec<u8>> = vec![Vec::new()];
    let mut last = all.clone();
    for _ in 0..max {
        let mut next = Vec::new();
        for word in &last {
            for letter in alphabet {
                let mut longer = word.clone();
                longer.push(*letter);
                next.push(longer);
            }
        }
        all.extend(next.iter().cloned());
        last = next;
    }
    all
}

#[test]
fn matching_agrees_with_trying_everything() {
    for pattern in words(b"ab*?", 5) {
        let pattern_text = String::from_utf8(pattern.clone()).expect("ascii");
        for candidate in words(b"ab", 5) {
            let candidate_text = String::from_utf8(candidate.clone()).expect("ascii");
            assert_eq!(
                wildcard_match(&pattern_text, &candidate_text),
                slow_match(&pattern, &candidate),
                "{pattern_text} {candidate_text}"
            );
        }
    }
}

#[test]
fn a_star_stands_for_stars_too() {
    assert!(wildcard_match("*a", "*ba"));
    assert!(wildcard_match("app-*.log", "app-*.log"));
    assert!(wildcard_match("a*", "a"));
    assert!(!wildcard_match("a?", "a"));
    assert!(!wildcard_match("", "a"));
    assert!(wildcard_match("", ""));
}

#[test]
fn a_question_mark_stands_for_one_byte() {
    assert!(!wildcard_match("?", "\u{e9}"));
    assert!(wildcard_match("??", "\u{e9}"));
}

#[test]
fn wildcards_are_found() {
    assert!(contains_wildcards("a*b"));
    assert!(contains_wildcards("a?"));
    assert!(!contains_wildcards("plain"));
    assert!(contains_wildcards_in_path("/a/b?c/d"));
    assert!(!contains_wildcards_in_path("/a/b/d"));
}

#[test]
fn patterns_are_planned() {
    assert!(matches!(plan_wildcard("/a/b.log"), WildcardPlan::Literal(path) if path == "/a/b.log"));
    assert!(matches!(
        plan_wildcard("/a/*.log"),
        WildcardPlan::List { dir, pattern } if dir == "/a" && pattern == "*.log"
    ));
    assert!(matches!(
        plan_wildcard("*.log"),
        WildcardPlan::List { dir, pattern } if dir == "." && pattern == "*.log"
    ));
    assert!(matches!(plan_wildcard("a/**/b"), WildcardPlan::Rejected(_)));
}

#[test]
fn only_files_are_selected_and_in_order() {
    let listing = DirOutcome::Entries(
        [("b.log", true), ("sub.log", false), ("a.log", true), ("a.txt", true)]
            .iter()
            .map(|(name, is_file)| DirEntry {
                name: name.to_string(),
                is_file: *is_file,
            })
            .collect(),
    );
    let (files, warnings, more) =
        select_wildcard_matches("d/*.log", "d", "*.log", Some(&listing));
    assert_eq!(files, vec!["d/a.log", "d/b.log"]);
    assert!(warnings.is_empty() && !more);
    let (files, warnings, more) = select_wildcard_matches("d/*.log", "d", "*.log", None);
    assert!(files.is_empty() && warnings.is_empty() && !more);
}
