use logtrak::order::{sort, sort_distinct, Order};
use logtrak::paths;
use std::path::{Component, Path, PathBuf};

fn samples() -> Vec<String> {
    let parts = ["", "/", "a", ".", "..", "b.log", ".x", "x.", "{today}", "a b", "\u{e9}"];
    let mut all = Vec::new();
    for first in parts {
        for second in parts {
            for third in parts {
                all.push(format!("{first}{second}{third}"));
                all.push(format!("{first}/{second}/{third}"));
                all.push(format!("/{first}//{second}/{third}/"));
                all.push(format!("./{first}/./{second}"));
            }
        }
    }
    all
}

fn text(chars: Vec<char>) -> String {
    chars.into_iter().collect()
}

#[test]
fn components_are_those_of_std() {
    for sample in samples() {
        let expected: Vec<String> = Path::new(&sample)
            .components()
            .map(|component| match component {
                Component::RootDir => "/".to_string(),
                other => other.as_os_str().to_str().expect("text").to_string(),
            })
            .collect();
        let found: Vec<String> = paths::components(&sample).into_iter().map(text).collect();
        assert_eq!(found, expected, "{sample}");
    }
}

#[test]
fn file_names_are_those_of_std() {
    for sample in samples() {
        let path = Path::new(&sample);
        let expected = path.file_name().map(|name| name.to_str().expect("text").to_string());
        assert_eq!(paths::file_name(&sample).map(text), expected, "{sample}");
        assert_eq!(
            paths::label(&sample),
            expected.clone().unwrap_or_else(|| sample.clone()),
            "{sample}"
        );
        if let Some(name) = expected {
            let chars: Vec<char> = name.chars().collect();
            let (stem, extension) = paths::split_extension(&chars);
            assert_eq!(Some(text(stem).as_str()), path.file_stem().and_then(|s| s.to_str()));
            assert_eq!(
                extension.map(text).as_deref(),
                path.extension().and_then(|s| s.to_str()),
                "{sample}"
            );
        }
    }
}

#[test]
fn parents_are_those_of_std() {
    for sample in samples() {
        let expected = Path::new(&sample)
            .parent()
            .map(|parent| parent.to_str().expect("text").to_string());
        assert_eq!(paths::parent(&sample), expected, "{sample}");
    }
}

#[test]
fn joined_paths_are_those_of_std() {
    for dir in ["", "/", "a", "a/", "/a/b", "./x", "\u{e9}"] {
        for name in ["x", "x.log", "/abs", "a b", "..", ""] {
            let expected = Path::new(dir).join(name);
            assert_eq!(paths::join(dir, name), expected.to_str().expect("text"), "{dir} {name}");
        }
    }
}

#[test]
fn same_paths_are_those_of_std() {
    let all = samples();
    for (i, a) in all.iter().enumerate().step_by(7) {
        for b in all.iter().skip(i % 5).step_by(41) {
            assert_eq!(
                paths::is_same_path(a, b),
                PathBuf::from(a) == PathBuf::from(b),
                "{a} {b}"
            );
        }
    }
}

#[test]
fn paths_are_sorted_as_std_sorts_them() {
    let mut expected: Vec<PathBuf> = samples().iter().step_by(11).map(PathBuf::from).collect();
    let mine: Vec<String> = samples().into_iter().step_by(11).collect();
    expected.sort();
    let sorted: Vec<PathBuf> = sort(Order::Path, &mine).into_iter().map(PathBuf::from).collect();
    assert_eq!(sorted, expected);
}

#[test]
fn texts_are_sorted_as_std_sorts_them() {
    let mine: Vec<String> = ["b", "a", "B", "\u{10000}", "\u{ffff}", "", "ab", "a"]
        .iter()
        .map(|s| s.to_string())
        .collect();
    let mut expected = mine.clone();
    expected.sort();
    assert_eq!(sort(Order::Text, &mine), expected);
    expected.dedup();
    assert_eq!(sort_distinct(&mine), expected);
}
