use yarte::print::{is_stable_cargo, without_last_lines};

#[test]
fn stable_cargo_versions() {
    assert!(is_stable_cargo("cargo 1.75.0 (1d8b05cdd 2023-11-20)"));
    assert!(!is_stable_cargo("cargo 1.77.0-nightly (abc 2024-01-01)"));
    assert!(!is_stable_cargo("rustc 1.75.0"));
    assert!(!is_stable_cargo(""));
}

#[test]
fn dropping_trailing_lines() {
    assert_eq!(without_last_lines("a\nb\nc\nd", 2), "a\nb");
    assert_eq!(without_last_lines("a\nb\nc\n", 1), "a\nb");
    assert_eq!(without_last_lines("a\nb", 0), "a\nb");
    assert_eq!(without_last_lines("a\nb\n", 0), "a\nb");
    assert_eq!(without_last_lines("a\nb", 2), "");
    assert_eq!(without_last_lines("", 0), "");
}
