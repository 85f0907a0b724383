//! Default path helpers and the text preview.

use openclipboard::{default_identity_path, default_trust_path, preview};

#[test]
fn default_identity_path_returns_something() {
    let p = default_identity_path();
    assert!(!p.is_empty());
    assert!(p.contains("identity"));
}

#[test]
fn default_trust_path_returns_something() {
    let p = default_trust_path();
    assert!(!p.is_empty());
    assert!(p.contains("trust"));
}

#[test]
fn preview_keeps_short_text() {
    assert_eq!(preview("short"), "short");
    assert_eq!(preview(""), "");
}

#[test]
fn preview_truncates_long_text() {
    let long = "x".repeat(200);
    let p = preview(&long);
    assert_eq!(p.chars().count(), 81);
    assert!(p.starts_with(&"x".repeat(80)));
    assert!(p.ends_with('\u{2026}'));
}
