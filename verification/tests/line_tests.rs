use todo::line::{classify_line, flip_first_marker, CheckState};

#[test]
fn classify_unchecked_dash() {
    let r = classify_line("- [ ] buy milk");
    assert!(matches!(r, Some((CheckState::Unchecked, _))));
    assert_eq!(r.unwrap().1, "buy milk");
}

#[test]
fn classify_checked_dash() {
    let r = classify_line("- [x] buy milk");
    assert!(matches!(r, Some((CheckState::Checked, _))));
    assert_eq!(r.unwrap().1, "buy milk");
}

#[test]
fn classify_star_and_plus_bullets() {
    assert!(matches!(classify_line("* [ ] a"), Some((CheckState::Unchecked, _))));
    assert!(matches!(classify_line("+ [x] b"), Some((CheckState::Checked, _))));
}

#[test]
fn classify_without_bullet() {
    assert!(matches!(classify_line("[ ] bare"), Some((CheckState::Unchecked, _))));
    assert!(matches!(classify_line(" [x] indented"), Some((CheckState::Checked, _))));
}

#[test]
fn classify_bullet_without_space() {
    assert!(matches!(classify_line("-[ ] tight"), Some((CheckState::Unchecked, _))));
}

#[test]
fn classify_leading_whitespace() {
    let r = classify_line("   - [ ] deep");
    assert!(matches!(r, Some((CheckState::Unchecked, _))));
    let r = classify_line("\t- [x] tabbed");
    assert!(matches!(r, Some((CheckState::Checked, _))));
}

#[test]
fn classify_label_is_trimmed() {
    let r = classify_line("- [ ]   spaced out   ");
    assert_eq!(r.unwrap().1, "spaced out");
}

#[test]
fn classify_rejects_non_todo_lines() {
    assert!(classify_line("").is_none());
    assert!(classify_line("# heading").is_none());
    assert!(classify_line("plain prose").is_none());
    assert!(classify_line("- a plain bullet").is_none());
    assert!(classify_line("- []").is_none());
    assert!(classify_line("- [y] wrong marker").is_none());
    // The checked marker is case-sensitive.
    assert!(classify_line("- [X] capital").is_none());
}

#[test]
fn classify_requires_text_after_checkbox() {
    assert!(classify_line("- [ ]").is_none());
    assert!(classify_line("- [x]").is_none());
    // A single space after the checkbox is content (an empty label).
    let r = classify_line("- [ ] ");
    assert!(matches!(r, Some((CheckState::Unchecked, _))));
    assert_eq!(r.unwrap().1, "");
}

#[test]
fn classify_double_space_before_checkbox() {
    // Two spaces after the bullet do not fit the grammar.
    assert!(classify_line("-  [ ] far").is_none());
}

#[test]
fn flip_changes_only_first_marker() {
    let r = flip_first_marker("- [ ] a [ ] b", ' ', 'x');
    assert_eq!(r, "- [x] a [ ] b");
}

#[test]
fn flip_without_marker_is_identity() {
    let r = flip_first_marker("no checkbox here", ' ', 'x');
    assert_eq!(r, "no checkbox here");
    let r = flip_first_marker("- [x] checked", ' ', 'x');
    assert_eq!(r, "- [x] checked");
}

#[test]
fn flip_uncheck_direction() {
    let r = flip_first_marker("- [x] done", 'x', ' ');
    assert_eq!(r, "- [ ] done");
}
