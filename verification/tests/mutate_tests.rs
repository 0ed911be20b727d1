use todo::line::StateFilter;
use todo::text::{join_lines, split_lines};
use todo::todo_ops::{
    apply_check, apply_remove, apply_uncheck, check_content, parse_todos, parse_todos_content,
    remove_content, uncheck_content,
};

fn lines(v: &[&str]) -> Vec<String> {
    v.iter().map(|s| s.to_string()).collect()
}

#[test]
fn split_lines_basics() {
    assert_eq!(split_lines(""), Vec::<String>::new());
    assert_eq!(split_lines("a\nb"), lines(&["a", "b"]));
    assert_eq!(split_lines("a\nb\n"), lines(&["a", "b"]));
    assert_eq!(split_lines("a\r\nb"), lines(&["a", "b"]));
    assert_eq!(split_lines("a\n\nb"), lines(&["a", "", "b"]));
    assert_eq!(split_lines("a\r"), lines(&["a\r"]));
}

#[test]
fn join_lines_basics() {
    assert_eq!(join_lines(&lines(&[])), "");
    assert_eq!(join_lines(&lines(&["a"])), "a");
    assert_eq!(join_lines(&lines(&["a", "", "b"])), "a\n\nb");
}

#[test]
fn check_flips_selected_line() {
    let ls = lines(&["# list", "- [ ] one", "- [ ] two"]);
    let out = apply_check(&ls, &vec![1]);
    assert_eq!(out, lines(&["# list", "- [x] one", "- [ ] two"]));
}

#[test]
fn uncheck_flips_selected_line() {
    let ls = lines(&["- [x] one", "- [x] two"]);
    let out = apply_uncheck(&ls, &vec![0]);
    assert_eq!(out, lines(&["- [ ] one", "- [x] two"]));
}

#[test]
fn mutators_leave_non_matching_lines_byte_identical() {
    let ls = lines(&["# header", "", "prose line", "- [ ] item", "  trailing ws  "]);
    let todos = parse_todos(&ls, StateFilter::Unchecked);
    let sel: Vec<usize> = todos.iter().map(|t| t.index).collect();
    let checked = apply_check(&ls, &sel);
    assert_eq!(checked[0], "# header");
    assert_eq!(checked[1], "");
    assert_eq!(checked[2], "prose line");
    assert_eq!(checked[3], "- [x] item");
    assert_eq!(checked[4], "  trailing ws  ");
}

#[test]
fn checking_already_checked_line_is_noop() {
    let ls = lines(&["- [x] done", "- [ ] open"]);
    // `check` selects among unchecked todos only.
    let todos = parse_todos(&ls, StateFilter::Unchecked);
    assert_eq!(todos.len(), 1);
    assert_eq!(todos[0].index, 1);
    let out = apply_check(&ls, &vec![todos[0].index]);
    assert_eq!(out[0], "- [x] done");
    assert_eq!(out[1], "- [x] open");
}

#[test]
fn checking_twice_changes_nothing() {
    let ls = lines(&["- [ ] a", "- [ ] b"]);
    let once = apply_check(&ls, &vec![0, 1]);
    // After a full check, no unchecked todos are left to select.
    assert!(parse_todos(&once, StateFilter::Unchecked).is_empty());
    let again = apply_check(&once, &Vec::new());
    assert_eq!(again, once);
}

#[test]
fn uncheck_restores_a_checked_selection() {
    let ls = lines(&["- [ ] a", "keep", "- [ ] b"]);
    let sel = vec![0, 2];
    let back = apply_uncheck(&apply_check(&ls, &sel), &sel);
    assert_eq!(back, ls);
}

#[test]
fn check_preserves_line_count() {
    let ls = lines(&["- [ ] a", "x", "- [ ] b"]);
    assert_eq!(apply_check(&ls, &vec![0, 2]).len(), 3);
    assert_eq!(apply_uncheck(&ls, &vec![0]).len(), 3);
}

#[test]
fn remove_drops_exactly_selection_size() {
    let ls = lines(&["- [ ] a", "keep", "- [ ] b", "- [x] c"]);
    let out = apply_remove(&ls, &vec![0, 3]);
    assert_eq!(out, lines(&["keep", "- [ ] b"]));
    assert_eq!(out.len(), ls.len() - 2);
}

#[test]
fn remove_with_empty_selection_keeps_all() {
    let ls = lines(&["a", "b"]);
    assert_eq!(apply_remove(&ls, &vec![]), ls);
}

#[test]
fn content_level_check_round_trip() {
    let content = "# todos\n- [ ] one\n- [ ] two";
    let out = check_content(content, &vec![1]);
    assert_eq!(out, "# todos\n- [x] one\n- [ ] two");
    let back = uncheck_content(&out, &vec![1]);
    assert_eq!(back, content);
}

#[test]
fn content_level_remove() {
    let content = "- [ ] one\nkeep me\n- [ ] two";
    let out = remove_content(content, &vec![0, 2]);
    assert_eq!(out, "keep me");
}

#[test]
fn parse_todos_content_splits_first() {
    let todos = parse_todos_content("- [ ] a\r\n- [x] b\n", StateFilter::Any);
    assert_eq!(todos.len(), 2);
    assert_eq!(todos[0].line, "- [ ] a");
    assert_eq!(todos[1].index, 1);
}

#[test]
fn parse_todos_indices_and_labels() {
    let ls = lines(&["- [ ] first", "# x", "- [x] second", "- [ ] third"]);
    let unchecked = parse_todos(&ls, StateFilter::Unchecked);
    assert_eq!(unchecked.len(), 2);
    assert_eq!(unchecked[0].index, 0);
    assert_eq!(unchecked[0].label, "first");
    assert_eq!(unchecked[1].index, 3);
    let checked = parse_todos(&ls, StateFilter::Checked);
    assert_eq!(checked.len(), 1);
    assert_eq!(checked[0].index, 2);
    assert_eq!(checked[0].label, "second");
    let any = parse_todos(&ls, StateFilter::Any);
    assert_eq!(any.len(), 3);
}
