use todo::line::StateFilter;
use todo::search::{
    live_render_plan, live_step, search_matches, sort_matches, Key, LiveAction, SearchMatch,
};
use todo::todo_ops::parse_todos;
use todo::utils::highlight_indices;

fn lines(v: &[&str]) -> Vec<String> {
    v.iter().map(|s| s.to_string()).collect()
}

#[test]
fn search_reports_matches_in_file_order() {
    let ls = lines(&["- [ ] buy milk", "- [ ] call mom", "- [x] buy bread"]);
    let todos = parse_todos(&ls, StateFilter::Any);
    let ms = search_matches(&todos, "buy");
    assert_eq!(ms.len(), 2);
    assert_eq!(ms[0].line, "- [ ] buy milk");
    assert_eq!(ms[1].line, "- [x] buy bread");
}

#[test]
fn search_indices_are_offset_into_the_line() {
    let ls = lines(&["- [ ] buy milk"]);
    let todos = parse_todos(&ls, StateFilter::Any);
    let ms = search_matches(&todos, "buy");
    // The label starts at column 6 of the line; "buy" matches its first
    // three characters.
    assert_eq!(ms[0].indices, vec![6, 7, 8]);
}

#[test]
fn search_trims_line_ends() {
    let ls = lines(&["- [ ] pad   "]);
    let todos = parse_todos(&ls, StateFilter::Any);
    let ms = search_matches(&todos, "pad");
    assert_eq!(ms[0].line, "- [ ] pad");
}

#[test]
fn search_empty_query_matches_everything() {
    let ls = lines(&["- [ ] a", "- [x] b"]);
    let todos = parse_todos(&ls, StateFilter::Any);
    let ms = search_matches(&todos, "");
    assert_eq!(ms.len(), 2);
    assert!(ms[0].indices.is_empty());
}

#[test]
fn sort_orders_by_descending_score() {
    let mk = |score: i64, line: &str| SearchMatch {
        score,
        indices: Vec::new(),
        line: line.to_string(),
    };
    let sorted = sort_matches(vec![mk(1, "low"), mk(9, "high"), mk(5, "mid")]);
    let scores: Vec<i64> = sorted.iter().map(|m| m.score).collect();
    assert_eq!(scores, vec![9, 5, 1]);
}

#[test]
fn highlight_wraps_selected_characters() {
    let out = highlight_indices("abc", &vec![1]);
    assert_eq!(out, "a\u{1b}[1mb\u{1b}[0mc");
}

#[test]
fn highlight_ignores_out_of_range_indices() {
    let out = highlight_indices("ab", &vec![7]);
    assert_eq!(out, "ab");
}

#[test]
fn live_step_edits_query() {
    let mut q = String::new();
    assert!(matches!(live_step(&mut q, Key::Char('a')), LiveAction::Redraw));
    assert!(matches!(live_step(&mut q, Key::Char('b')), LiveAction::Redraw));
    assert_eq!(q, "ab");
    assert!(matches!(live_step(&mut q, Key::Backspace), LiveAction::Redraw));
    assert_eq!(q, "a");
    assert!(matches!(live_step(&mut q, Key::Enter), LiveAction::Exit));
    assert!(matches!(live_step(&mut q, Key::Esc), LiveAction::Exit));
    assert!(matches!(live_step(&mut q, Key::Other), LiveAction::Ignore));
    assert_eq!(q, "a");
}

#[test]
fn live_step_backspace_on_empty_query() {
    let mut q = String::new();
    assert!(matches!(live_step(&mut q, Key::Backspace), LiveAction::Ignore));
    assert_eq!(q, "");
}

#[test]
fn render_plan_lays_out_bottom_up() {
    let mk = |line: &str| SearchMatch { score: 0, indices: Vec::new(), line: line.to_string() };
    let ms = vec![mk("one"), mk("two"), mk("three")];
    let plan = live_render_plan(&ms, 10, 80, "q");
    assert_eq!(plan.search_row, 9);
    assert_eq!(plan.lines.len(), 3);
    assert_eq!(plan.lines[0].row, 8);
    assert_eq!(plan.lines[0].text, "one");
    assert_eq!(plan.lines[2].row, 6);
    assert!(plan.show_hint);
}

#[test]
fn render_plan_clips_to_screen_height() {
    let mk = |line: &str| SearchMatch { score: 0, indices: Vec::new(), line: line.to_string() };
    let ms = vec![mk("a"), mk("b"), mk("c"), mk("d")];
    let plan = live_render_plan(&ms, 3, 80, "");
    assert_eq!(plan.lines.len(), 2);
}

#[test]
fn render_plan_hides_hint_on_narrow_screens() {
    let plan = live_render_plan(&Vec::new(), 5, 20, "a query");
    assert!(!plan.show_hint);
}
