use todo::line::StateFilter;
use todo::todo_ops::{parse_todos, plan_selection, resolve_picks, SelectionPlan};

fn lines(v: &[&str]) -> Vec<String> {
    v.iter().map(|s| s.to_string()).collect()
}

#[test]
fn unique_best_match_selects_without_prompt() {
    let ls = lines(&["- [ ] buy milk", "- [ ] call mom"]);
    let todos = parse_todos(&ls, StateFilter::Unchecked);
    let plan = plan_selection(&todos, "buy", false);
    match plan {
        SelectionPlan::Direct(v) => assert_eq!(v, vec![0]),
        _ => panic!("expected a direct selection"),
    }
}

#[test]
fn tied_best_matches_are_prompted() {
    let ls = lines(&["- [ ] buy milk", "- [ ] call mom", "- [ ] buy milk"]);
    let todos = parse_todos(&ls, StateFilter::Unchecked);
    let plan = plan_selection(&todos, "buy milk", false);
    match plan {
        SelectionPlan::Prompt(v) => assert_eq!(v, vec![0, 2]),
        _ => panic!("expected a disambiguation prompt"),
    }
}

#[test]
fn all_flag_selects_every_todo() {
    let ls = lines(&["- [ ] a", "skip", "- [ ] b"]);
    let todos = parse_todos(&ls, StateFilter::Unchecked);
    let plan = plan_selection(&todos, "", true);
    match plan {
        SelectionPlan::Direct(v) => assert_eq!(v, vec![0, 2]),
        _ => panic!("expected a direct selection"),
    }
}

#[test]
fn empty_query_prompts_over_all() {
    let ls = lines(&["- [ ] a", "- [ ] b"]);
    let todos = parse_todos(&ls, StateFilter::Unchecked);
    let plan = plan_selection(&todos, "", false);
    match plan {
        SelectionPlan::Prompt(v) => assert_eq!(v, vec![0, 1]),
        _ => panic!("expected a prompt over all todos"),
    }
}

#[test]
fn no_candidates_yields_no_todos() {
    let todos = parse_todos(&lines(&["nothing here"]), StateFilter::Unchecked);
    assert!(matches!(plan_selection(&todos, "x", false), SelectionPlan::NoTodos));
}

#[test]
fn unmatched_query_yields_no_match() {
    let ls = lines(&["- [ ] buy milk"]);
    let todos = parse_todos(&ls, StateFilter::Unchecked);
    assert!(matches!(plan_selection(&todos, "zzz", false), SelectionPlan::NoMatch));
}

#[test]
fn resolve_picks_maps_labels_to_first_occurrence() {
    let ls = lines(&["- [ ] same", "- [ ] same", "- [ ] other"]);
    let todos = parse_todos(&ls, StateFilter::Unchecked);
    let positions: Vec<usize> = vec![0, 1, 2];
    let picks: Vec<String> = vec!["same".to_string(), "other".to_string()];
    let sel = resolve_picks(&todos, &positions, &picks);
    assert_eq!(sel, vec![0, 2]);
}

#[test]
fn resolve_picks_drops_unknown_labels() {
    let ls = lines(&["- [ ] a"]);
    let todos = parse_todos(&ls, StateFilter::Unchecked);
    let sel = resolve_picks(&todos, &vec![0], &vec!["missing".to_string()]);
    assert_eq!(sel, Vec::<usize>::new());
}

#[test]
fn smart_case_matching() {
    let ls = lines(&["- [ ] Buy Milk"]);
    let todos = parse_todos(&ls, StateFilter::Unchecked);
    // Lower-case query matches case-insensitively.
    assert!(matches!(plan_selection(&todos, "buy", false), SelectionPlan::Direct(_)));
    // A capital in the query demands a capital in the label.
    let ls2 = lines(&["- [ ] buy milk"]);
    let todos2 = parse_todos(&ls2, StateFilter::Unchecked);
    assert!(matches!(plan_selection(&todos2, "Buy", false), SelectionPlan::NoMatch));
}
