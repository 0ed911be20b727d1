use todo::cli::DeleteArgs;
use todo::config::Config;
use todo::count::{count_todos, CountFilter};
use todo::line::StateFilter;
use todo::list::{list_lines, ListMode};
use todo::sync::{delete_plan, sync_plan, unsync_plan, DeletePlan, SyncPlan, UnsyncPlan};
use todo::utils::{
    editor_var_name, get_config_path, get_cwd_todo_dir, get_todo_file_path, get_todo_path,
    todo_file_name,
};

fn lines(v: &[&str]) -> Vec<String> {
    v.iter().map(|s| s.to_string()).collect()
}

#[test]
fn store_and_config_paths() {
    assert_eq!(get_todo_path("/home/u"), "/home/u/.todo/todos");
    assert_eq!(get_config_path("/home/u"), "/home/u/.todo/config.toml");
}

#[test]
fn cwd_todo_dir_under_home() {
    assert_eq!(
        get_cwd_todo_dir("/home/u", "/home/u/projects/x"),
        "/home/u/.todo/todos/projects/x"
    );
}

#[test]
fn cwd_todo_dir_at_home_itself() {
    assert_eq!(get_cwd_todo_dir("/home/u", "/home/u"), "/home/u/.todo/todos");
}

#[test]
fn cwd_todo_dir_outside_home() {
    // A directory outside the home still lands under the store root: its
    // leading separator is dropped and the rest keeps its shape.
    assert_eq!(get_cwd_todo_dir("/home/u", "/tmp/work"), "/home/u/.todo/todos/tmp/work");
}

#[test]
fn todo_file_path_appends_configured_name() {
    let c = Config::default();
    assert_eq!(get_todo_file_path("/home/u/.todo/todos/p", &c), "/home/u/.todo/todos/p/todo.md");
    assert_eq!(todo_file_name(&c), "todo.md");
}

#[test]
fn editor_var_name_convention() {
    assert_eq!(editor_var_name("$EDITOR").as_deref(), Some("EDITOR"));
    assert_eq!(editor_var_name("$VISUAL").as_deref(), Some("VISUAL"));
    assert_eq!(editor_var_name("vim"), None);
    assert_eq!(editor_var_name(""), None);
}

#[test]
fn count_by_filter() {
    let ls = lines(&["- [ ] a", "# x", "- [x] b", "- [x] c", "prose"]);
    assert_eq!(count_todos(&ls, CountFilter::All), 3);
    assert_eq!(count_todos(&ls, CountFilter::Checked), 2);
    assert_eq!(count_todos(&ls, CountFilter::Unchecked), 1);
}

#[test]
fn list_filters_and_trims() {
    let ls = lines(&["- [ ] a   ", "# x", "- [x] b", "prose"]);
    assert_eq!(list_lines(&ls, ListMode::All), lines(&["- [ ] a", "- [x] b"]));
    assert_eq!(list_lines(&ls, ListMode::Checked), lines(&["- [x] b"]));
    assert_eq!(list_lines(&ls, ListMode::Unchecked), lines(&["- [ ] a"]));
}

#[test]
fn list_mode_is_raw() {
    assert!(ListMode::Raw.is_raw());
    assert!(!ListMode::All.is_raw());
    assert!(!ListMode::Checked.is_raw());
}

#[test]
fn sync_plans() {
    assert_eq!(sync_plan(false, true, true), SyncPlan::InvalidPath);
    assert_eq!(sync_plan(true, false, false), SyncPlan::MissingSource);
    assert_eq!(sync_plan(true, true, true), SyncPlan::AlreadySynced);
    assert_eq!(sync_plan(true, true, false), SyncPlan::CreateLink);
}

#[test]
fn unsync_plans() {
    assert_eq!(unsync_plan(false, true), UnsyncPlan::InvalidPath);
    assert_eq!(unsync_plan(true, false), UnsyncPlan::NotSynced);
    assert_eq!(unsync_plan(true, true), UnsyncPlan::RemoveLink);
}

#[test]
fn delete_plans() {
    assert_eq!(delete_plan(&DeleteArgs { all: true, recurse: false }), DeletePlan::AllTodos);
    assert_eq!(delete_plan(&DeleteArgs { all: false, recurse: true }), DeletePlan::Recurse);
    assert_eq!(delete_plan(&DeleteArgs { all: false, recurse: false }), DeletePlan::SingleFile);
}

#[test]
fn state_filters_from_modes() {
    assert_eq!(ListMode::Checked.state_filter(), StateFilter::Checked);
    assert_eq!(CountFilter::Unchecked.state_filter(), StateFilter::Unchecked);
}
