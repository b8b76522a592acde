use mycode::history::{HistoryError, PromptHistory};
use mycode::plan::{PlanError, PlanFileManager};
use mycode::workspace::{join_path, path_starts_with, unique_slug, WorkspacePaths};

#[test]
fn plan_manager_creates_saves_loads_and_resets_plans() {
    let mut manager = PlanFileManager::new("/work".to_string());
    assert_eq!(manager.selected_path(), None);

    let first_path = manager.select_new_path(10, 1);
    assert!(path_starts_with(&first_path, "/work/.mycode/plans"));
    assert!(first_path.ends_with(".md"));
    assert_eq!(manager.selected_path(), Some(first_path.as_str()));
    assert_eq!(manager.select_path(11, 2), first_path);

    manager.reset();
    assert_eq!(manager.selected_path(), None);

    let second_path = manager.select_new_path(10, 2);
    assert_ne!(first_path, second_path);
    assert_eq!(manager.selected_path(), Some(second_path.as_str()));
}

#[test]
fn plan_state_does_not_leak_between_workspaces() {
    let mut first = PlanFileManager::new("/first".to_string());
    let mut second = PlanFileManager::new("/second".to_string());
    let first_path = first.select_new_path(10, 1);
    let second_path = second.select_new_path(10, 1);
    assert_ne!(first_path, second_path);
    assert_eq!(first.selected_path(), Some(first_path.as_str()));
    assert_eq!(second.selected_path(), Some(second_path.as_str()));
    assert_eq!(second.plans_dir(), "/second/.mycode/plans");
}

#[test]
fn plan_errors_name_the_file() {
    assert_eq!(
        PlanError::CreateDirectory { path: "d".into() }.message(),
        "failed to create the plans directory"
    );
    assert_eq!(
        PlanError::Write { path: "p.md".into() }.message(),
        "failed to write plan p.md"
    );
    assert_eq!(
        PlanError::Read { path: "p.md".into() }.message(),
        "failed to read plan p.md"
    );
}

#[test]
fn prompts_are_remembered_once_and_up_to_the_limit() {
    let history = PromptHistory::with_limit("/work".to_string(), 2);
    let mut contents = None;
    for (time, prompt) in ["one", "two", "two", "three"].into_iter().enumerate() {
        if let Some(written) = history.append(&contents, prompt, time as u64) {
            contents = Some(written);
        }
    }
    assert_eq!(history.load(&contents), vec!["two", "three"]);
    assert_eq!(history.append(&contents, "three", 9), None);
    assert_eq!(history.append(&contents, "  ", 9), None);
    assert!(history.load(&None).is_empty());
    assert_eq!(history.path(), "/work/.mycode/prompt_history.jsonl");
}

#[test]
fn lines_that_are_no_prompts_are_passed_over() {
    let history = PromptHistory::new("/work".to_string());
    let written = history
        .append(&None, "multi\nline", 1)
        .expect("a prompt is written");
    let contents = Some(format!("not json\n{written}"));
    assert_eq!(history.load(&contents), vec!["multi\nline"]);
}

#[test]
fn history_errors_tell_no_details() {
    assert_eq!(
        HistoryError::CreateDirectory.message(),
        "failed to create the prompt history directory"
    );
    assert_eq!(HistoryError::Read.message(), "failed to read prompt history");
    assert_eq!(
        HistoryError::Write.message(),
        "failed to write prompt history"
    );
    assert_eq!(
        HistoryError::Serialize.message(),
        "failed to serialize prompt history"
    );
}

#[test]
fn paths_of_a_workspace() {
    let paths = WorkspacePaths::new("/work".to_string());
    assert_eq!(paths.config_file(), "/work/.mycode/config.yaml");
    assert_eq!(paths.local_config_file(), "/work/.mycode/config.local.yaml");
    assert_eq!(paths.tool_results_dir(), "/work/.mycode/tool_results");
    assert_eq!(
        WorkspacePaths::home_config_file("/home/user"),
        "/home/user/.mycode/config.yaml"
    );
    assert_eq!(join_path("a", "b"), "a/b");
    assert_eq!(join_path("a/", "b"), "a/b");
    assert_eq!(join_path("a", "/b"), "/b");
}

#[test]
fn a_path_is_within_another_by_whole_names() {
    assert!(path_starts_with("/work/dir/file", "/work/dir"));
    assert!(path_starts_with("/work//./dir/file", "/work/dir/"));
    assert!(!path_starts_with("/work/directory", "/work/dir"));
    assert!(!path_starts_with("work/dir", "/work/dir"));
}

#[test]
fn slugs_differ_where_times_or_counters_do() {
    assert_eq!(unique_slug(5, 1), unique_slug(5, 1));
    assert_ne!(unique_slug(5, 1), unique_slug(5, 2));
    assert_ne!(unique_slug(51, 1), unique_slug(5, 11));
}
