use cargo_xtask_runner::state::{sentinel, AppState};
use cargo_xtask_runner::strmap::StrMap;
use cargo_xtask_runner::tasks::{cargo_commands, CmdScope, TaskStatus};

fn loaded(listing: &str) -> AppState {
    let mut s = AppState::new(None);
    s.reload(Ok(listing.to_string()));
    s
}

#[test]
fn checkboxes_survive_switching_targets() {
    let mut s = loaded("a|x|1\na|y|2\nb|z|3\n");
    let mut log = vec!["output".to_string()];
    s.tasks[0].checked = false;
    assert!(s.select_target(1, &mut log));
    assert!(log.is_empty());
    assert_eq!(s.tasks.len(), 1);
    assert_eq!(s.tasks[0].id, "z");
    assert!(s.tasks[0].checked);
    s.tasks[0].checked = false;
    assert!(s.select_target(0, &mut log));
    assert_eq!(s.tasks.iter().map(|t| t.checked).collect::<Vec<_>>(), vec![false, true]);
    assert!(s.select_target(1, &mut log));
    assert!(!s.tasks[0].checked);
}

#[test]
fn selecting_the_same_target_changes_nothing() {
    let mut s = loaded("a|x|1\n");
    s.tasks[0].checked = false;
    let mut log = vec!["kept".to_string()];
    assert!(!s.select_target(0, &mut log));
    assert_eq!(log, vec!["kept"]);
    assert!(!s.tasks[0].checked);
}

#[test]
fn checked_ids_in_order() {
    let mut s = loaded("a|x|1\na|y|2\na|w|3\n");
    s.tasks[1].checked = false;
    assert_eq!(s.checked_ids(), vec!["x", "w"]);
    assert!(s.any_checked());
    s.set_all_checked(false);
    assert!(s.checked_ids().is_empty());
    assert!(!s.any_checked());
    s.set_all_checked(true);
    assert_eq!(s.checked_ids().len(), 3);
}

#[test]
fn current_target_out_of_range() {
    let s = AppState::new(None);
    assert_eq!(s.current_target(), None);
}

#[test]
fn stop_fails_running_rows() {
    let mut s = loaded("a|x|1\na|y|2\n");
    s.tasks[0].status = TaskStatus::Running;
    s.tasks[1].status = TaskStatus::Done;
    s.cargo_rows[3].status = TaskStatus::Running;
    let mut log = vec!["line".to_string()];
    s.stop(&mut log);
    assert_eq!(log, vec!["line", "■  Stopped by user."]);
    assert_eq!(s.tasks[0].status, TaskStatus::Failed);
    assert_eq!(s.tasks[1].status, TaskStatus::Done);
    assert_eq!(s.cargo_rows[3].status, TaskStatus::Failed);
    assert_eq!(s.cargo_rows[0].status, TaskStatus::Idle);
}

#[test]
fn markers_update_statuses_and_leave_the_log() {
    let mut s = loaded("a|build|1\na|test|2\n");
    let mut log: Vec<String> = vec![
        "@@START:build".into(),
        "── header".into(),
        "compiling".into(),
        "@@DONE:build".into(),
        "@@START:test".into(),
        "@@STDERR:error: boom".into(),
        "@@FAIL:test".into(),
        "@@START:check".into(),
    ];
    s.apply_sentinels(&mut log);
    assert_eq!(log, vec!["── header", "compiling", "@@STDERR:error: boom"]);
    assert_eq!(s.tasks[0].status, TaskStatus::Done);
    assert_eq!(s.tasks[1].status, TaskStatus::Failed);
    // cargo rows share the markers: "build", "test" and "check" exist there too
    assert_eq!(s.cargo_rows[1].status, TaskStatus::Done);
    assert_eq!(s.cargo_rows[3].status, TaskStatus::Failed);
    assert_eq!(s.cargo_rows[0].status, TaskStatus::Running);
    assert_eq!(s.cargo_rows[2].status, TaskStatus::Idle);
}

#[test]
fn marker_parsing() {
    assert!(matches!(sentinel("@@START:x"), Some((TaskStatus::Running, id)) if id == "x"));
    assert!(matches!(sentinel("@@DONE:"), Some((TaskStatus::Done, id)) if id.is_empty()));
    assert!(matches!(sentinel("@@FAIL:a b"), Some((TaskStatus::Failed, id)) if id == "a b"));
    assert!(sentinel("@@STDERR:x").is_none());
    assert!(sentinel(" @@START:x").is_none());
}

#[test]
fn packages_and_enabled_commands() {
    let mut s = AppState::new(None);
    s.reload_packages(&vec![
        "[package]\nname = \"alpha\"\nversion = \"0.1.0\"\n".to_string(),
        "[package]\nversion = \"0.1.0\"\n".to_string(),
        "  name=beta\n".to_string(),
    ]);
    assert_eq!(s.packages, vec!["alpha", "beta"]);
    assert_eq!(s.current_package(), None);
    assert_eq!(s.package_label(), "Workspace (all)");
    let cmds = cargo_commands();
    let run = cmds.iter().find(|c| c.id == "run").unwrap();
    assert_eq!(run.scope, CmdScope::PackageOnly);
    assert!(!s.cargo_cmd_enabled(run));
    assert!(!s.checked_cargo_ids().contains(&"run".to_string()));
    s.cargo_rows[0].status = TaskStatus::Done;
    s.select_package(2);
    assert_eq!(s.cargo_rows[0].status, TaskStatus::Idle);
    assert_eq!(s.current_package(), Some("beta"));
    assert_eq!(s.package_label(), "beta");
    assert!(s.cargo_cmd_enabled(run));
    assert_eq!(s.checked_cargo_ids().len(), 11);
    s.select_package(7);
    assert_eq!(s.current_package(), None);
    assert_eq!(s.package_label(), "");
}

#[test]
fn cargo_checkboxes() {
    let mut s = AppState::new(None);
    assert!(s.any_cargo_checked());
    assert_eq!(
        s.checked_cargo_ids(),
        vec!["check", "build", "build-r", "test", "clippy", "fmt", "doc", "clean", "update"]
    );
    s.set_all_cargo_checked(false);
    assert!(!s.any_cargo_checked());
    s.cargo_rows[7].checked = true; // "run", needs a package
    assert!(!s.any_cargo_checked());
    assert!(s.checked_cargo_ids().is_empty());
}

#[test]
fn string_map_reads_back_writes() {
    let mut m: StrMap<bool> = StrMap::new();
    assert!(m.get("a").is_none());
    m.insert("a".to_string(), true);
    m.insert("b".to_string(), false);
    m.insert("a".to_string(), false);
    assert_eq!(m.get("a"), Some(&false));
    assert_eq!(m.get("b"), Some(&false));
    assert!(m.get("c").is_none());
}
