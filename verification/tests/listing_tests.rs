use cargo_xtask_runner::listing::{parse_listing, target_names_of};
use cargo_xtask_runner::state::AppState;
use cargo_xtask_runner::tasks::TaskStatus;
use cargo_xtask_runner::xtask::task_list;

fn fields(text: &str) -> Vec<(String, String, String)> {
    parse_listing(text)
        .into_iter()
        .map(|e| (e.target, e.id, e.desc))
        .collect()
}

fn triple(t: &str, i: &str, d: &str) -> (String, String, String) {
    (t.to_string(), i.to_string(), d.to_string())
}

#[test]
fn readme_listing_is_parsed() {
    let text = "workspace|fmt|Format all code\npackage|test|Run unit tests\npackage|build|Build release binary\n";
    assert_eq!(
        fields(text),
        vec![
            triple("workspace", "fmt", "Format all code"),
            triple("package", "test", "Run unit tests"),
            triple("package", "build", "Build release binary"),
        ]
    );
    let names: Vec<String> = target_names_of(&parse_listing(text));
    assert_eq!(names, vec!["workspace".to_string(), "package".to_string()]);
}

#[test]
fn fields_are_trimmed_and_description_keeps_bars() {
    assert_eq!(
        fields("  a \t|  b  | desc | with | bars  \r\n"),
        vec![triple("a", "b", "desc | with | bars")]
    );
}

#[test]
fn malformed_lines_are_skipped() {
    assert_eq!(
        fields("no bars here\nonly|one\n\n|x|\nt|i|d"),
        vec![triple("", "x", ""), triple("t", "i", "d")]
    );
    assert_eq!(fields(""), vec![]);
}

#[test]
fn crlf_and_unicode_whitespace() {
    assert_eq!(
        fields("t\u{00A0}|i\u{3000}|d\r\nu|j|e\r"),
        vec![triple("t", "i", "d"), triple("u", "j", "e")]
    );
}

#[test]
fn targets_unique_in_first_appearance_order() {
    let text = "b|1|x\na|2|y\nb|3|z\nc|4|w\na|5|v\n";
    let names = target_names_of(&parse_listing(text));
    assert_eq!(names, vec!["b", "a", "c"]);
}

#[test]
fn own_xtask_listing_round_trips() {
    let text: String = task_list().iter().map(|l| format!("{l}\n")).collect();
    let entries = fields(&text);
    assert_eq!(entries.len(), 4);
    assert!(entries.iter().all(|e| e.0 == "cargo-xtask-runner"));
    assert_eq!(
        entries.iter().map(|e| e.1.as_str()).collect::<Vec<_>>(),
        vec!["fmt", "clippy", "build", "test"]
    );
    assert_eq!(entries[2].2, "Build release binary with x64 windows target");
}

#[test]
fn reload_builds_rows_of_selected_target() {
    let mut s = AppState::new(None);
    s.reload(Ok("workspace|fmt|Format\npkg|test|Test\npkg|build|Build\n".to_string()));
    assert!(s.load_error.is_none());
    assert_eq!(s.selected_target, 0);
    assert_eq!(s.target_names, vec!["workspace", "pkg"]);
    assert_eq!(s.tasks.len(), 1);
    assert_eq!(s.tasks[0].id, "fmt");
    assert!(s.tasks[0].is_global);
    assert!(s.tasks[0].checked);
    assert_eq!(s.tasks[0].status, TaskStatus::Idle);
    assert_eq!(s.current_target(), Some("workspace"));
}

#[test]
fn reload_clamps_selection() {
    let mut s = AppState::new(None);
    s.reload(Ok("a|1|x\nb|2|y\nc|3|z\n".to_string()));
    assert!(s.select_target(2, &mut Vec::new()));
    s.reload(Ok("a|1|x\nb|2|y\n".to_string()));
    assert_eq!(s.selected_target, 1);
    assert_eq!(s.tasks.len(), 1);
    assert_eq!(s.tasks[0].id, "2");
    assert!(!s.tasks[0].is_global);
}

#[test]
fn reload_errors() {
    let mut s = AppState::new(None);
    s.reload(Err("program not found".to_string()));
    assert_eq!(
        s.load_error.as_deref(),
        Some("Failed to run `cargo xtask --list`: program not found\nMake sure `cargo` is in PATH and this exe is next to Cargo.toml.")
    );
    assert!(s.target_names.is_empty());
    s.reload(Ok("nothing useful\n".to_string()));
    assert_eq!(
        s.load_error.as_deref(),
        Some("`cargo xtask --list` returned no entries.\nExpected format: target|task_id|description")
    );
    assert!(s.tasks.is_empty());
}

#[test]
fn initial_error_is_kept() {
    let s = AppState::new(Some("No Cargo.toml found.".to_string()));
    assert_eq!(s.load_error.as_deref(), Some("No Cargo.toml found."));
    assert_eq!(s.cargo_rows.len(), 11);
    assert!(s.cargo_rows.iter().all(|r| r.checked && r.status == TaskStatus::Idle));
}

#[test]
fn own_xtask_listing_loads() {
    let text: String = task_list().iter().map(|l| format!("{l}\n")).collect();
    let mut s = AppState::new(None);
    s.reload(Ok(text));
    assert!(s.load_error.is_none());
    assert_eq!(s.target_names, vec!["cargo-xtask-runner"]);
    assert_eq!(s.tasks.len(), 4);
    assert!(s.tasks.iter().all(|t| !t.is_global && t.checked && t.status == TaskStatus::Idle));
}
