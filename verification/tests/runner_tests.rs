use cargo_xtask_runner::pipeline::Pipeline;
use cargo_xtask_runner::runner::{
    cargo_desc_suffix, next_target, prev_target, target_label, target_label_color, Action,
    Requests, XtaskRunner, ActiveTab,
};
use cargo_xtask_runner::state::AppState;
use cargo_xtask_runner::tasks::{CmdScope, TaskStatus};
use cargo_xtask_runner::theme::Shade;

fn runner(listing: &str) -> XtaskRunner {
    let mut s = AppState::new(None);
    s.reload(Ok(listing.to_string()));
    XtaskRunner::new(s)
}

fn ids(v: &[&str]) -> Vec<String> {
    v.iter().map(|s| s.to_string()).collect()
}

fn drive(mut p: Pipeline, outcomes: &[bool]) -> (Vec<Vec<String>>, Vec<String>) {
    let mut launched = Vec::new();
    let mut log = Vec::new();
    let mut i = 0;
    while let Some(l) = p.launch() {
        launched.push(l.args.clone());
        log.extend(l.log);
        log.extend(p.finish(outcomes[i]));
        i += 1;
    }
    (launched, log)
}

#[test]
fn workspace_tasks_run_without_target() {
    let mut r = runner("workspace|fmt|Format\nworkspace|lint|Lint\n");
    assert_eq!(r.active_tab, ActiveTab::Xtask);
    r.state.tasks[0].status = TaskStatus::Done;
    let p = r.run_tasks(&ids(&["fmt"])).unwrap();
    assert_eq!(r.state.tasks[0].status, TaskStatus::Idle);
    let step = &p.steps()[0];
    assert_eq!(step.args, vec!["xtask", "fmt"]);
    assert_eq!(step.header, format!("\n── cargo xtask fmt {}\n", "─".repeat(35)));
    assert_eq!(step.failure_note, "❌ Task `fmt` failed — pipeline stopped.");
}

#[test]
fn package_tasks_get_the_target() {
    let mut r = runner("mycrate|test|Run tests\n");
    let p = r.run_tasks(&ids(&["test", "unknown"])).unwrap();
    assert_eq!(p.steps()[0].args, vec!["xtask", "test", "mycrate"]);
    assert_eq!(
        p.steps()[0].header,
        format!("\n── cargo xtask test mycrate {}\n", "─".repeat(38 - 4 - 8))
    );
    // ids not among the rows are not workspace tasks
    assert_eq!(p.steps()[1].args, vec!["xtask", "unknown", "mycrate"]);
}

#[test]
fn long_ids_leave_no_rule() {
    let mut r = runner("t|an-id-that-is-far-longer-than-the-header-width|d\n");
    let p = r.run_tasks(&ids(&["an-id-that-is-far-longer-than-the-header-width"])).unwrap();
    assert_eq!(
        p.steps()[0].header,
        "\n── cargo xtask an-id-that-is-far-longer-than-the-header-width t \n"
    );
}

#[test]
fn rule_counts_bytes() {
    let mut r = runner("workspace|ü|x\n");
    let p = r.run_tasks(&ids(&["ü"])).unwrap();
    assert_eq!(p.steps()[0].header, format!("\n── cargo xtask ü {}\n", "─".repeat(36)));
}

#[test]
fn no_run_without_ids_or_target() {
    let mut r = runner("a|x|1\n");
    assert!(r.run_tasks(&vec![]).is_none());
    let mut empty = XtaskRunner::new(AppState::new(None));
    assert!(empty.run_tasks(&ids(&["x"])).is_none());
    assert!(empty.run_cargo_cmds(&vec![]).is_none());
}

#[test]
fn pipeline_stops_at_first_failure() {
    let mut r = runner("w|a|1\nw|b|2\nw|c|3\n");
    let p = r.run_tasks(&ids(&["a", "b", "c"])).unwrap();
    let (launched, log) = drive(p, &[true, false, true]);
    assert_eq!(launched.len(), 2);
    assert_eq!(
        log,
        vec![
            "@@START:a".to_string(),
            format!("\n── cargo xtask a w {}\n", "─".repeat(35)),
            "@@DONE:a".to_string(),
            "@@START:b".to_string(),
            format!("\n── cargo xtask b w {}\n", "─".repeat(35)),
            "@@FAIL:b".to_string(),
            "❌ Task `b` failed — pipeline stopped.".to_string(),
        ]
    );
}

#[test]
fn pipeline_runs_everything_on_success() {
    let mut r = runner("w|a|1\nw|b|2\n");
    let p = r.run_tasks(&ids(&["b", "a"])).unwrap();
    let (launched, log) = drive(p, &[true, true]);
    assert_eq!(launched, vec![ids(&["xtask", "b", "w"]), ids(&["xtask", "a", "w"])]);
    assert_eq!(log.iter().filter(|l| l.starts_with("@@DONE:")).count(), 2);
}

#[test]
fn finish_without_launch_does_nothing() {
    let mut r = runner("w|a|1\n");
    let mut p = r.run_tasks(&ids(&["a"])).unwrap();
    assert!(p.finish(true).is_empty());
    assert!(p.launch().is_some());
    assert!(p.launch().is_none());
    assert_eq!(p.finish(true), vec!["@@DONE:a"]);
    assert!(p.launch().is_none());
}

#[test]
fn cargo_commands_get_the_package() {
    let mut r = runner("w|a|1\n");
    r.state.packages = vec!["core".to_string()];
    r.state.select_package(1);
    r.state.cargo_rows[0].status = TaskStatus::Failed;
    let p = r.run_cargo_cmds(&ids(&["build-r", "fmt", "nope", "run"])).unwrap();
    assert_eq!(r.state.cargo_rows[0].status, TaskStatus::Idle);
    let steps = p.steps();
    assert_eq!(steps.len(), 3);
    assert_eq!(steps[0].id, "build-r");
    assert_eq!(steps[0].args, vec!["build", "--release", "-p", "core"]);
    let display = "cargo build --release -p core";
    assert_eq!(steps[0].header, format!("\n── {display} {}\n", "─".repeat(50 - display.len())));
    assert_eq!(steps[0].failure_note, format!("❌ `{display}` failed — pipeline stopped."));
    assert_eq!(steps[1].args, vec!["fmt", "--all"]);
    assert_eq!(steps[2].args, vec!["run", "-p", "core"]);
}

#[test]
fn clippy_gets_the_package_before_its_lint_options() {
    let mut r = runner("w|a|1\n");
    r.state.packages = vec!["core".to_string()];
    r.state.select_package(1);
    let p = r.run_cargo_cmds(&ids(&["clippy"])).unwrap();
    assert_eq!(p.steps()[0].args, vec!["clippy", "-p", "core", "--", "-D", "warnings"]);
    let display = "cargo clippy -p core -- -D warnings";
    assert_eq!(p.steps()[0].failure_note, format!("❌ `{display}` failed — pipeline stopped."));
}

#[test]
fn cargo_commands_without_package_are_workspace_wide() {
    let mut r = runner("w|a|1\n");
    let p = r.run_cargo_cmds(&ids(&["clippy"])).unwrap();
    assert_eq!(p.steps()[0].args, vec!["clippy", "--", "-D", "warnings"]);
    let display = "cargo clippy -- -D warnings";
    assert_eq!(p.steps()[0].header, format!("\n── {display} {}\n", "─".repeat(50 - display.len())));
}

#[test]
fn target_navigation_wraps() {
    assert_eq!(next_target(0, 3), 1);
    assert_eq!(next_target(2, 3), 0);
    assert_eq!(prev_target(0, 3), 2);
    assert_eq!(prev_target(2, 3), 1);
    for n in 1..5 {
        for i in 0..n {
            assert_eq!(prev_target(next_target(i, n), n), i);
        }
    }
}

#[test]
fn target_labels() {
    assert_eq!(target_label("workspace"), "Workspace");
    assert_eq!(target_label("core"), "core");
    assert_eq!(target_label_color("workspace", true), Shade::Accent.rgb());
    assert_eq!(target_label_color("workspace", false), Shade::Warning.rgb());
    assert_eq!(target_label_color("core", false), Shade::TextNormal.rgb());
    assert_eq!(cargo_desc_suffix(CmdScope::PackageOnly, false), " (select a package first)");
    assert_eq!(cargo_desc_suffix(CmdScope::PackageOnly, true), "");
    assert_eq!(cargo_desc_suffix(CmdScope::Package, false), "");
}

fn req() -> Requests {
    Requests { stop: false, single_run: None, run_selected: false, single_cargo_run: None, run_cargo: false }
}

#[test]
fn decisions_follow_priority() {
    let mut r = runner("w|a|1\nw|b|2\n");
    r.state.tasks[1].checked = false;
    assert!(matches!(r.decide(Requests { stop: true, run_selected: true, ..req() }), Action::Stop));
    assert!(matches!(
        r.decide(Requests { single_run: Some("b".into()), run_selected: true, ..req() }),
        Action::RunTasks(v) if v == vec!["b"]
    ));
    assert!(matches!(r.decide(Requests { run_selected: true, ..req() }), Action::RunTasks(v) if v == vec!["a"]));
    assert!(matches!(
        r.decide(Requests { single_cargo_run: Some("doc".into()), run_cargo: true, ..req() }),
        Action::RunCargo(v) if v == vec!["doc"]
    ));
    assert!(matches!(r.decide(Requests { run_cargo: true, ..req() }), Action::RunCargo(v) if v.len() == 9));
    assert!(matches!(r.decide(req()), Action::Nothing));
}

#[test]
fn stopped_run_starts_nothing_and_logs_no_marker() {
    let r = &mut runner("w|a|1\nw|b|2\n");
    let mut p = r.run_tasks(&ids(&["a", "b"])).unwrap();
    let l = p.launch().unwrap();
    assert_eq!(l.log[0], "@@START:a");
    p.cancel();
    assert!(p.finish(true).is_empty());
    assert!(p.launch().is_none());
    let mut q = r.run_tasks(&ids(&["a"])).unwrap();
    q.cancel();
    assert!(q.launch().is_none());
}

#[test]
fn target_navigation_from_any_position() {
    assert_eq!(next_target(5, 3), 0);
    assert_eq!(prev_target(5, 3), 1);
    assert_eq!(next_target(0, 1), 0);
    assert_eq!(prev_target(0, 1), 0);
}
