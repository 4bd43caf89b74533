use cargo_xtask_runner::console::{display_line, error_line_color, line_color};
use cargo_xtask_runner::icon::load_icon;
use cargo_xtask_runner::manifest::{expand_members, glob_matches, package_name, pattern_depth, workspace_members};
use cargo_xtask_runner::tasks::{cargo_commands, CmdScope, TaskStatus};
use cargo_xtask_runner::theme::{Rgb, Shade};
use cargo_xtask_runner::xtask::{
    dispatch, task_build_release_x64_msvc, task_clippy, task_fmt, task_test, Invocation,
};

#[test]
fn console_line_colors() {
    assert_eq!(line_color("error[E0308]: mismatched types"), Shade::Error.rgb());
    assert_eq!(line_color("@@STDERR:error: could not compile"), Shade::Error.rgb());
    assert_eq!(line_color("❌ Task `x` failed"), Shade::Error.rgb());
    assert_eq!(line_color("@@STDERR:warning: unused"), Shade::Warning.rgb());
    assert_eq!(line_color("⚠ careful"), Shade::Warning.rgb());
    assert_eq!(line_color("@@STDERR:    Finished dev"), Shade::Success.rgb());
    assert_eq!(line_color("test result: ok. 3 passed"), Shade::Success.rgb());
    assert_eq!(line_color("   Compiling foo"), Shade::Dim.rgb());
    assert_eq!(line_color("@@STDERR:    Updating index"), Shade::Dim.rgb());
    assert_eq!(line_color("── cargo xtask fmt"), Shade::Section.rgb());
    assert_eq!(line_color("■  Stopped by user."), Shade::Section.rgb());
    assert_eq!(line_color("note: see"), Shade::Dim.rgb());
    assert_eq!(line_color("  --> src/main.rs"), Shade::Dim.rgb());
    assert_eq!(line_color("hello"), Shade::Default.rgb());
    assert_eq!(line_color("  Compiling foo"), Shade::Default.rgb());
    // the stderr prefix is not consulted for the symbol rules
    assert_eq!(line_color("@@STDERR:❌ x"), Shade::Default.rgb());
}

#[test]
fn palette_values() {
    assert_eq!(Shade::Error.rgb(), Rgb { r: 230, g: 80, b: 70 });
    assert_eq!(Shade::Warning.rgb(), Rgb { r: 255, g: 180, b: 50 });
    assert_eq!(Shade::Accent.rgb(), Rgb { r: 82, g: 196, b: 130 });
    assert_eq!(Shade::TextDim.rgb(), Rgb { r: 120, g: 130, b: 145 });
    assert_eq!(Shade::Default.rgb(), Rgb { r: 210, g: 215, b: 220 });
}

#[test]
fn console_display_text() {
    assert_eq!(display_line("@@STDERR:boom"), "boom");
    assert_eq!(display_line("plain"), "plain");
    assert_eq!(display_line("x@@STDERR:"), "x@@STDERR:");
}

#[test]
fn error_panel_colors() {
    assert_eq!(error_line_color("\u{2022} cd into your project folder"), Shade::Accent.rgb());
    assert_eq!(error_line_color("   cargo xtask --list   (outputs)"), Shade::TextNormal.rgb());
    assert_eq!(error_line_color("No Cargo.toml found."), Shade::TextDim.rgb());
}

#[test]
fn status_words_and_colors() {
    assert_eq!(TaskStatus::Idle.label(), "idle");
    assert_eq!(TaskStatus::Running.label(), "running");
    assert_eq!(TaskStatus::Done.label(), "done");
    assert_eq!(TaskStatus::Failed.label(), "failed");
    assert_eq!(TaskStatus::Done.icon(), "○");
    assert_eq!(TaskStatus::Idle.color(), Shade::TextDim.rgb());
    assert_eq!(TaskStatus::Running.color(), Shade::Warning.rgb());
    assert_eq!(TaskStatus::Done.color(), Shade::Accent.rgb());
    assert_eq!(TaskStatus::Failed.color(), Shade::Error.rgb());
}

#[test]
fn cargo_command_table() {
    let cmds = cargo_commands();
    let ids: Vec<&str> = cmds.iter().map(|c| c.id).collect();
    assert_eq!(
        ids,
        vec!["check", "build", "build-r", "test", "clippy", "fmt", "doc", "run", "clean", "update", "publish"]
    );
    assert_eq!(cmds[2].label, "build --release");
    assert_eq!(cmds[2].args, &["build", "--release"]);
    assert_eq!(cmds[5].scope, CmdScope::Workspace);
    assert_eq!(cmds[10].scope, CmdScope::PackageOnly);
}

#[test]
fn workspace_member_list() {
    let toml = "[package]\nname = \"root\"\n\n[workspace]\nmembers = [\n  \"crates/a\",\n  'b' ,\n  \"\",\n]\n";
    assert_eq!(workspace_members(toml), vec!["crates/a", "b"]);
    assert!(workspace_members("[package]\nname = \"x\"\n").is_empty());
    assert!(workspace_members("[workspace]\nresolver = \"2\"\n").is_empty());
    assert_eq!(workspace_members("[workspace]\nmembers=[\"x\"]"), vec!["x"]);
    assert!(workspace_members("[workspace]\nmembers = ] [\n").is_empty());
    let with_exclude = "[workspace]\nexclude = [\"old-members\"]\nmembers = [\"a\"]\n";
    assert!(workspace_members(with_exclude).is_empty());
}

fn strs(v: &[&str]) -> Vec<String> {
    v.iter().map(|s| s.to_string()).collect()
}

#[test]
fn member_patterns() {
    assert!(glob_matches("crates/*", "crates/a"));
    assert!(glob_matches("crates/*", "crates/"));
    assert!(!glob_matches("crates/*", "crates/a/b"));
    assert!(!glob_matches("crates/*", "tools/a"));
    assert!(glob_matches("c?ates/x*y", "crates/xay"));
    assert!(!glob_matches("c?ates/x*y", "c/ates/xy"));
    assert!(glob_matches("plain", "plain"));
    assert!(!glob_matches("plain", "plainer"));
}

#[test]
fn glob_members_are_expanded() {
    let members = strs(&["crates/*", "tools/cli", "crates/a"]);
    let dirs = strs(&["crates", "crates/a", "crates/b", "crates/b/src", "tools", "tools/cli"]);
    assert_eq!(expand_members(&members, &dirs), strs(&["crates/a", "crates/b", "tools/cli"]));
    assert_eq!(expand_members(&strs(&["x"]), &Vec::new()), strs(&["x"]));
    assert!(expand_members(&strs(&["none/*"]), &dirs).is_empty());
}

#[test]
fn member_package_names() {
    assert_eq!(package_name("[package]\nname = \"alpha\"\n"), Some("alpha".to_string()));
    assert_eq!(package_name("[package]\r\n  name=\"beta\"\r\n"), Some("beta".to_string()));
    assert_eq!(package_name("[package]\nname = \"\"\nname = \"late\"\n"), None);
    assert_eq!(package_name("namespace = \"ns\"\n"), Some("ns".to_string()));
    assert_eq!(package_name("[package]\nversion = \"1\"\n"), None);
    assert_eq!(package_name("name\nname = \"b\"\n"), Some("b".to_string()));
}

#[test]
fn xtask_commands() {
    let c = task_build_release_x64_msvc("app");
    assert_eq!(c.program, "cargo");
    assert_eq!(c.args, vec!["build", "--release", "--target=x86_64-pc-windows-msvc", "-p", "app"]);
    assert_eq!(task_test("app").args, vec!["test", "-p", "app"]);
    assert_eq!(task_fmt().args, vec!["fmt", "--all"]);
    assert_eq!(task_clippy().args, vec!["clippy", "--all-targets", "--", "-D", "warnings"]);
    assert_eq!(task_fmt().command_line(), "cargo fmt --all");
}

fn args(v: &[&str]) -> Vec<String> {
    v.iter().map(|s| s.to_string()).collect()
}

#[test]
fn xtask_dispatch() {
    assert!(matches!(dispatch(&args(&["build", "x", "--list"])), Invocation::List));
    assert!(matches!(dispatch(&args(&["test", "core"])), Invocation::Run(c) if c.args == vec!["test", "-p", "core"]));
    assert!(matches!(dispatch(&args(&["test"])), Invocation::Run(c) if c.args == vec!["test", "-p", ""]));
    assert!(matches!(dispatch(&args(&["clippy"])), Invocation::Run(c) if c.args[0] == "clippy"));
    assert!(matches!(dispatch(&args(&["deploy"])), Invocation::Unknown(t) if t == "deploy"));
    assert!(matches!(dispatch(&args(&[])), Invocation::Unknown(t) if t.is_empty()));
}

const PNG_2X1: [u8; 72] = [
    137, 80, 78, 71, 13, 10, 26, 10, 0, 0, 0, 13, 73, 72, 68, 82, 0, 0, 0, 2, 0, 0, 0, 1, 8, 6,
    0, 0, 0, 244, 34, 127, 138, 0, 0, 0, 15, 73, 68, 65, 84, 120, 156, 99, 248, 207, 192, 240,
    31, 8, 27, 0, 16, 121, 3, 126, 125, 99, 206, 215, 0, 0, 0, 0, 73, 69, 78, 68, 174, 66, 96,
    130,
];

#[test]
fn icon_decodes_png_pixels() {
    let icon = load_icon(&PNG_2X1).expect("a valid PNG");
    assert_eq!((icon.width, icon.height), (2, 1));
    assert_eq!(icon.size(), [2, 1]);
    assert_eq!(icon.rgba, vec![255, 0, 0, 255, 0, 255, 0, 128]);
}

#[test]
fn icon_rejects_other_bytes() {
    assert!(load_icon(&[1, 2, 3, 4]).is_none());
    assert!(load_icon(&[]).is_none());
}

#[test]
fn depth_to_list_for_patterns() {
    assert_eq!(pattern_depth(&strs(&["a", "b/c"])), None);
    assert_eq!(pattern_depth(&strs(&["crates/*"])), Some(1));
    assert_eq!(pattern_depth(&strs(&["x/y/z", "?", "libs/*/crates/*", "crates/*"])), Some(3));
}
