//! Task rows, their statuses, and the fixed list of cargo commands.

use vstd::prelude::*;
use crate::listing::{TaskEntry, TaskEntryView};
use crate::theme::{Rgb, Shade};

verus! {

/// Where a task stands in the current run.
#[derive(Clone, Copy, PartialEq, Eq, Structural, Debug)]
pub enum TaskStatus {
    Idle,
    Running,
    Done,
    Failed,
}

impl TaskStatus {
    /// The word shown next to a task.
    pub fn label(&self) -> (s: &'static str)
        ensures
            s@ == match *self {
                TaskStatus::Idle => "idle"@,
                TaskStatus::Running => "running"@,
                TaskStatus::Done => "done"@,
                TaskStatus::Failed => "failed"@,
            },
    {
        match self {
            TaskStatus::Idle => "idle",
            TaskStatus::Running => "running",
            TaskStatus::Done => "done",
            TaskStatus::Failed => "failed",
        }
    }

    /// The symbol shown in front of a task: the same circle for every status.
    pub fn icon(&self) -> (s: &'static str)
        ensures
            s@ == "○"@,
    {
        "○"
    }

    /// The colour of a task's symbol and status word.
    pub fn color(&self) -> (c: Rgb)
        ensures
            c == match *self {
                TaskStatus::Idle => Shade::TextDim.value(),
                TaskStatus::Running => Shade::Warning.value(),
                TaskStatus::Done => Shade::Accent.value(),
                TaskStatus::Failed => Shade::Error.value(),
            },
    {
        match self {
            TaskStatus::Idle => Shade::TextDim.rgb(),
            TaskStatus::Running => Shade::Warning.rgb(),
            TaskStatus::Done => Shade::Accent.rgb(),
            TaskStatus::Failed => Shade::Error.rgb(),
        }
    }
}

/// One xtask task as shown in the task list.
pub struct TaskRow {
    pub id: String,
    pub desc: String,
    pub checked: bool,
    pub status: TaskStatus,
    /// Tasks of the `workspace` target run without a target argument.
    pub is_global: bool,
}

pub struct TaskRowView {
    pub id: Seq<char>,
    pub desc: Seq<char>,
    pub checked: bool,
    pub status: TaskStatus,
    pub is_global: bool,
}

impl DeepView for TaskRow {
    type V = TaskRowView;

    open spec fn deep_view(&self) -> TaskRowView {
        TaskRowView {
            id: self.id@,
            desc: self.desc@,
            checked: self.checked,
            status: self.status,
            is_global: self.is_global,
        }
    }
}

/// The row of a freshly listed entry: checked, idle, global when its target
/// is `workspace`.
pub open spec fn fresh_row(e: TaskEntryView) -> TaskRowView {
    TaskRowView {
        id: e.id,
        desc: e.desc,
        checked: true,
        status: TaskStatus::Idle,
        is_global: e.target == "workspace"@,
    }
}

impl TaskRow {
    /// The row of a listed entry.
    pub fn from_entry(e: &TaskEntry) -> (r: Self)
        ensures
            r.deep_view() == fresh_row(e.deep_view()),
            r.id@ == e.id@,
            r.desc@ == e.desc@,
            r.checked,
            r.status == TaskStatus::Idle,
            r.is_global == (e.target@ == "workspace"@),
    {
        let workspace = String::from_str("workspace");
        TaskRow {
            id: e.id.clone(),
            desc: e.desc.clone(),
            checked: true,
            status: TaskStatus::Idle,
            is_global: e.target == workspace,
        }
    }
}

/// Whether a cargo command runs per package.
#[derive(Clone, Copy, PartialEq, Eq, Structural, Debug)]
pub enum CmdScope {
    /// Always workspace-wide; `-p` is never appended.
    Workspace,
    /// Per package when one is selected, workspace-wide otherwise.
    Package,
    /// Only enabled when a specific package is selected.
    PackageOnly,
}

/// One of the standard cargo commands offered in the cargo tab.
#[derive(Clone, Copy)]
pub struct CargoCmd {
    /// Short key, used in the run's log markers.
    pub id: &'static str,
    /// Display name.
    pub label: &'static str,
    /// One-line description.
    pub desc: &'static str,
    /// The arguments to cargo. A `-p <package>` goes before the first `--`
    /// (which ends cargo's own options), or at the end when there is none.
    pub args: &'static [&'static str],
    pub scope: CmdScope,
}

pub struct CargoCmdView {
    pub id: Seq<char>,
    pub label: Seq<char>,
    pub desc: Seq<char>,
    pub args: Seq<Seq<char>>,
    pub scope: CmdScope,
}

impl DeepView for CargoCmd {
    type V = CargoCmdView;

    open spec fn deep_view(&self) -> CargoCmdView {
        CargoCmdView {
            id: self.id@,
            label: self.label@,
            desc: self.desc@,
            args: self.args.deep_view(),
            scope: self.scope,
        }
    }
}

pub open spec fn cmd(
    id: &str,
    label: &str,
    desc: &str,
    args: Seq<Seq<char>>,
    scope: CmdScope,
) -> CargoCmdView {
    CargoCmdView { id: id@, label: label@, desc: desc@, args, scope }
}

/// The cargo commands, in the order in which they are offered.
pub open spec fn cargo_command_table() -> Seq<CargoCmdView> {
    seq![
        cmd("check", "check", "Fast type-check without producing binaries", seq!["check"@], CmdScope::Package),
        cmd("build", "build", "Compile in debug mode", seq!["build"@], CmdScope::Package),
        cmd("build-r", "build --release", "Compile optimised release binary", seq!["build"@, "--release"@], CmdScope::Package),
        cmd("test", "test", "Run all tests", seq!["test"@], CmdScope::Package),
        cmd("clippy", "clippy", "Run Clippy lints", seq!["clippy"@, "--"@, "-D"@, "warnings"@], CmdScope::Package),
        cmd("fmt", "fmt", "Format all code (workspace-wide)", seq!["fmt"@, "--all"@], CmdScope::Workspace),
        cmd("doc", "doc", "Build documentation", seq!["doc"@], CmdScope::Package),
        cmd("run", "run", "Run the binary of the selected package", seq!["run"@], CmdScope::PackageOnly),
        cmd("clean", "clean", "Remove build artefacts (workspace-wide)", seq!["clean"@], CmdScope::Workspace),
        cmd("update", "update", "Update dependencies in Cargo.lock", seq!["update"@], CmdScope::Workspace),
        cmd("publish", "publish", "Publish package to crates.io", seq!["publish"@], CmdScope::PackageOnly),
    ]
}

/// The fixed list of cargo commands.
pub fn cargo_commands() -> (cmds: Vec<CargoCmd>)
    ensures
        cmds.deep_view() == cargo_command_table(),
{
    let cmds = vec![
        CargoCmd {
            id: "check",
            label: "check",
            desc: "Fast type-check without producing binaries",
            args: &["check"],
            scope: CmdScope::Package,
        },
        CargoCmd {
            id: "build",
            label: "build",
            desc: "Compile in debug mode",
            args: &["build"],
            scope: CmdScope::Package,
        },
        CargoCmd {
            id: "build-r",
            label: "build --release",
            desc: "Compile optimised release binary",
            args: &["build", "--release"],
            scope: CmdScope::Package,
        },
        CargoCmd {
            id: "test",
            label: "test",
            desc: "Run all tests",
            args: &["test"],
            scope: CmdScope::Package,
        },
        CargoCmd {
            id: "clippy",
            label: "clippy",
            desc: "Run Clippy lints",
            args: &["clippy", "--", "-D", "warnings"],
            scope: CmdScope::Package,
        },
        CargoCmd {
            id: "fmt",
            label: "fmt",
            desc: "Format all code (workspace-wide)",
            args: &["fmt", "--all"],
            scope: CmdScope::Workspace,
        },
        CargoCmd {
            id: "doc",
            label: "doc",
            desc: "Build documentation",
            args: &["doc"],
            scope: CmdScope::Package,
        },
        CargoCmd {
            id: "run",
            label: "run",
            desc: "Run the binary of the selected package",
            args: &["run"],
            scope: CmdScope::PackageOnly,
        },
        CargoCmd {
            id: "clean",
            label: "clean",
            desc: "Remove build artefacts (workspace-wide)",
            args: &["clean"],
            scope: CmdScope::Workspace,
        },
        CargoCmd {
            id: "update",
            label: "update",
            desc: "Update dependencies in Cargo.lock",
            args: &["update"],
            scope: CmdScope::Workspace,
        },
        CargoCmd {
            id: "publish",
            label: "publish",
            desc: "Publish package to crates.io",
            args: &["publish"],
            scope: CmdScope::PackageOnly,
        },
    ];
    assert(cmds@[0].args.deep_view() =~= seq!["check"@]);
    assert(cmds@[1].args.deep_view() =~= seq!["build"@]);
    assert(cmds@[2].args.deep_view() =~= seq!["build"@, "--release"@]);
    assert(cmds@[3].args.deep_view() =~= seq!["test"@]);
    assert(cmds@[4].args.deep_view() =~= seq!["clippy"@, "--"@, "-D"@, "warnings"@]);
    assert(cmds@[5].args.deep_view() =~= seq!["fmt"@, "--all"@]);
    assert(cmds@[6].args.deep_view() =~= seq!["doc"@]);
    assert(cmds@[7].args.deep_view() =~= seq!["run"@]);
    assert(cmds@[8].args.deep_view() =~= seq!["clean"@]);
    assert(cmds@[9].args.deep_view() =~= seq!["update"@]);
    assert(cmds@[10].args.deep_view() =~= seq!["publish"@]);
    assert forall|i: int| 0 <= i < 11 implies cmds.deep_view()[i] == cargo_command_table()[i] by {}
    assert(cmds.deep_view() =~= cargo_command_table());
    cmds
}

/// One cargo command as shown in the cargo tab.
pub struct CargoRow {
    pub cmd: CargoCmd,
    pub checked: bool,
    pub status: TaskStatus,
}

pub struct CargoRowView {
    pub cmd: CargoCmdView,
    pub checked: bool,
    pub status: TaskStatus,
}

impl DeepView for CargoRow {
    type V = CargoRowView;

    open spec fn deep_view(&self) -> CargoRowView {
        CargoRowView { cmd: self.cmd.deep_view(), checked: self.checked, status: self.status }
    }
}

} // verus!
