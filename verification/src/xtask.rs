//! The project's own xtask helper: the tasks it lists and the cargo command
//! that each of them runs.

use vstd::prelude::*;
use crate::runner::join;
use crate::listing::{
    first_appearances, lemma_listing_roundtrip, listable, listing_entries, listing_line,
    render_listing, targets_of, TaskEntryView,
};
use crate::state::rows_for;
use crate::tasks::{fresh_row, TaskStatus};
use crate::text::{str_equal, trim};

verus! {

/// A program with its arguments.
pub struct CommandSpec {
    pub program: String,
    pub args: Vec<String>,
}

pub struct CommandView {
    pub program: Seq<char>,
    pub args: Seq<Seq<char>>,
}

impl DeepView for CommandSpec {
    type V = CommandView;

    open spec fn deep_view(&self) -> CommandView {
        CommandView { program: self.program@, args: self.args.deep_view() }
    }
}

/// What an invocation of the helper asks for.
pub enum Invocation {
    /// `--list`: print the task list.
    List,
    /// Run a command.
    Run(CommandSpec),
    /// An unknown task name.
    Unknown(String),
}

/// The task list, one `target|task_id|description` line per task.
pub open spec fn task_list_lines() -> Seq<Seq<char>> {
    seq![
        "cargo-xtask-runner|fmt|Format all code"@,
        "cargo-xtask-runner|clippy|Run clippy lints"@,
        "cargo-xtask-runner|build|Build release binary with x64 windows target"@,
        "cargo-xtask-runner|test|Run all tests"@,
    ]
}

/// The text of lines printed one after the other, each followed by a
/// newline.
pub open spec fn printed(lines: Seq<Seq<char>>) -> Seq<char>
    decreases lines.len(),
{
    if lines.len() == 0 {
        seq![]
    } else {
        lines[0] + "\n"@ + printed(lines.drop_first())
    }
}

pub open spec fn helper_entry(id: Seq<char>, desc: Seq<char>) -> TaskEntryView {
    TaskEntryView { target: "cargo-xtask-runner"@, id, desc }
}

/// The entries that the helper lists.
pub open spec fn helper_entries() -> Seq<TaskEntryView> {
    seq![
        helper_entry("fmt"@, "Format all code"@),
        helper_entry("clippy"@, "Run clippy lints"@),
        helper_entry("build"@, "Build release binary with x64 windows target"@),
        helper_entry("test"@, "Run all tests"@),
    ]
}

/// What the helper prints for `--list` is read back as its four tasks, all
/// of the one target `cargo-xtask-runner`; with nothing remembered, their
/// rows are checked, idle, and run with the target argument.
pub proof fn lemma_helper_listing_loads()
    ensures
        listing_entries(printed(task_list_lines())) == helper_entries(),
        first_appearances(targets_of(helper_entries())) == seq!["cargo-xtask-runner"@],
        ({
            let rows = rows_for(helper_entries(), "cargo-xtask-runner"@, Map::empty());
            &&& rows.len() == 4
            &&& forall|i: int|
                0 <= i < 4 ==> #[trigger] rows[i] == fresh_row(helper_entries()[i])
                    && rows[i].checked && rows[i].status == TaskStatus::Idle
                    && !rows[i].is_global
        }),
{
    let es = helper_entries();
    reveal_strlit("cargo-xtask-runner");
    reveal_strlit("workspace");
    reveal_strlit("fmt");
    reveal_strlit("clippy");
    reveal_strlit("build");
    reveal_strlit("test");
    reveal_strlit("Format all code");
    reveal_strlit("Run clippy lints");
    reveal_strlit("Build release binary with x64 windows target");
    reveal_strlit("Run all tests");
    reveal_strlit("|");
    reveal_strlit("\n");
    reveal_strlit("cargo-xtask-runner|fmt|Format all code");
    reveal_strlit("cargo-xtask-runner|clippy|Run clippy lints");
    reveal_strlit("cargo-xtask-runner|build|Build release binary with x64 windows target");
    reveal_strlit("cargo-xtask-runner|test|Run all tests");
    assert forall|i: int| 0 <= i < es.len() implies listable(#[trigger] es[i]) by {
        assert(trim(es[i].target) == es[i].target);
        assert(trim(es[i].id) == es[i].id);
        assert(trim(es[i].desc) == es[i].desc);
    }
    let ls = task_list_lines();
    assert forall|i: int| 0 <= i < 4 implies #[trigger] ls[i] == listing_line(es[i]) by {
        assert(ls[i] =~= listing_line(es[i]));
    }
    assert(printed(ls) == render_listing(es)) by {
        reveal_with_fuel(printed, 5);
        reveal_with_fuel(render_listing, 5);
        assert(ls.drop_first().drop_first().drop_first().drop_first() =~= Seq::<Seq<char>>::empty());
        assert(es.drop_first().drop_first().drop_first().drop_first() =~= Seq::<TaskEntryView>::empty());
    }
    lemma_listing_roundtrip(es);
    let ts = targets_of(es);
    assert(first_appearances(ts) == seq!["cargo-xtask-runner"@]) by {
        reveal_with_fuel(first_appearances, 5);
        assert(ts.drop_last().drop_last().drop_last() =~= seq!["cargo-xtask-runner"@]);
    }
    let rows = rows_for(es, "cargo-xtask-runner"@, Map::empty());
    assert(rows =~= es.map_values(|e: TaskEntryView| fresh_row(e))) by {
        reveal_with_fuel(rows_for, 5);
    }
}

/// The lines that `--list` prints.
pub fn task_list() -> (lines: Vec<String>)
    ensures
        lines.deep_view() == task_list_lines(),
{
    let lines = vec![
        String::from_str("cargo-xtask-runner|fmt|Format all code"),
        String::from_str("cargo-xtask-runner|clippy|Run clippy lints"),
        String::from_str("cargo-xtask-runner|build|Build release binary with x64 windows target"),
        String::from_str("cargo-xtask-runner|test|Run all tests"),
    ];
    assert(lines.deep_view() =~= task_list_lines());
    lines
}

fn strings(parts: &[&str]) -> (v: Vec<String>)
    ensures
        v.deep_view() == parts.deep_view(),
{
    let mut v: Vec<String> = Vec::new();
    let mut i: usize = 0;
    while i < parts.len()
        invariant
            i <= parts@.len(),
            v.deep_view() == parts.deep_view().take(i as int),
        decreases parts@.len() - i,
    {
        let ghost before = v.deep_view();
        v.push(String::from_str(parts[i]));
        assert(v.deep_view() =~= before.push(parts@[i as int]@));
        assert(parts.deep_view().take(i + 1) =~= parts.deep_view().take(i as int).push(
            parts@[i as int]@,
        ));
        i = i + 1;
    }
    assert(parts.deep_view().take(i as int) =~= parts.deep_view());
    v
}

fn cargo_with(args: Vec<String>) -> (c: CommandSpec)
    ensures
        c.program@ == "cargo"@,
        c.args == args,
{
    CommandSpec { program: String::from_str("cargo"), args }
}

/// `build`: a release build of the package for the x64 Windows target.
pub fn task_build_release_x64_msvc(target: &str) -> (c: CommandSpec)
    ensures
        c.deep_view() == (CommandView {
            program: "cargo"@,
            args: seq!["build"@, "--release"@, "--target=x86_64-pc-windows-msvc"@, "-p"@, target@],
        }),
{
    let mut args = {
        let parts: &[&str] = &["build", "--release", "--target=x86_64-pc-windows-msvc", "-p"];
        assert(parts.deep_view() =~= seq!["build"@, "--release"@, "--target=x86_64-pc-windows-msvc"@, "-p"@]);
        strings(parts)
    };
    let ghost before = args.deep_view();
    args.push(String::from_str(target));
    assert(args.deep_view() =~= before.push(target@));
    assert(args.deep_view() =~= seq!["build"@, "--release"@, "--target=x86_64-pc-windows-msvc"@, "-p"@, target@]);
    cargo_with(args)
}

/// `test`: the tests of the package.
pub fn task_test(target: &str) -> (c: CommandSpec)
    ensures
        c.deep_view() == (CommandView {
            program: "cargo"@,
            args: seq!["test"@, "-p"@, target@],
        }),
{
    let mut args = {
        let parts: &[&str] = &["test", "-p"];
        assert(parts.deep_view() =~= seq!["test"@, "-p"@]);
        strings(parts)
    };
    let ghost before = args.deep_view();
    args.push(String::from_str(target));
    assert(args.deep_view() =~= before.push(target@));
    assert(args.deep_view() =~= seq!["test"@, "-p"@, target@]);
    cargo_with(args)
}

/// `fmt`: formats the whole workspace.
pub fn task_fmt() -> (c: CommandSpec)
    ensures
        c.deep_view() == (CommandView { program: "cargo"@, args: seq!["fmt"@, "--all"@] }),
{
    cargo_with({
        let parts: &[&str] = &["fmt", "--all"];
        assert(parts.deep_view() =~= seq!["fmt"@, "--all"@]);
        strings(parts)
    })
}

/// `clippy`: lints every target, warnings denied.
pub fn task_clippy() -> (c: CommandSpec)
    ensures
        c.deep_view() == (CommandView {
            program: "cargo"@,
            args: seq!["clippy"@, "--all-targets"@, "--"@, "-D"@, "warnings"@],
        }),
{
    cargo_with({
        let parts: &[&str] = &["clippy", "--all-targets", "--", "-D", "warnings"];
        assert(parts.deep_view() =~= seq!["clippy"@, "--all-targets"@, "--"@, "-D"@, "warnings"@]);
        strings(parts)
    })
}

/// The command of a known task name.
pub open spec fn task_command(task: Seq<char>, target: Seq<char>) -> Option<CommandView> {
    if task == "build"@ {
        Some(
            CommandView {
                program: "cargo"@,
                args: seq!["build"@, "--release"@, "--target=x86_64-pc-windows-msvc"@, "-p"@, target],
            },
        )
    } else if task == "test"@ {
        Some(CommandView { program: "cargo"@, args: seq!["test"@, "-p"@, target] })
    } else if task == "fmt"@ {
        Some(CommandView { program: "cargo"@, args: seq!["fmt"@, "--all"@] })
    } else if task == "clippy"@ {
        Some(
            CommandView {
                program: "cargo"@,
                args: seq!["clippy"@, "--all-targets"@, "--"@, "-D"@, "warnings"@],
            },
        )
    } else {
        None
    }
}

/// The helper runs, for a task that it lists, that task's own command,
/// whatever target is given: `fmt` formats the whole workspace, `clippy`
/// lints every target with warnings denied, `test` tests the target
/// package, `build` builds it for release for x64 Windows. The names that
/// it runs are exactly the ids that `--list` prints.
pub proof fn lemma_listed_tasks_run_their_commands(name: Seq<char>, target: Seq<char>)
    ensures
        task_command("fmt"@, target) == Some(
            CommandView { program: "cargo"@, args: seq!["fmt"@, "--all"@] },
        ),
        task_command("clippy"@, target) == Some(
            CommandView {
                program: "cargo"@,
                args: seq!["clippy"@, "--all-targets"@, "--"@, "-D"@, "warnings"@],
            },
        ),
        task_command("test"@, target) == Some(
            CommandView { program: "cargo"@, args: seq!["test"@, "-p"@, target] },
        ),
        task_command("build"@, target) == Some(
            CommandView {
                program: "cargo"@,
                args: seq![
                    "build"@,
                    "--release"@,
                    "--target=x86_64-pc-windows-msvc"@,
                    "-p"@,
                    target,
                ],
            },
        ),
        task_command(name, target) is Some <==> exists|i: int|
            0 <= i < helper_entries().len() && (#[trigger] helper_entries()[i]).id == name,
{
    reveal_strlit("fmt");
    reveal_strlit("clippy");
    reveal_strlit("test");
    reveal_strlit("build");
    assert("fmt"@.len() == 3 && "clippy"@.len() == 6 && "test"@.len() == 4 && "build"@.len() == 5);
    assert("fmt"@ != "build"@ && "fmt"@ != "test"@);
    assert("clippy"@ != "build"@ && "clippy"@ != "test"@ && "clippy"@ != "fmt"@);
    assert("test"@ != "build"@);
    let es = helper_entries();
    if task_command(name, target) is Some {
        if name == "fmt"@ {
            assert(es[0].id == name);
        } else if name == "clippy"@ {
            assert(es[1].id == name);
        } else if name == "build"@ {
            assert(es[2].id == name);
        } else {
            assert(es[3].id == name);
        }
    }
    if exists|i: int| 0 <= i < es.len() && (#[trigger] es[i]).id == name {
        let i = choose|i: int| 0 <= i < es.len() && (#[trigger] es[i]).id == name;
        assert(i == 0 || i == 1 || i == 2 || i == 3);
    }
}

/// The element at `i`, or the empty string past the end.
pub open spec fn arg_or_empty(args: Seq<Seq<char>>, i: int) -> Seq<char> {
    if i < args.len() {
        args[i]
    } else {
        seq![]
    }
}

/// Decides what an invocation with the given arguments (program name
/// excluded) does: `--list` anywhere lists; otherwise the first argument
/// names the task and the second its target.
pub fn dispatch(args: &Vec<String>) -> (r: Invocation)
    ensures
        args.deep_view().contains("--list"@) ==> r is List,
        !args.deep_view().contains("--list"@) ==> {
            let task = arg_or_empty(args.deep_view(), 0);
            let target = arg_or_empty(args.deep_view(), 1);
            match task_command(task, target) {
                Some(c) => r matches Invocation::Run(spec) && spec.deep_view() == c,
                None => r matches Invocation::Unknown(t) && t@ == task,
            }
        },
{
    let mut i: usize = 0;
    while i < args.len()
        invariant
            i <= args@.len(),
            forall|j: int| 0 <= j < i ==> args.deep_view()[j] != "--list"@,
        decreases args@.len() - i,
    {
        if str_equal(args[i].as_str(), "--list") {
            assert(args.deep_view()[i as int] == "--list"@);
            return Invocation::List;
        }
        i = i + 1;
    }
    let task: &str = if args.len() > 0 {
        args[0].as_str()
    } else {
        ""
    };
    let target: &str = if args.len() > 1 {
        args[1].as_str()
    } else {
        ""
    };
    proof {
        reveal_strlit("");
        assert(task@ == arg_or_empty(args.deep_view(), 0));
        assert(target@ == arg_or_empty(args.deep_view(), 1));
    }
    if str_equal(task, "build") {
        Invocation::Run(task_build_release_x64_msvc(target))
    } else if str_equal(task, "test") {
        Invocation::Run(task_test(target))
    } else if str_equal(task, "fmt") {
        Invocation::Run(task_fmt())
    } else if str_equal(task, "clippy") {
        Invocation::Run(task_clippy())
    } else {
        Invocation::Unknown(String::from_str(task))
    }
}

impl CommandSpec {
    /// The command as a line: the program and its arguments, separated by
    /// spaces.
    pub fn command_line(&self) -> (s: String)
        ensures
            s@ == self.program@ + " "@ + join(self.args.deep_view(), " "@),
    {
        let mut s = self.program.clone();
        s.append(" ");
        s.append(crate::runner::join_strings(&self.args, " ").as_str());
        s
    }
}

} // verus!
