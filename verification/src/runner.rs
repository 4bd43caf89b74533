//! The runner: which tab is shown, and the runs that the two tabs start.
//! An xtask task is run as `cargo xtask <task_id> <target>`, without the
//! target for `workspace` tasks; a cargo command as `cargo <args>`, with
//! `-p <package>` (before any `--`) when a package is selected and the command is not
//! workspace-wide.

use vstd::prelude::*;
use vstd::utf8::encode_utf8;
use crate::pipeline::{Pipeline, PipelineStep, PipelineView, StepView};
use crate::state::{
    checked_cargo_ids_of, checked_ids_of, first_index, is_first_index, lemma_first_index_some, reset_cargo_statuses, reset_task_statuses,
    AppState,
};
use crate::tasks::{
    cargo_command_table, cargo_commands, CargoCmd, CargoCmdView, CmdScope, TaskRowView,
    TaskStatus,
};
use crate::text::str_equal;
use crate::theme::{Rgb, Shade};

verus! {

/// The tab shown in the left panel.
#[derive(Clone, Copy, PartialEq, Eq, Structural, Debug)]
pub enum ActiveTab {
    Xtask,
    Cargo,
}

/// The number of bytes of the UTF-8 encoding of `s`, which is what
/// `str::len` counts (the byte count of a string in memory always fits in a
/// `usize`).
pub open spec fn byte_len(s: Seq<char>) -> usize {
    encode_utf8(s).len() as usize
}

/// `n` copies of `p`.
pub open spec fn repeat(p: Seq<char>, n: nat) -> Seq<char>
    decreases n,
{
    if n == 0 {
        seq![]
    } else {
        repeat(p, (n - 1) as nat) + p
    }
}

/// The pieces joined with `sep` between them.
pub open spec fn join(pieces: Seq<Seq<char>>, sep: Seq<char>) -> Seq<char>
    decreases pieces.len(),
{
    if pieces.len() == 0 {
        seq![]
    } else if pieces.len() == 1 {
        pieces[0]
    } else {
        join(pieces.drop_last(), sep) + sep + pieces.last()
    }
}

/// How many rule characters fill a section line up to `width` when `a` and
/// `b` bytes are used, as `width.saturating_sub(a.saturating_add(b))`
/// computes it.
pub open spec fn fill(width: nat, a: nat, b: nat) -> nat {
    if a + b >= width {
        0
    } else {
        (width - a - b) as nat
    }
}

/// Whether a task id is a workspace task among `rows`: the last row with
/// that id decides; an unknown id is not.
pub open spec fn is_global_id(rows: Seq<TaskRowView>, id: Seq<char>) -> bool
    decreases rows.len(),
{
    if rows.len() == 0 {
        false
    } else if rows.last().id == id {
        rows.last().is_global
    } else {
        is_global_id(rows.drop_last(), id)
    }
}

/// The step that runs xtask task `id` for `target`.
pub open spec fn xtask_step(id: Seq<char>, target: Seq<char>, global: bool) -> StepView {
    let label = if global {
        seq![]
    } else {
        " "@ + target
    };
    StepView {
        id,
        args: if global {
            seq!["xtask"@, id]
        } else {
            seq!["xtask"@, id, target]
        },
        header: "\n── cargo xtask "@ + id + label + " "@ + repeat(
            "─"@,
            fill(38, byte_len(id) as nat, byte_len(label) as nat),
        ) + "\n"@,
        failure_note: "❌ Task `"@ + id + "` failed — pipeline stopped."@,
    }
}

/// Where `-p <package>` goes among a command's arguments: before the first
/// `--`, which ends cargo's own options, or at the end when there is none.
pub open spec fn package_slot(args: Seq<Seq<char>>) -> int {
    match first_index(args, "--"@) {
        Some(k) => k,
        None => args.len() as int,
    }
}

/// Without a `--` among the arguments, `-p <package>` goes at the end.
proof fn lemma_slot_at_end(args: Seq<Seq<char>>)
    requires
        forall|j: int| 0 <= j < args.len() ==> args[j] != "--"@,
    ensures
        package_slot(args) == args.len(),
{
    if first_index(args, "--"@) is Some {
        let k = first_index(args, "--"@)->0;
        assert(is_first_index(args, "--"@, k));
    }
}

/// The arguments that run command `c`: `-p <package>` is given to cargo
/// when a package is selected and the command is not workspace-wide.
pub open spec fn cargo_args(c: CargoCmdView, package: Option<Seq<char>>) -> Seq<Seq<char>> {
    match package {
        Some(p) => if c.scope != CmdScope::Workspace {
            let k = package_slot(c.args);
            c.args.take(k) + seq!["-p"@, p] + c.args.skip(k)
        } else {
            c.args
        },
        None => c.args,
    }
}

/// The step that runs cargo command `c`.
pub open spec fn cargo_step(c: CargoCmdView, package: Option<Seq<char>>) -> StepView {
    let display = "cargo "@ + join(cargo_args(c, package), " "@);
    StepView {
        id: c.id,
        args: cargo_args(c, package),
        header: "\n── "@ + display + " "@ + repeat("─"@, fill(50, byte_len(display) as nat, 0)) + "\n"@,
        failure_note: "❌ `"@ + display + "` failed — pipeline stopped."@,
    }
}

pub open spec fn table_ids() -> Seq<Seq<char>> {
    cargo_command_table().map_values(|c: CargoCmdView| c.id)
}

/// The steps of the cargo commands with the given ids, in order; ids of no
/// command are skipped.
pub open spec fn cargo_steps(ids: Seq<Seq<char>>, package: Option<Seq<char>>) -> Seq<StepView>
    decreases ids.len(),
{
    if ids.len() == 0 {
        seq![]
    } else {
        let r = cargo_steps(ids.drop_last(), package);
        match first_index(table_ids(), ids.last()) {
            Some(i) => r.push(cargo_step(cargo_command_table()[i], package)),
            None => r,
        }
    }
}

pub open spec fn xtask_steps(ids: Seq<Seq<char>>, target: Seq<char>, rows: Seq<TaskRowView>) -> Seq<
    StepView,
> {
    ids.map_values(|id: Seq<char>| xtask_step(id, target, is_global_id(rows, id)))
}

/// A section line's rule: `n` times `─`.
fn rule(n: usize) -> (s: String)
    ensures
        s@ == repeat("─"@, n as nat),
{
    let mut s = String::new();
    let mut i: usize = 0;
    while i < n
        invariant
            i <= n,
            s@ == repeat("─"@, i as nat),
        decreases n - i,
    {
        s.append("─");
        i = i + 1;
    }
    s
}

/// With a package selected, every cargo command except the workspace-wide
/// `fmt`, `clean` and `update` hands `-p <package>` to cargo, ahead of any
/// `--`; those three run with their own arguments only. So `cargo test`
/// becomes `cargo test -p <package>` and clippy `cargo clippy -p <package>
/// -- -D warnings`.
pub proof fn lemma_package_reaches_commands(p: Seq<char>)
    ensures
        table_ids() == seq![
            "check"@, "build"@, "build-r"@, "test"@, "clippy"@, "fmt"@, "doc"@, "run"@,
            "clean"@, "update"@, "publish"@,
        ],
        forall|i: int|
            0 <= i < cargo_command_table().len() ==> {
                let c = #[trigger] cargo_command_table()[i];
                if c.id == "fmt"@ || c.id == "clean"@ || c.id == "update"@ {
                    cargo_args(c, Some(p)) == c.args
                } else {
                    exists|k: int|
                        0 <= k <= c.args.len() && (forall|j: int|
                            0 <= j < k ==> c.args[j] != "--"@) && cargo_args(c, Some(p))
                            == c.args.take(k) + seq!["-p"@, p] + c.args.skip(k)
                }
            },
        cargo_args(cargo_command_table()[3], Some(p)) == seq!["test"@, "-p"@, p],
        cargo_args(cargo_command_table()[4], Some(p)) == seq![
            "clippy"@, "-p"@, p, "--"@, "-D"@, "warnings"@,
        ],
{
    reveal_strlit("--");
    reveal_strlit("check");
    reveal_strlit("build");
    reveal_strlit("build-r");
    reveal_strlit("--release");
    reveal_strlit("test");
    reveal_strlit("clippy");
    reveal_strlit("-D");
    reveal_strlit("warnings");
    reveal_strlit("fmt");
    reveal_strlit("--all");
    reveal_strlit("doc");
    reveal_strlit("run");
    reveal_strlit("clean");
    reveal_strlit("update");
    reveal_strlit("publish");
    assert("check"@[1] != "clean"@[1] && "build"@[0] != "clean"@[0]);
    assert("doc"@[0] != "fmt"@[0] && "run"@[0] != "fmt"@[0] && "clippy"@[0] != "update"@[0]);
    let t = cargo_command_table();
    let scopes = t.map_values(|c: CargoCmdView| c.scope);
    assert(scopes =~= seq![
        CmdScope::Package, CmdScope::Package, CmdScope::Package, CmdScope::Package,
        CmdScope::Package, CmdScope::Workspace, CmdScope::Package, CmdScope::PackageOnly,
        CmdScope::Workspace, CmdScope::Workspace, CmdScope::PackageOnly,
    ]);
    let ids = table_ids();
    assert(table_ids() =~= seq![
        "check"@, "build"@, "build-r"@, "test"@, "clippy"@, "fmt"@, "doc"@, "run"@,
        "clean"@, "update"@, "publish"@,
    ]);
    assert forall|i: int| 0 <= i < t.len() && i != 4 implies package_slot(#[trigger] t[i].args)
        == t[i].args.len() && forall|j: int| 0 <= j < t[i].args.len() ==> t[i].args[j] != "--"@ by {
        assert forall|j: int| 0 <= j < t[i].args.len() implies t[i].args[j] != "--"@ by {
            assert(t[i].args[j].len() != 2 || t[i].args[j][0] != '-' || t[i].args[j][1] != '-');
        }
        lemma_slot_at_end(t[i].args);
    }
    assert(package_slot(t[4].args) == 1) by {
        assert(is_first_index(t[4].args, "--"@, 1)) by {
            assert(t[4].args[0] != "--"@) by {
                assert(t[4].args[0][0] != "--"@[0]);
            }
        }
        lemma_first_index_some(t[4].args, "--"@, 1);
    }
    assert forall|i: int| 0 <= i < t.len() implies {
        let c = #[trigger] t[i];
        if c.id == "fmt"@ || c.id == "clean"@ || c.id == "update"@ {
            cargo_args(c, Some(p)) == c.args
        } else {
            exists|k: int|
                0 <= k <= c.args.len() && (forall|j: int| 0 <= j < k ==> c.args[j] != "--"@)
                    && cargo_args(c, Some(p)) == c.args.take(k) + seq!["-p"@, p] + c.args.skip(k)
        }
    } by {
        let c = t[i];
        let k = package_slot(c.args);
        assert(scopes[i] == c.scope);
        assert(ids[i] == c.id);
        assert((c.scope == CmdScope::Workspace) == (c.id == "fmt"@ || c.id == "clean"@ || c.id
            == "update"@)) by {
            if i == 0 {
            } else if i == 1 {
            } else if i == 2 {
            } else if i == 3 {
            } else if i == 4 {
            } else if i == 5 {
            } else if i == 6 {
            } else if i == 7 {
            } else if i == 8 {
            } else if i == 9 {
            } else {
            }
        }
        if !(c.id == "fmt"@ || c.id == "clean"@ || c.id == "update"@) {
            assert(c.scope != CmdScope::Workspace);
            if i == 4 {
                assert(c.args[0] != "--"@) by {
                    assert(c.args[0][0] != "--"@[0]);
                }
            }
            assert(0 <= k <= c.args.len());
            assert(forall|j: int| 0 <= j < k ==> c.args[j] != "--"@);
            assert(cargo_args(c, Some(p)) == c.args.take(k) + seq!["-p"@, p] + c.args.skip(k));
        } else {
            assert(c.scope == CmdScope::Workspace);
        }
    }
    assert(cargo_args(t[3], Some(p)) =~= seq!["test"@, "-p"@, p]);
    assert(cargo_args(t[4], Some(p)) =~= seq!["clippy"@, "-p"@, p, "--"@, "-D"@, "warnings"@]);
}

/// The strings joined with `sep` between them.
pub fn join_strings(pieces: &Vec<String>, sep: &str) -> (s: String)
    ensures
        s@ == join(pieces.deep_view(), sep@),
{
    let ghost ps = pieces.deep_view();
    let mut s = String::new();
    let mut i: usize = 0;
    while i < pieces.len()
        invariant
            i <= pieces@.len(),
            ps == pieces.deep_view(),
            s@ == join(ps.take(i as int), sep@),
        decreases pieces@.len() - i,
    {
        assert(ps.take(i + 1).drop_last() =~= ps.take(i as int));
        if i > 0 {
            s.append(sep);
        } else {
            assert(s@ + ps[0] =~= ps[0]);
        }
        s.append(pieces[i].as_str());
        i = i + 1;
    }
    assert(ps.take(i as int) =~= ps);
    s
}

/// Whether the task id is a workspace task among `rows`.
fn global_id(rows: &Vec<crate::tasks::TaskRow>, id: &String) -> (b: bool)
    ensures
        b == is_global_id(rows.deep_view(), id@),
{
    let ghost rs = rows.deep_view();
    let mut i = rows.len();
    assert(rs.take(i as int) =~= rs);
    while i > 0
        invariant
            i <= rows@.len(),
            rs == rows.deep_view(),
            is_global_id(rs, id@) == is_global_id(rs.take(i as int), id@),
        decreases i,
    {
        assert(rs.take(i as int).drop_last() =~= rs.take(i - 1));
        if rows[i - 1].id == *id {
            return rows[i - 1].is_global;
        }
        i = i - 1;
    }
    false
}

/// The step that runs xtask task `id` for `target`.
fn make_xtask_step(id: &String, target: &str, global: bool) -> (s: PipelineStep)
    ensures
        s.deep_view() == xtask_step(id@, target@, global),
{
    let mut label = String::new();
    if !global {
        label.append(" ");
        label.append(target);
    }
    let used = id.as_str().len().saturating_add(label.as_str().len());
    let mut header = String::from_str("\n── cargo xtask ");
    header.append(id.as_str());
    header.append(label.as_str());
    header.append(" ");
    header.append(rule(38usize.saturating_sub(used)).as_str());
    header.append("\n");
    let mut note = String::from_str("❌ Task `");
    note.append(id.as_str());
    note.append("` failed — pipeline stopped.");
    let mut args: Vec<String> = Vec::new();
    args.push(String::from_str("xtask"));
    args.push(id.clone());
    if !global {
        args.push(String::from_str(target));
    }
    let ghost lbl = if global {
        Seq::<char>::empty()
    } else {
        " "@ + target@
    };
    assert(label@ =~= lbl);
    assert(args.deep_view() =~= xtask_step(id@, target@, global).args);
    PipelineStep { id: id.clone(), args, header, failure_note: note }
}

/// Appends the strings `parts[lo..hi]` to `out`.
fn push_strs(out: &mut Vec<String>, parts: &[&str], lo: usize, hi: usize)
    requires
        lo <= hi <= parts@.len(),
    ensures
        final(out).deep_view() == old(out).deep_view() + parts.deep_view().subrange(
            lo as int,
            hi as int,
        ),
{
    let ghost start = out.deep_view();
    let mut i = lo;
    while i < hi
        invariant
            lo <= i <= hi <= parts@.len(),
            out.deep_view() == start + parts.deep_view().subrange(lo as int, i as int),
        decreases hi - i,
    {
        let ghost before = out.deep_view();
        out.push(String::from_str(parts[i]));
        assert(out.deep_view() =~= before.push(parts@[i as int]@));
        assert(parts.deep_view().subrange(lo as int, i + 1) =~= parts.deep_view().subrange(
            lo as int,
            i as int,
        ).push(parts@[i as int]@));
        i = i + 1;
    }
}

/// The position of the first `--` among `args`, or their number.
fn separator_position(args: &[&str]) -> (k: usize)
    ensures
        k as int == package_slot(args.deep_view()),
        k <= args@.len(),
{
    let ghost a = args.deep_view();
    let mut i: usize = 0;
    while i < args.len() && !str_equal(args[i], "--")
        invariant
            i <= args@.len(),
            a == args.deep_view(),
            forall|j: int| 0 <= j < i ==> a[j] != "--"@,
        decreases args@.len() - i,
    {
        i = i + 1;
    }
    proof {
        if i < args.len() {
            assert(a[i as int] == "--"@);
            lemma_first_index_some(a, "--"@, i as int);
        } else if first_index(a, "--"@) is Some {
            let k = first_index(a, "--"@)->0;
            assert(is_first_index(a, "--"@, k));
        }
    }
    i
}

/// The step that runs cargo command `c`.
fn make_cargo_step(c: &CargoCmd, package: Option<&str>) -> (s: PipelineStep)
    ensures
        s.deep_view() == cargo_step(
            c.deep_view(),
            match package {
                Some(p) => Some(p@),
                None => None,
            },
        ),
{
    let ghost pkg = match package {
        Some(p) => Some(p@),
        None => None::<Seq<char>>,
    };
    let mut args: Vec<String> = Vec::new();
    if c.scope != CmdScope::Workspace && package.is_some() {
        let k = separator_position(c.args);
        push_strs(&mut args, c.args, 0, k);
        args.push(String::from_str("-p"));
        args.push(String::from_str(package.unwrap()));
        push_strs(&mut args, c.args, k, c.args.len());
        proof {
            let a = c.args.deep_view();
            let p = package->0;
            assert(args.deep_view() =~= a.take(k as int) + seq!["-p"@, p@] + a.skip(k as int));
        }
    } else {
        push_strs(&mut args, c.args, 0, c.args.len());
        assert(args.deep_view() =~= c.args.deep_view());
    }
    assert(args.deep_view() == cargo_args(c.deep_view(), pkg));
    let mut display = String::from_str("cargo ");
    display.append(join_strings(&args, " ").as_str());
    let mut header = String::from_str("\n── ");
    header.append(display.as_str());
    header.append(" ");
    header.append(rule(50usize.saturating_sub(display.as_str().len())).as_str());
    header.append("\n");
    let mut note = String::from_str("❌ `");
    note.append(display.as_str());
    note.append("` failed — pipeline stopped.");
    PipelineStep { id: String::from_str(c.id), args, header, failure_note: note }
}

/// The command of the fixed list with id `id`.
fn command_with_id(cmds: &Vec<CargoCmd>, id: &String) -> (r: Option<CargoCmd>)
    requires
        cmds.deep_view() == cargo_command_table(),
    ensures
        match r {
            Some(c) => first_index(table_ids(), id@) matches Some(i) && c.deep_view()
                == cargo_command_table()[i],
            None => first_index(table_ids(), id@) is None,
        },
{
    let ghost ids = table_ids();
    let mut i: usize = 0;
    while i < cmds.len() && !str_equal(cmds[i].id, id.as_str())
        invariant
            i <= cmds@.len(),
            cmds.deep_view() == cargo_command_table(),
            ids == table_ids(),
            ids.len() == cmds@.len(),
            forall|j: int| 0 <= j < i ==> ids[j] != id@,
        decreases cmds@.len() - i,
    {
        assert(ids[i as int] == cmds@[i as int].id@);
        i = i + 1;
    }
    if i < cmds.len() {
        proof {
            assert(ids[i as int] == cmds.deep_view()[i as int].id);
            lemma_first_index_some(ids, id@, i as int);
        }
        Some(cmds[i])
    } else {
        proof {
            if first_index(ids, id@) is Some {
                let k = first_index(ids, id@)->0;
                assert(is_first_index(ids, id@, k));
            }
        }
        None
    }
}

/// The target after `cur` among `n`, wrapping around.
pub fn next_target(cur: usize, n: usize) -> (r: usize)
    requires
        n > 0,
        cur + 1 <= usize::MAX,
    ensures
        r == (cur + 1) % (n as int),
{
    (cur + 1) % n
}

/// The target before `cur` among `n`, wrapping around.
pub fn prev_target(cur: usize, n: usize) -> (r: usize)
    requires
        n > 0,
        cur + n <= usize::MAX,
    ensures
        r == (cur + n - 1) % (n as int),
{
    (cur + n - 1) % n
}

/// Stepping forward and then back returns to the same target.
pub proof fn lemma_prev_undoes_next(cur: int, n: int)
    requires
        0 <= cur < n,
    ensures
        ((cur + 1) % n + n - 1) % n == cur,
        ((cur + n - 1) % n + 1) % n == cur,
{
    if cur + 1 < n {
        assert((cur + 1) % n == cur + 1) by (nonlinear_arith)
            requires
                0 <= cur + 1 < n,
        ;
        assert((cur + 1 + n - 1) % n == cur) by (nonlinear_arith)
            requires
                0 <= cur < n,
        {
            assert(cur + 1 + n - 1 == cur + n * 1);
        }
    } else {
        assert((cur + 1) % n == 0) by (nonlinear_arith)
            requires
                cur + 1 == n,
                n > 0,
        ;
        assert((0 + n - 1) % n == n - 1) by (nonlinear_arith)
            requires
                n > 0,
        ;
    }
    if cur > 0 {
        assert((cur + n - 1) % n == cur - 1) by (nonlinear_arith)
            requires
                0 < cur < n,
        {
            assert(cur + n - 1 == (cur - 1) + n * 1);
        }
        assert((cur - 1 + 1) % n == cur) by (nonlinear_arith)
            requires
                0 < cur < n,
        ;
    } else {
        assert((n - 1) % n == n - 1) by (nonlinear_arith)
            requires
                n > 0,
        ;
        assert((n - 1 + 1) % n == 0) by (nonlinear_arith)
            requires
                n > 0,
        ;
    }
}

/// The name shown for a target: `workspace` is shown as `Workspace`.
pub open spec fn target_label_of(name: Seq<char>) -> Seq<char> {
    if name == "workspace"@ {
        "Workspace"@
    } else {
        name
    }
}

/// The name shown for a target.
pub fn target_label(name: &str) -> (s: String)
    ensures
        s@ == target_label_of(name@),
{
    if str_equal(name, "workspace") {
        String::from_str("Workspace")
    } else {
        String::from_str(name)
    }
}

/// The colour of a target in the target list: the selected one is
/// accented, `workspace` is a warning colour, the others normal.
pub fn target_label_color(name: &str, selected: bool) -> (c: Rgb)
    ensures
        c == if selected {
            Shade::Accent.value()
        } else if name@ == "workspace"@ {
            Shade::Warning.value()
        } else {
            Shade::TextNormal.value()
        },
{
    if selected {
        Shade::Accent.rgb()
    } else if str_equal(name, "workspace") {
        Shade::Warning.rgb()
    } else {
        Shade::TextNormal.rgb()
    }
}

/// The note after the description of a command that waits for a package.
pub fn cargo_desc_suffix(scope: CmdScope, enabled: bool) -> (s: &'static str)
    ensures
        s@ == if !enabled && scope == CmdScope::PackageOnly {
            " (select a package first)"@
        } else {
            ""@
        },
{
    if !enabled && scope == CmdScope::PackageOnly {
        " (select a package first)"
    } else {
        ""
    }
}

/// What the user asked for during one frame.
pub struct Requests {
    pub stop: bool,
    pub single_run: Option<String>,
    pub run_selected: bool,
    pub single_cargo_run: Option<String>,
    pub run_cargo: bool,
}

/// What the window does with the user's requests.
pub enum Action {
    Stop,
    RunTasks(Vec<String>),
    RunCargo(Vec<String>),
    Nothing,
}

/// The decision logic of the runner window.
pub struct XtaskRunner {
    pub state: AppState,
    pub active_tab: ActiveTab,
}

impl XtaskRunner {
    /// A runner showing the xtask tab.
    pub fn new(state: AppState) -> (r: Self)
        ensures
            r.state == state,
            r.active_tab == ActiveTab::Xtask,
    {
        XtaskRunner { state, active_tab: ActiveTab::Xtask }
    }

    /// Chooses among the requests of one frame: stopping first, then a
    /// single task, the checked tasks, a single command, the checked
    /// commands.
    pub fn decide(&self, req: Requests) -> (a: Action)
        ensures
            match a {
                Action::Stop => req.stop,
                Action::RunTasks(ids) => !req.stop && match req.single_run {
                    Some(id) => ids.deep_view() == seq![id@],
                    None => req.run_selected && ids.deep_view() == checked_ids_of(
                        self.state.tasks.deep_view(),
                    ),
                },
                Action::RunCargo(ids) => !req.stop && req.single_run is None && !req.run_selected
                    && match req.single_cargo_run {
                    Some(id) => ids.deep_view() == seq![id@],
                    None => req.run_cargo && ids.deep_view() == checked_cargo_ids_of(
                        self.state.cargo_rows.deep_view(),
                        self.state.has_package(),
                    ),
                },
                Action::Nothing => !req.stop && req.single_run is None && !req.run_selected
                    && req.single_cargo_run is None && !req.run_cargo,
            },
    {
        if req.stop {
            Action::Stop
        } else if let Some(id) = req.single_run {
            let ids = vec![id];
            assert(ids.deep_view() =~= seq![ids@[0]@]);
            Action::RunTasks(ids)
        } else if req.run_selected {
            Action::RunTasks(self.state.checked_ids())
        } else if let Some(id) = req.single_cargo_run {
            let ids = vec![id];
            assert(ids.deep_view() =~= seq![ids@[0]@]);
            Action::RunCargo(ids)
        } else if req.run_cargo {
            Action::RunCargo(self.state.checked_cargo_ids())
        } else {
            Action::Nothing
        }
    }

    /// Prepares a run of the xtask tasks `ids` for the selected target:
    /// nothing when there is no id or no target; otherwise every task row
    /// becomes idle and the run's steps come back, one per id, in order.
    pub fn run_tasks(&mut self, ids: &Vec<String>) -> (r: Option<Pipeline>)
        ensures
            r is None <==> ids@.len() == 0 || old(self).state.selected_target
                >= old(self).state.target_names@.len(),
            r is None ==> *final(self) == *old(self),
            r matches Some(p) ==> {
                &&& p@ == PipelineView::fresh(
                    xtask_steps(
                        ids.deep_view(),
                        old(self).state.target_names@[old(self).state.selected_target as int]@,
                        old(self).state.tasks.deep_view(),
                    ),
                )
                &&& final(self).state.tasks@.len() == old(self).state.tasks@.len()
                &&& forall|i: int|
                    0 <= i < old(self).state.tasks@.len() ==> #[trigger] final(self).state.tasks.deep_view()[i] == (TaskRowView {
                        status: TaskStatus::Idle,
                        ..old(self).state.tasks.deep_view()[i]
                    })
            },
            final(self).active_tab == old(self).active_tab,
            final(self).state.all_entries == old(self).state.all_entries,
            final(self).state.target_names == old(self).state.target_names,
            final(self).state.selected_target == old(self).state.selected_target,
            final(self).state.checked_state == old(self).state.checked_state,
            final(self).state.load_error == old(self).state.load_error,
            final(self).state.packages == old(self).state.packages,
            final(self).state.selected_package == old(self).state.selected_package,
            final(self).state.cargo_rows == old(self).state.cargo_rows,
    {
        if ids.len() == 0 {
            return None;
        }
        let target = match self.state.current_target() {
            Some(t) => String::from_str(t),
            None => return None,
        };
        reset_task_statuses(&mut self.state.tasks);
        let ghost rows = self.state.tasks.deep_view();
        proof {
            lemma_global_ignores_status(old(self).state.tasks.deep_view(), rows);
        }
        let ghost ids_v = ids.deep_view();
        let mut steps: Vec<PipelineStep> = Vec::new();
        let mut i: usize = 0;
        while i < ids.len()
            invariant
                i <= ids@.len(),
                ids_v == ids.deep_view(),
                rows == self.state.tasks.deep_view(),
                forall|id: Seq<char>|
                    is_global_id(rows, id) == is_global_id(old(self).state.tasks.deep_view(), id),
                steps.deep_view() == xtask_steps(
                    ids_v.take(i as int),
                    target@,
                    old(self).state.tasks.deep_view(),
                ),
            decreases ids@.len() - i,
        {
            let global = global_id(&self.state.tasks, &ids[i]);
            let step = make_xtask_step(&ids[i], target.as_str(), global);
            let ghost before = steps.deep_view();
            steps.push(step);
            assert(steps.deep_view() =~= before.push(
                xtask_step(ids_v[i as int], target@, is_global_id(old(self).state.tasks.deep_view(), ids_v[i as int])),
            ));
            assert(steps.deep_view() =~= xtask_steps(
                ids_v.take(i + 1),
                target@,
                old(self).state.tasks.deep_view(),
            ));
            i = i + 1;
        }
        assert(ids_v.take(i as int) =~= ids_v);
        Some(Pipeline::new(steps))
    }

    /// Prepares a run of the cargo commands `ids` for the selected package:
    /// nothing when there is no id; otherwise every cargo row becomes idle
    /// and the run's steps come back, one per id that names a command.
    pub fn run_cargo_cmds(&mut self, ids: &Vec<String>) -> (r: Option<Pipeline>)
        ensures
            r is None <==> ids@.len() == 0,
            r is None ==> *final(self) == *old(self),
            r matches Some(p) ==> {
                &&& p@ == PipelineView::fresh(
                    cargo_steps(
                        ids.deep_view(),
                        if old(self).state.has_package() {
                            Some(
                                old(self).state.packages@[old(self).state.selected_package
                                    - 1]@,
                            )
                        } else {
                            None
                        },
                    ),
                )
                &&& final(self).state.cargo_rows@.len() == old(self).state.cargo_rows@.len()
                &&& forall|i: int|
                    0 <= i < old(self).state.cargo_rows@.len() ==> #[trigger] final(self).state.cargo_rows.deep_view()[i] == (crate::tasks::CargoRowView {
                        status: TaskStatus::Idle,
                        ..old(self).state.cargo_rows.deep_view()[i]
                    })
            },
            final(self).active_tab == old(self).active_tab,
            final(self).state.all_entries == old(self).state.all_entries,
            final(self).state.target_names == old(self).state.target_names,
            final(self).state.selected_target == old(self).state.selected_target,
            final(self).state.tasks == old(self).state.tasks,
            final(self).state.checked_state == old(self).state.checked_state,
            final(self).state.load_error == old(self).state.load_error,
            final(self).state.packages == old(self).state.packages,
            final(self).state.selected_package == old(self).state.selected_package,
    {
        if ids.len() == 0 {
            return None;
        }
        let package = match self.state.current_package() {
            Some(p) => Some(String::from_str(p)),
            None => None,
        };
        let ghost pkg = if old(self).state.has_package() {
            Some(old(self).state.packages@[old(self).state.selected_package - 1]@)
        } else {
            None
        };
        let cmds = cargo_commands();
        reset_cargo_statuses(&mut self.state.cargo_rows);
        let ghost ids_v = ids.deep_view();
        let mut steps: Vec<PipelineStep> = Vec::new();
        let mut i: usize = 0;
        while i < ids.len()
            invariant
                i <= ids@.len(),
                ids_v == ids.deep_view(),
                cmds.deep_view() == cargo_command_table(),
                match package {
                    Some(p) => pkg == Some(p@),
                    None => pkg is None,
                },
                steps.deep_view() == cargo_steps(ids_v.take(i as int), pkg),
            decreases ids@.len() - i,
        {
            assert(ids_v.take(i + 1).drop_last() =~= ids_v.take(i as int));
            assert(ids_v.take(i + 1).last() == ids@[i as int]@);
            let ghost before = steps.deep_view();
            match command_with_id(&cmds, &ids[i]) {
                Some(c) => {
                    let p = match &package {
                        Some(p) => Some(p.as_str()),
                        None => None,
                    };
                    let step = make_cargo_step(&c, p);
                    steps.push(step);
                    assert(steps.deep_view() =~= before.push(step.deep_view()));
                },
                None => {},
            }
            i = i + 1;
        }
        assert(ids_v.take(i as int) =~= ids_v);
        Some(Pipeline::new(steps))
    }
}

/// Whether an id is global does not depend on the rows' statuses.
proof fn lemma_global_ignores_status(a: Seq<TaskRowView>, b: Seq<TaskRowView>)
    requires
        a.len() == b.len(),
        forall|i: int| 0 <= i < a.len() ==> #[trigger] b[i].id == a[i].id && b[i].is_global == a[i].is_global,
    ensures
        forall|id: Seq<char>| is_global_id(b, id) == is_global_id(a, id),
    decreases a.len(),
{
    if a.len() > 0 {
        assert forall|i: int| 0 <= i < a.len() - 1 implies #[trigger] b.drop_last()[i].id
            == a.drop_last()[i].id && b.drop_last()[i].is_global == a.drop_last()[i].is_global by {
            assert(b[i].id == a[i].id);
        }
        lemma_global_ignores_status(a.drop_last(), b.drop_last());
        assert(b[b.len() - 1].id == a[a.len() - 1].id);
        assert forall|id: Seq<char>| is_global_id(b, id) == is_global_id(a, id) by {
            assert(is_global_id(b.drop_last(), id) == is_global_id(a.drop_last(), id));
        }
    }
}

} // verus!
