//! The runner's state: the listed tasks grouped by target, the task rows of
//! the selected target, the checkboxes remembered per target, and the cargo
//! tab's packages and command rows.

use vstd::prelude::*;
use crate::listing::{
    first_appearances, lemma_first_appearances, listing_entries, parse_listing, target_names_of, targets_of, TaskEntry,
    TaskEntryView,
};
use crate::manifest::{package_name, package_name_of};
use crate::strmap::StrMap;
use crate::text::{chars_of, starts_with_at, str_equal, substring};
use crate::tasks::{
    cargo_command_table, cargo_commands, fresh_row, CargoCmd, CargoRow, CargoRowView, CmdScope,
    TaskRow, TaskRowView, TaskStatus,
};

verus! {

/// The checkboxes remembered for each target: target name to task id to
/// whether the task was checked.
pub type CheckedMemory = StrMap<StrMap<bool>>;

pub struct AppState {
    /// Every entry of the last listing.
    pub all_entries: Vec<TaskEntry>,
    /// The distinct targets of the listing, in order of first appearance.
    pub target_names: Vec<String>,
    /// Index into `target_names`.
    pub selected_target: usize,
    /// The rows of the selected target.
    pub tasks: Vec<TaskRow>,
    pub checked_state: CheckedMemory,
    pub load_error: Option<String>,
    /// Workspace members' package names; empty for a single-crate project.
    pub packages: Vec<String>,
    /// 0 for the whole workspace, `i + 1` for `packages[i]`.
    pub selected_package: usize,
    pub cargo_rows: Vec<CargoRow>,
}

/// The row of a listed entry, its checkbox restored from what was remembered
/// for `target`.
pub open spec fn restored_row(
    e: TaskEntryView,
    target: Seq<char>,
    memory: Map<Seq<char>, Map<Seq<char>, bool>>,
) -> TaskRowView {
    let r = fresh_row(e);
    if memory.contains_key(target) && memory[target].contains_key(e.id) {
        TaskRowView { checked: memory[target][e.id], ..r }
    } else {
        r
    }
}

/// The rows of the entries whose target is `target`, in listing order.
pub open spec fn rows_for(
    entries: Seq<TaskEntryView>,
    target: Seq<char>,
    memory: Map<Seq<char>, Map<Seq<char>, bool>>,
) -> Seq<TaskRowView>
    decreases entries.len(),
{
    if entries.len() == 0 {
        seq![]
    } else {
        let r = rows_for(entries.drop_last(), target, memory);
        if entries.last().target == target {
            r.push(restored_row(entries.last(), target, memory))
        } else {
            r
        }
    }
}

/// The ids of the checked rows, in order.
pub open spec fn checked_ids_of(rows: Seq<TaskRowView>) -> Seq<Seq<char>>
    decreases rows.len(),
{
    if rows.len() == 0 {
        seq![]
    } else {
        let r = checked_ids_of(rows.drop_last());
        if rows.last().checked {
            r.push(rows.last().id)
        } else {
            r
        }
    }
}

pub open spec fn load_failure_message(e: Seq<char>) -> Seq<char> {
    "Failed to run `cargo xtask --list`: "@ + e
        + "\nMake sure `cargo` is in PATH and this exe is next to Cargo.toml."@
}

pub open spec fn empty_listing_message() -> Seq<char> {
    "`cargo xtask --list` returned no entries.\nExpected format: target|task_id|description"@
}

pub open spec fn fresh_cargo_rows() -> Seq<CargoRowView> {
    cargo_command_table().map_values(
        |c| CargoRowView { cmd: c, checked: true, status: TaskStatus::Idle },
    )
}

/// The package names that the member manifests declare, in order.
pub open spec fn package_names_of(manifests: Seq<Seq<char>>) -> Seq<Seq<char>>
    decreases manifests.len(),
{
    if manifests.len() == 0 {
        seq![]
    } else {
        let r = package_names_of(manifests.drop_last());
        match package_name_of(manifests.last()) {
            Some(n) => r.push(n),
            None => r,
        }
    }
}

/// What a log line reports: `@@START:<id>`, `@@DONE:<id>` or `@@FAIL:<id>`.
pub open spec fn sentinel_of(line: Seq<char>) -> Option<(TaskStatus, Seq<char>)> {
    if "@@START:"@.is_prefix_of(line) {
        Some((TaskStatus::Running, line.skip("@@START:"@.len() as int)))
    } else if "@@DONE:"@.is_prefix_of(line) {
        Some((TaskStatus::Done, line.skip("@@DONE:"@.len() as int)))
    } else if "@@FAIL:"@.is_prefix_of(line) {
        Some((TaskStatus::Failed, line.skip("@@FAIL:"@.len() as int)))
    } else {
        None
    }
}

/// `i` is the first position of `x` in `s`.
pub open spec fn is_first_index<A>(s: Seq<A>, x: A, i: int) -> bool {
    &&& 0 <= i < s.len()
    &&& s[i] == x
    &&& forall|j: int| 0 <= j < i ==> s[j] != x
}

/// The first position of `x` in `s`, if any.
pub open spec fn first_index<A>(s: Seq<A>, x: A) -> Option<int> {
    if exists|i: int| is_first_index(s, x, i) {
        Some(choose|i: int| is_first_index(s, x, i))
    } else {
        None
    }
}

pub open spec fn task_ids(rows: Seq<TaskRowView>) -> Seq<Seq<char>> {
    rows.map_values(|r: TaskRowView| r.id)
}

pub open spec fn cargo_ids(rows: Seq<CargoRowView>) -> Seq<Seq<char>> {
    rows.map_values(|r: CargoRowView| r.cmd.id)
}

/// The first row with id `id` gets status `st`.
pub open spec fn set_task_status(rows: Seq<TaskRowView>, id: Seq<char>, st: TaskStatus) -> Seq<
    TaskRowView,
> {
    match first_index(task_ids(rows), id) {
        Some(i) => rows.update(i, TaskRowView { status: st, ..rows[i] }),
        None => rows,
    }
}

/// The first cargo row with id `id` gets status `st`.
pub open spec fn set_cargo_status(rows: Seq<CargoRowView>, id: Seq<char>, st: TaskStatus) -> Seq<
    CargoRowView,
> {
    match first_index(cargo_ids(rows), id) {
        Some(i) => rows.update(i, CargoRowView { status: st, ..rows[i] }),
        None => rows,
    }
}

/// The rows once the markers among `log` have been applied in order.
pub open spec fn tasks_after(rows: Seq<TaskRowView>, log: Seq<Seq<char>>) -> Seq<TaskRowView>
    decreases log.len(),
{
    if log.len() == 0 {
        rows
    } else {
        let r = tasks_after(rows, log.drop_last());
        match sentinel_of(log.last()) {
            Some((st, id)) => set_task_status(r, id, st),
            None => r,
        }
    }
}

/// The cargo rows once the markers among `log` have been applied in order.
pub open spec fn cargo_after(rows: Seq<CargoRowView>, log: Seq<Seq<char>>) -> Seq<CargoRowView>
    decreases log.len(),
{
    if log.len() == 0 {
        rows
    } else {
        let r = cargo_after(rows, log.drop_last());
        match sentinel_of(log.last()) {
            Some((st, id)) => set_cargo_status(r, id, st),
            None => r,
        }
    }
}

/// The lines of `log` that are not markers, in order.
pub open spec fn plain_lines(log: Seq<Seq<char>>) -> Seq<Seq<char>>
    decreases log.len(),
{
    if log.len() == 0 {
        seq![]
    } else {
        let r = plain_lines(log.drop_last());
        if sentinel_of(log.last()) is None {
            r.push(log.last())
        } else {
            r
        }
    }
}

/// A running task becomes failed; other statuses stay.
pub open spec fn stopped(st: TaskStatus) -> TaskStatus {
    if st == TaskStatus::Running {
        TaskStatus::Failed
    } else {
        st
    }
}

/// The checkboxes of `rows` by id; a later row wins over an earlier one with
/// the same id.
pub open spec fn saved_checks(rows: Seq<TaskRowView>) -> Map<Seq<char>, bool>
    decreases rows.len(),
{
    if rows.len() == 0 {
        Map::empty()
    } else {
        saved_checks(rows.drop_last()).insert(rows.last().id, rows.last().checked)
    }
}

/// The name of the selected target, or the empty name when none is.
pub open spec fn selected_name(names: Seq<Seq<char>>, i: int) -> Seq<char> {
    if 0 <= i < names.len() {
        names[i]
    } else {
        seq![]
    }
}

/// A command that needs a package is only enabled when one is selected.
pub open spec fn cmd_enabled(scope: CmdScope, has_package: bool) -> bool {
    scope != CmdScope::PackageOnly || has_package
}

pub open spec fn checked_cargo_ids_of(rows: Seq<CargoRowView>, has_package: bool) -> Seq<
    Seq<char>,
>
    decreases rows.len(),
{
    if rows.len() == 0 {
        seq![]
    } else {
        let r = checked_cargo_ids_of(rows.drop_last(), has_package);
        if rows.last().checked && cmd_enabled(rows.last().cmd.scope, has_package) {
            r.push(rows.last().cmd.id)
        } else {
            r
        }
    }
}

/// The rows of a target have ids that do not depend on what is remembered,
/// are idle, and have the remembered checkbox of their id, else a checked
/// one.
pub proof fn lemma_rows_for_shape(
    entries: Seq<TaskEntryView>,
    target: Seq<char>,
    m1: Map<Seq<char>, Map<Seq<char>, bool>>,
    m2: Map<Seq<char>, Map<Seq<char>, bool>>,
)
    ensures
        task_ids(rows_for(entries, target, m1)) == task_ids(rows_for(entries, target, m2)),
        forall|k: int|
            0 <= k < rows_for(entries, target, m1).len() ==> {
                let r = #[trigger] rows_for(entries, target, m1)[k];
                &&& r.status == TaskStatus::Idle
                &&& r.checked == if m1.contains_key(target) && m1[target].contains_key(r.id) {
                    m1[target][r.id]
                } else {
                    true
                }
            },
    decreases entries.len(),
{
    if entries.len() > 0 {
        lemma_rows_for_shape(entries.drop_last(), target, m1, m2);
        let a = rows_for(entries.drop_last(), target, m1);
        let b = rows_for(entries.drop_last(), target, m2);
        if entries.last().target == target {
            assert(task_ids(a.push(restored_row(entries.last(), target, m1))) =~= task_ids(
                b.push(restored_row(entries.last(), target, m2)),
            )) by {
                assert(task_ids(a) == task_ids(b));
                assert(a.len() == task_ids(a).len());
                assert(b.len() == task_ids(b).len());
                assert forall|k: int| 0 <= k < a.len() implies a[k].id == b[k].id by {
                    assert(task_ids(a)[k] == a[k].id);
                    assert(task_ids(b)[k] == b[k].id);
                }
            }
        }
    }
}

/// The rows of a target show, in listing order, exactly the entries listed
/// for that target: each row has its entry's id and description, is idle,
/// and is a workspace task exactly when the target is `workspace`.
pub proof fn lemma_rows_show_entries(
    entries: Seq<TaskEntryView>,
    target: Seq<char>,
    memory: Map<Seq<char>, Map<Seq<char>, bool>>,
)
    ensures
        ({
            let listed = entries.filter(|e: TaskEntryView| e.target == target);
            let rows = rows_for(entries, target, memory);
            &&& rows.len() == listed.len()
            &&& forall|k: int|
                0 <= k < rows.len() ==> {
                    &&& (#[trigger] rows[k]).id == listed[k].id
                    &&& rows[k].desc == listed[k].desc
                    &&& rows[k].status == TaskStatus::Idle
                    &&& rows[k].is_global == (target == "workspace"@)
                }
        }),
    decreases entries.len(),
{
    reveal(Seq::filter);
    if entries.len() > 0 {
        lemma_rows_show_entries(entries.drop_last(), target, memory);
        let listed = entries.filter(|e: TaskEntryView| e.target == target);
        let prev = entries.drop_last().filter(|e: TaskEntryView| e.target == target);
        let rows = rows_for(entries, target, memory);
        let prows = rows_for(entries.drop_last(), target, memory);
        assert forall|k: int| 0 <= k < rows.len() implies {
            &&& (#[trigger] rows[k]).id == listed[k].id
            &&& rows[k].desc == listed[k].desc
            &&& rows[k].status == TaskStatus::Idle
            &&& rows[k].is_global == (target == "workspace"@)
        } by {
            if k < prows.len() {
                assert(rows[k] == prows[k]);
                assert(listed[k] == prev[k]);
            }
        }
    }
}

/// The saved checkboxes hold every id of the rows, and, when the ids are
/// distinct, each row's own checkbox.
pub proof fn lemma_saved_checks(rows: Seq<TaskRowView>)
    ensures
        forall|id: Seq<char>| saved_checks(rows).contains_key(id) <==> task_ids(rows).contains(id),
        task_ids(rows).no_duplicates() ==> forall|k: int|
            0 <= k < rows.len() ==> saved_checks(rows)[#[trigger] rows[k].id] == rows[k].checked,
    decreases rows.len(),
{
    if rows.len() > 0 {
        let rest = rows.drop_last();
        lemma_saved_checks(rest);
        assert(task_ids(rows) =~= task_ids(rest).push(rows.last().id));
        assert forall|id: Seq<char>|
            saved_checks(rows).contains_key(id) <==> task_ids(rows).contains(id) by {
            if task_ids(rest).contains(id) {
                let k = choose|k: int| 0 <= k < task_ids(rest).len() && task_ids(rest)[k] == id;
                assert(task_ids(rows)[k] == id);
            }
            if task_ids(rows).contains(id) && id != rows.last().id {
                let k = choose|k: int| 0 <= k < task_ids(rows).len() && task_ids(rows)[k] == id;
                assert(task_ids(rest)[k] == id);
            }
            if id == rows.last().id {
                assert(task_ids(rows)[rows.len() - 1] == id);
            }
        }
        if task_ids(rows).no_duplicates() {
            assert(task_ids(rest).no_duplicates()) by {
                assert forall|a: int, b: int|
                    0 <= a < task_ids(rest).len() && 0 <= b < task_ids(rest).len() && a != b implies task_ids(rest)[a] != task_ids(rest)[b] by {
                    assert(task_ids(rows)[a] != task_ids(rows)[b]);
                }
            }
            assert forall|k: int| 0 <= k < rows.len() implies saved_checks(rows)[#[trigger] rows[k].id] == rows[k].checked by {
                if k < rows.len() - 1 {
                    assert(task_ids(rows)[k] != task_ids(rows)[rows.len() - 1]);
                    assert(rest[k] == rows[k]);
                }
            }
        }
    }
}

/// Leaving a target for another and coming back restores every checkbox of
/// the first target: after `select_target(away)` and then
/// `select_target(home)`, the rows are those from before, idle, with the
/// same checkboxes. The task ids of the target must be distinct, since the
/// checkboxes are remembered by id.
pub proof fn lemma_checkboxes_survive_switching(
    entries: Seq<TaskEntryView>,
    home: Seq<char>,
    away: Seq<char>,
    memory: Map<Seq<char>, Map<Seq<char>, bool>>,
    tasks: Seq<TaskRowView>,
)
    requires
        home != away,
        task_ids(tasks) == task_ids(rows_for(entries, home, memory)),
        task_ids(tasks).no_duplicates(),
    ensures
        ({
            let m1 = memory.insert(home, saved_checks(tasks));
            let there = rows_for(entries, away, m1);
            let m2 = m1.insert(away, saved_checks(there));
            let back = rows_for(entries, home, m2);
            &&& task_ids(back) == task_ids(tasks)
            &&& forall|k: int|
                0 <= k < tasks.len() ==> (#[trigger] back[k]).checked == tasks[k].checked
                    && back[k].status == TaskStatus::Idle
        }),
{
    let m1 = memory.insert(home, saved_checks(tasks));
    let there = rows_for(entries, away, m1);
    let m2 = m1.insert(away, saved_checks(there));
    let back = rows_for(entries, home, m2);
    lemma_rows_for_shape(entries, home, m2, memory);
    lemma_saved_checks(tasks);
    assert(m2[home] == saved_checks(tasks));
    assert forall|k: int| 0 <= k < tasks.len() implies (#[trigger] back[k]).checked
        == tasks[k].checked && back[k].status == TaskStatus::Idle by {
        assert(back.len() == task_ids(back).len());
        assert(tasks.len() == task_ids(tasks).len());
        assert(task_ids(back) == task_ids(tasks));
        assert(task_ids(back)[k] == back[k].id);
        assert(task_ids(back)[k] == task_ids(tasks)[k]);
        assert(back[k].id == tasks[k].id);
        assert(task_ids(tasks)[k] == tasks[k].id);
        assert(task_ids(tasks).contains(tasks[k].id));
    }
}

/// The same law over positions in the target list: leaving the target at
/// position `a` of a listing for the one at position `b` and coming back
/// restores every checkbox of the first target, which was remembered on
/// leaving it. Two positions name two targets, since the list holds each
/// target once.
pub proof fn lemma_switch_away_and_back(
    entries: Seq<TaskEntryView>,
    a: int,
    b: int,
    memory: Map<Seq<char>, Map<Seq<char>, bool>>,
    tasks: Seq<TaskRowView>,
)
    requires
        0 <= a < first_appearances(targets_of(entries)).len(),
        0 <= b < first_appearances(targets_of(entries)).len(),
        a != b,
        task_ids(tasks) == task_ids(
            rows_for(entries, first_appearances(targets_of(entries))[a], memory),
        ),
        task_ids(tasks).no_duplicates(),
    ensures
        ({
            let names = first_appearances(targets_of(entries));
            let m1 = memory.insert(names[a], saved_checks(tasks));
            let there = rows_for(entries, names[b], m1);
            let m2 = m1.insert(names[b], saved_checks(there));
            let back = rows_for(entries, names[a], m2);
            &&& forall|k: int|
                0 <= k < tasks.len() ==> m1[names[a]][(#[trigger] tasks[k]).id]
                    == tasks[k].checked
            &&& task_ids(back) == task_ids(tasks)
            &&& forall|k: int|
                0 <= k < tasks.len() ==> (#[trigger] back[k]).checked == tasks[k].checked
                    && back[k].status == TaskStatus::Idle
        }),
{
    let names = first_appearances(targets_of(entries));
    lemma_first_appearances(targets_of(entries));
    assert(names[a] != names[b]);
    lemma_saved_checks(tasks);
    lemma_checkboxes_survive_switching(entries, names[a], names[b], memory, tasks);
}

/// "Run selected" is offered exactly when it has something to run: some
/// row is checked if and only if the checked ids are not empty.
pub proof fn lemma_any_checked_iff_ids(rows: Seq<TaskRowView>)
    ensures
        (exists|i: int| 0 <= i < rows.len() && #[trigger] rows[i].checked) <==> checked_ids_of(
            rows,
        ).len() > 0,
    decreases rows.len(),
{
    if rows.len() > 0 {
        let rest = rows.drop_last();
        lemma_any_checked_iff_ids(rest);
        if exists|i: int| 0 <= i < rest.len() && #[trigger] rest[i].checked {
            let i = choose|i: int| 0 <= i < rest.len() && #[trigger] rest[i].checked;
            assert(rows[i].checked);
        }
        if exists|i: int| 0 <= i < rows.len() && #[trigger] rows[i].checked {
            let i = choose|i: int| 0 <= i < rows.len() && #[trigger] rows[i].checked;
            if i < rows.len() - 1 {
                assert(rest[i].checked);
            }
        }
    }
}

/// The same for the cargo tab, where only enabled commands count.
pub proof fn lemma_any_cargo_checked_iff_ids(rows: Seq<CargoRowView>, has_package: bool)
    ensures
        (exists|i: int|
            0 <= i < rows.len() && #[trigger] rows[i].checked && cmd_enabled(
                rows[i].cmd.scope,
                has_package,
            )) <==> checked_cargo_ids_of(rows, has_package).len() > 0,
    decreases rows.len(),
{
    if rows.len() > 0 {
        let rest = rows.drop_last();
        lemma_any_cargo_checked_iff_ids(rest, has_package);
        if exists|i: int|
            0 <= i < rest.len() && #[trigger] rest[i].checked && cmd_enabled(
                rest[i].cmd.scope,
                has_package,
            ) {
            let i = choose|i: int|
                0 <= i < rest.len() && #[trigger] rest[i].checked && cmd_enabled(
                    rest[i].cmd.scope,
                    has_package,
                );
            assert(rows[i].checked);
        }
        if exists|i: int|
            0 <= i < rows.len() && #[trigger] rows[i].checked && cmd_enabled(
                rows[i].cmd.scope,
                has_package,
            ) {
            let i = choose|i: int|
                0 <= i < rows.len() && #[trigger] rows[i].checked && cmd_enabled(
                    rows[i].cmd.scope,
                    has_package,
                );
            if i < rows.len() - 1 {
                assert(rest[i].checked);
            }
        }
    }
}

/// After a stop no task or command is running: what was running has
/// failed, and every other status stays.
pub proof fn lemma_stop_leaves_nothing_running(st: TaskStatus)
    ensures
        stopped(st) != TaskStatus::Running,
        st == TaskStatus::Running ==> stopped(st) == TaskStatus::Failed,
        st != TaskStatus::Running ==> stopped(st) == st,
{
}

/// Once the markers are applied, none is left in the log, and the other
/// lines keep their order.
pub proof fn lemma_markers_consumed(log: Seq<Seq<char>>)
    ensures
        forall|i: int|
            0 <= i < plain_lines(log).len() ==> sentinel_of(#[trigger] plain_lines(log)[i])
                is None,
        plain_lines(log).len() <= log.len(),
        forall|i: int| 0 <= i < log.len() && sentinel_of(#[trigger] log[i]) is None
            ==> plain_lines(log).contains(log[i]),
    decreases log.len(),
{
    if log.len() > 0 {
        let rest = log.drop_last();
        lemma_markers_consumed(rest);
        let p = plain_lines(rest);
        assert forall|i: int| 0 <= i < log.len() && sentinel_of(#[trigger] log[i]) is None
            implies plain_lines(log).contains(log[i]) by {
            if i < log.len() - 1 {
                assert(rest[i] == log[i]);
                assert(p.contains(log[i]));
                let k = choose|k: int| 0 <= k < p.len() && p[k] == log[i];
                if sentinel_of(log.last()) is None {
                    assert(plain_lines(log)[k] == log[i]);
                }
            } else {
                assert(plain_lines(log)[p.len() as int] == log[i]);
            }
        }
    }
}

/// Applying the markers keeps every line of the log that is not a marker
/// (`@@START:`, `@@DONE:` or `@@FAIL:` followed by an id), in order and
/// with repeated lines repeated, and nothing else.
pub proof fn lemma_markers_leave_other_lines(log: Seq<Seq<char>>)
    ensures
        plain_lines(log) == log.filter(
            |l: Seq<char>|
                !("@@START:"@.is_prefix_of(l) || "@@DONE:"@.is_prefix_of(l)
                    || "@@FAIL:"@.is_prefix_of(l)),
        ),
    decreases log.len(),
{
    reveal(Seq::filter);
    if log.len() > 0 {
        lemma_markers_leave_other_lines(log.drop_last());
    }
}

/// `after` is `rows` with the first row of id `id`, if any, given status
/// `st`, and every other row as it was.
pub open spec fn first_of_id_set(
    rows: Seq<TaskRowView>,
    after: Seq<TaskRowView>,
    id: Seq<char>,
    st: TaskStatus,
) -> bool {
    &&& after.len() == rows.len()
    &&& forall|k: int|
        0 <= k < rows.len() ==> (#[trigger] after[k]) == if rows[k].id == id && forall|j: int|
            0 <= j < k ==> rows[j].id != id {
            TaskRowView { status: st, ..rows[k] }
        } else {
            rows[k]
        }
}

/// The same for cargo rows, found by their command's id.
pub open spec fn first_cmd_of_id_set(
    rows: Seq<CargoRowView>,
    after: Seq<CargoRowView>,
    id: Seq<char>,
    st: TaskStatus,
) -> bool {
    &&& after.len() == rows.len()
    &&& forall|k: int|
        0 <= k < rows.len() ==> (#[trigger] after[k]) == if rows[k].cmd.id == id && forall|j: int|
            0 <= j < k ==> rows[j].cmd.id != id {
            CargoRowView { status: st, ..rows[k] }
        } else {
            rows[k]
        }
}

/// A log of the one line `line`, which reports status `st` for `id`, sets
/// the status of the first row with that id on both tabs.
proof fn lemma_one_marker(
    rows: Seq<TaskRowView>,
    cargo: Seq<CargoRowView>,
    line: Seq<char>,
    id: Seq<char>,
    st: TaskStatus,
)
    requires
        sentinel_of(line) == Some((st, id)),
    ensures
        first_of_id_set(rows, tasks_after(rows, seq![line]), id, st),
        first_cmd_of_id_set(cargo, cargo_after(cargo, seq![line]), id, st),
{
    let log = seq![line];
    assert(log.drop_last() =~= Seq::<Seq<char>>::empty());
    assert(tasks_after(rows, log.drop_last()) == rows);
    assert(cargo_after(cargo, log.drop_last()) == cargo);
    let after = tasks_after(rows, log);
    assert(after == set_task_status(rows, id, st));
    let ids = task_ids(rows);
    match first_index(ids, id) {
        Some(i) => {
            assert(is_first_index(ids, id, i));
            assert forall|k: int| 0 <= k < rows.len() implies (#[trigger] after[k]) == if rows[k].id
                == id && forall|j: int| 0 <= j < k ==> rows[j].id != id {
                TaskRowView { status: st, ..rows[k] }
            } else {
                rows[k]
            } by {
                assert(ids[k] == rows[k].id);
                assert(ids[i] == rows[i].id);
                if k < i {
                    assert(ids[k] != id);
                } else if k > i {
                    assert(rows[i].id == id);
                } else {
                    assert forall|j: int| 0 <= j < k implies rows[j].id != id by {
                        assert(ids[j] == rows[j].id);
                    }
                }
            }
        },
        None => {
            assert forall|k: int| 0 <= k < rows.len() implies (#[trigger] after[k]) == if rows[k].id
                == id && forall|j: int| 0 <= j < k ==> rows[j].id != id {
                TaskRowView { status: st, ..rows[k] }
            } else {
                rows[k]
            } by {
                if rows[k].id == id && forall|j: int| 0 <= j < k ==> rows[j].id != id {
                    assert forall|j: int| 0 <= j < k implies ids[j] != id by {
                        assert(ids[j] == rows[j].id);
                    }
                    assert(ids[k] == rows[k].id);
                    assert(is_first_index(ids, id, k));
                    lemma_first_index_some(ids, id, k);
                }
            }
        },
    }
    let cafter = cargo_after(cargo, log);
    assert(cafter == set_cargo_status(cargo, id, st));
    let cids = cargo_ids(cargo);
    match first_index(cids, id) {
        Some(i) => {
            assert(is_first_index(cids, id, i));
            assert forall|k: int| 0 <= k < cargo.len() implies (#[trigger] cafter[k]) == if cargo[k].cmd.id
                == id && forall|j: int| 0 <= j < k ==> cargo[j].cmd.id != id {
                CargoRowView { status: st, ..cargo[k] }
            } else {
                cargo[k]
            } by {
                assert(cids[k] == cargo[k].cmd.id);
                assert(cids[i] == cargo[i].cmd.id);
                if k < i {
                    assert(cids[k] != id);
                } else if k > i {
                    assert(cargo[i].cmd.id == id);
                } else {
                    assert forall|j: int| 0 <= j < k implies cargo[j].cmd.id != id by {
                        assert(cids[j] == cargo[j].cmd.id);
                    }
                }
            }
        },
        None => {
            assert forall|k: int| 0 <= k < cargo.len() implies (#[trigger] cafter[k]) == if cargo[k].cmd.id
                == id && forall|j: int| 0 <= j < k ==> cargo[j].cmd.id != id {
                CargoRowView { status: st, ..cargo[k] }
            } else {
                cargo[k]
            } by {
                if cargo[k].cmd.id == id && forall|j: int| 0 <= j < k ==> cargo[j].cmd.id != id {
                    assert forall|j: int| 0 <= j < k implies cids[j] != id by {
                        assert(cids[j] == cargo[j].cmd.id);
                    }
                    assert(cids[k] == cargo[k].cmd.id);
                    assert(is_first_index(cids, id, k));
                    lemma_first_index_some(cids, id, k);
                }
            }
        },
    }
}

/// One marker sets the status of the first row with its id, on both tabs:
/// `@@START:<id>` makes it running, `@@DONE:<id>` done and `@@FAIL:<id>`
/// failed; every other row stays as it was.
pub proof fn lemma_marker_sets_status(
    rows: Seq<TaskRowView>,
    cargo: Seq<CargoRowView>,
    id: Seq<char>,
)
    ensures
        first_of_id_set(rows, tasks_after(rows, seq!["@@START:"@ + id]), id, TaskStatus::Running),
        first_cmd_of_id_set(cargo, cargo_after(cargo, seq!["@@START:"@ + id]), id, TaskStatus::Running),
        first_of_id_set(rows, tasks_after(rows, seq!["@@DONE:"@ + id]), id, TaskStatus::Done),
        first_cmd_of_id_set(cargo, cargo_after(cargo, seq!["@@DONE:"@ + id]), id, TaskStatus::Done),
        first_of_id_set(rows, tasks_after(rows, seq!["@@FAIL:"@ + id]), id, TaskStatus::Failed),
        first_cmd_of_id_set(cargo, cargo_after(cargo, seq!["@@FAIL:"@ + id]), id, TaskStatus::Failed),
{
    reveal_strlit("@@START:");
    reveal_strlit("@@DONE:");
    reveal_strlit("@@FAIL:");
    let start = "@@START:"@ + id;
    let done = "@@DONE:"@ + id;
    let fail = "@@FAIL:"@ + id;
    assert(start.subrange(0, 8) =~= "@@START:"@);
    assert(start.skip(8) =~= id);
    lemma_one_marker(rows, cargo, start, id, TaskStatus::Running);
    assert(done.subrange(0, 7) =~= "@@DONE:"@);
    assert(done.skip(7) =~= id);
    assert(!"@@START:"@.is_prefix_of(done)) by {
        if "@@START:"@.is_prefix_of(done) {
            assert(done.subrange(0, 8)[2] == done[2]);
        }
    }
    lemma_one_marker(rows, cargo, done, id, TaskStatus::Done);
    assert(fail.subrange(0, 7) =~= "@@FAIL:"@);
    assert(fail.skip(7) =~= id);
    assert(!"@@START:"@.is_prefix_of(fail)) by {
        if "@@START:"@.is_prefix_of(fail) {
            assert(fail.subrange(0, 8)[2] == fail[2]);
        }
    }
    assert(!"@@DONE:"@.is_prefix_of(fail)) by {
        if "@@DONE:"@.is_prefix_of(fail) {
            assert(fail.subrange(0, 7)[2] == fail[2]);
        }
    }
    lemma_one_marker(rows, cargo, fail, id, TaskStatus::Failed);
}

/// Every running row becomes failed.
fn stop_task_rows(tasks: &mut Vec<TaskRow>)
    ensures
        final(tasks)@.len() == old(tasks)@.len(),
        forall|i: int|
            0 <= i < old(tasks)@.len() ==> #[trigger] final(tasks).deep_view()[i] == (TaskRowView {
                status: stopped(old(tasks)@[i].status),
                ..old(tasks).deep_view()[i]
            }),
{
    let ghost old_tasks = tasks.deep_view();
    let mut i: usize = 0;
    while i < tasks.len()
        invariant
            i <= tasks@.len(),
            tasks@.len() == old_tasks.len(),
            forall|j: int|
                0 <= j < tasks@.len() ==> #[trigger] tasks.deep_view()[j] == (if j < i {
                    TaskRowView { status: stopped(old_tasks[j].status), ..old_tasks[j] }
                } else {
                    old_tasks[j]
                }),
        decreases tasks@.len() - i,
    {
        if tasks[i].status == TaskStatus::Running {
            tasks[i].status = TaskStatus::Failed;
        }
        i = i + 1;
    }
}

/// Every running cargo row becomes failed.
fn stop_cargo_rows(rows: &mut Vec<CargoRow>)
    ensures
        final(rows)@.len() == old(rows)@.len(),
        forall|i: int|
            0 <= i < old(rows)@.len() ==> #[trigger] final(rows).deep_view()[i] == (CargoRowView {
                status: stopped(old(rows)@[i].status),
                ..old(rows).deep_view()[i]
            }),
{
    let ghost old_rows = rows.deep_view();
    let mut i: usize = 0;
    while i < rows.len()
        invariant
            i <= rows@.len(),
            rows@.len() == old_rows.len(),
            forall|j: int|
                0 <= j < rows@.len() ==> #[trigger] rows.deep_view()[j] == (if j < i {
                    CargoRowView { status: stopped(old_rows[j].status), ..old_rows[j] }
                } else {
                    old_rows[j]
                }),
        decreases rows@.len() - i,
    {
        if rows[i].status == TaskStatus::Running {
            rows[i].status = TaskStatus::Failed;
        }
        i = i + 1;
    }
}

pub proof fn lemma_first_index_some<A>(s: Seq<A>, x: A, i: int)
    requires
        is_first_index(s, x, i),
    ensures
        first_index(s, x) == Some(i),
{
    let k = choose|k: int| is_first_index(s, x, k);
    assert(is_first_index(s, x, k));
    if k < i {
        assert(s[k] != x);
    }
    if i < k {
        assert(s[i] != x);
    }
}

/// The status and id that a log marker reports.
pub fn sentinel(line: &str) -> (r: Option<(TaskStatus, String)>)
    ensures
        match r {
            Some((st, id)) => sentinel_of(line@) == Some((st, id@)),
            None => sentinel_of(line@) is None,
        },
{
    let v = chars_of(line);
    let n = v.len();
    assert(v@.subrange(0, n as int) =~= line@);
    let start = chars_of("@@START:");
    if starts_with_at(&v, 0, n, &start) {
        return Some((TaskStatus::Running, substring(line, start.len(), n)));
    }
    let done = chars_of("@@DONE:");
    if starts_with_at(&v, 0, n, &done) {
        return Some((TaskStatus::Done, substring(line, done.len(), n)));
    }
    let fail = chars_of("@@FAIL:");
    if starts_with_at(&v, 0, n, &fail) {
        return Some((TaskStatus::Failed, substring(line, fail.len(), n)));
    }
    None
}

/// Gives the first row with id `id` the status `st`.
fn set_first_task_status(tasks: &mut Vec<TaskRow>, id: &String, st: TaskStatus)
    ensures
        final(tasks).deep_view() == set_task_status(old(tasks).deep_view(), id@, st),
{
    let ghost rows = tasks.deep_view();
    let ghost ids = task_ids(rows);
    let mut i: usize = 0;
    while i < tasks.len() && !(tasks[i].id == *id)
        invariant
            i <= tasks@.len(),
            rows == tasks.deep_view(),
            ids == task_ids(rows),
            forall|j: int| 0 <= j < i ==> ids[j] != id@,
        decreases tasks@.len() - i,
    {
        i = i + 1;
    }
    if i < tasks.len() {
        proof {
            lemma_first_index_some(ids, id@, i as int);
        }
        tasks[i].status = st;
        assert(tasks.deep_view() =~= set_task_status(rows, id@, st));
    } else {
        proof {
            if first_index(ids, id@) is Some {
                let k = first_index(ids, id@)->0;
                assert(is_first_index(ids, id@, k));
            }
        }
    }
}

/// Gives the first cargo row with id `id` the status `st`.
fn set_first_cargo_status(tasks: &mut Vec<CargoRow>, id: &String, st: TaskStatus)
    ensures
        final(tasks).deep_view() == set_cargo_status(old(tasks).deep_view(), id@, st),
{
    let ghost rows = tasks.deep_view();
    let ghost ids = cargo_ids(rows);
    let mut i: usize = 0;
    while i < tasks.len() && !(str_equal(tasks[i].cmd.id, id.as_str()))
        invariant
            i <= tasks@.len(),
            rows == tasks.deep_view(),
            ids == cargo_ids(rows),
            forall|j: int| 0 <= j < i ==> ids[j] != id@,
        decreases tasks@.len() - i,
    {
        i = i + 1;
    }
    if i < tasks.len() {
        proof {
            lemma_first_index_some(ids, id@, i as int);
        }
        tasks[i].status = st;
        assert(tasks.deep_view() =~= set_cargo_status(rows, id@, st));
    } else {
        proof {
            if first_index(ids, id@) is Some {
                let k = first_index(ids, id@)->0;
                assert(is_first_index(ids, id@, k));
            }
        }
    }
}

/// Applies the markers of `log` to the rows in order and drops them from
/// the log.
fn apply_markers(tasks: &mut Vec<TaskRow>, cargo_rows: &mut Vec<CargoRow>, log: &mut Vec<String>)
    ensures
        final(tasks).deep_view() == tasks_after(old(tasks).deep_view(), old(log).deep_view()),
        final(cargo_rows).deep_view() == cargo_after(
            old(cargo_rows).deep_view(),
            old(log).deep_view(),
        ),
        final(log).deep_view() == plain_lines(old(log).deep_view()),
{
    let ghost lines = log.deep_view();
    let ghost t0 = tasks.deep_view();
    let ghost c0 = cargo_rows.deep_view();
    let mut kept: Vec<String> = Vec::new();
    let mut i: usize = 0;
    while i < log.len()
        invariant
            i <= log@.len(),
            lines == log.deep_view(),
            kept.deep_view() == plain_lines(lines.take(i as int)),
            tasks.deep_view() == tasks_after(t0, lines.take(i as int)),
            cargo_rows.deep_view() == cargo_after(c0, lines.take(i as int)),
        decreases log@.len() - i,
    {
        assert(lines.take(i + 1).drop_last() =~= lines.take(i as int));
        assert(lines.take(i + 1).last() == log@[i as int]@);
        let ghost before = kept.deep_view();
        match sentinel(log[i].as_str()) {
            Some((st, id)) => {
                set_first_task_status(tasks, &id, st);
                set_first_cargo_status(cargo_rows, &id, st);
            },
            None => {
                kept.push(log[i].clone());
                assert(kept.deep_view() =~= before.push(lines[i as int]));
            },
        }
        i = i + 1;
    }
    assert(lines.take(i as int) =~= lines);
    *log = kept;
}

/// The checkboxes of `tasks` by id.
fn save_checks(tasks: &Vec<TaskRow>) -> (m: StrMap<bool>)
    ensures
        m@ == saved_checks(tasks.deep_view()),
{
    let ghost rs = tasks.deep_view();
    let mut m: StrMap<bool> = StrMap::new();
    let mut i: usize = 0;
    while i < tasks.len()
        invariant
            i <= tasks@.len(),
            rs == tasks.deep_view(),
            m@ == saved_checks(rs.take(i as int)),
        decreases tasks@.len() - i,
    {
        assert(rs.take(i + 1).drop_last() =~= rs.take(i as int));
        m.insert(tasks[i].id.clone(), tasks[i].checked);
        i = i + 1;
    }
    assert(rs.take(i as int) =~= rs);
    m
}

/// Sets every checkbox of `tasks` to `checked`.
fn check_all_tasks(tasks: &mut Vec<TaskRow>, checked: bool)
    ensures
        final(tasks)@.len() == old(tasks)@.len(),
        forall|i: int|
            0 <= i < old(tasks)@.len() ==> #[trigger] final(tasks).deep_view()[i] == (TaskRowView {
                checked,
                ..old(tasks).deep_view()[i]
            }),
{
    let ghost old_rows = tasks.deep_view();
    let mut i: usize = 0;
    while i < tasks.len()
        invariant
            i <= tasks@.len(),
            tasks@.len() == old_rows.len(),
            forall|j: int|
                0 <= j < tasks@.len() ==> #[trigger] tasks.deep_view()[j] == (if j < i {
                    TaskRowView { checked, ..old_rows[j] }
                } else {
                    old_rows[j]
                }),
        decreases tasks@.len() - i,
    {
        let ghost prev = tasks.deep_view();
        tasks[i].checked = checked;
        assert(tasks.deep_view() =~= prev.update(i as int, TaskRowView { checked, ..prev[i as int] }));
        i = i + 1;
    }
}

/// Sets every checkbox of `rows` to `checked`.
fn check_all_cargo(rows: &mut Vec<CargoRow>, checked: bool)
    ensures
        final(rows)@.len() == old(rows)@.len(),
        forall|i: int|
            0 <= i < old(rows)@.len() ==> #[trigger] final(rows).deep_view()[i] == (CargoRowView {
                checked,
                ..old(rows).deep_view()[i]
            }),
{
    let ghost old_rows = rows.deep_view();
    let mut i: usize = 0;
    while i < rows.len()
        invariant
            i <= rows@.len(),
            rows@.len() == old_rows.len(),
            forall|j: int|
                0 <= j < rows@.len() ==> #[trigger] rows.deep_view()[j] == (if j < i {
                    CargoRowView { checked, ..old_rows[j] }
                } else {
                    old_rows[j]
                }),
        decreases rows@.len() - i,
    {
        let ghost prev = rows.deep_view();
        rows[i].checked = checked;
        assert(rows.deep_view() =~= prev.update(i as int, CargoRowView { checked, ..prev[i as int] }));
        i = i + 1;
    }
}

/// Every cargo row becomes idle.
pub(crate) fn reset_cargo_statuses(rows: &mut Vec<CargoRow>)
    ensures
        final(rows)@.len() == old(rows)@.len(),
        forall|i: int|
            0 <= i < old(rows)@.len() ==> #[trigger] final(rows).deep_view()[i] == (CargoRowView {
                status: TaskStatus::Idle,
                ..old(rows).deep_view()[i]
            }),
{
    let ghost old_rows = rows.deep_view();
    let mut i: usize = 0;
    while i < rows.len()
        invariant
            i <= rows@.len(),
            rows@.len() == old_rows.len(),
            forall|j: int|
                0 <= j < rows@.len() ==> #[trigger] rows.deep_view()[j] == (if j < i {
                    CargoRowView { status: TaskStatus::Idle, ..old_rows[j] }
                } else {
                    old_rows[j]
                }),
        decreases rows@.len() - i,
    {
        let ghost prev = rows.deep_view();
        rows[i].status = TaskStatus::Idle;
        assert(rows.deep_view() =~= prev.update(i as int, CargoRowView { status: TaskStatus::Idle, ..prev[i as int] }));
        i = i + 1;
    }
}

/// Every task row becomes idle.
pub(crate) fn reset_task_statuses(tasks: &mut Vec<TaskRow>)
    ensures
        final(tasks)@.len() == old(tasks)@.len(),
        forall|i: int|
            0 <= i < old(tasks)@.len() ==> #[trigger] final(tasks).deep_view()[i] == (TaskRowView {
                status: TaskStatus::Idle,
                ..old(tasks).deep_view()[i]
            }),
{
    let ghost old_rows = tasks.deep_view();
    let mut i: usize = 0;
    while i < tasks.len()
        invariant
            i <= tasks@.len(),
            tasks@.len() == old_rows.len(),
            forall|j: int|
                0 <= j < tasks@.len() ==> #[trigger] tasks.deep_view()[j] == (if j < i {
                    TaskRowView { status: TaskStatus::Idle, ..old_rows[j] }
                } else {
                    old_rows[j]
                }),
        decreases tasks@.len() - i,
    {
        let ghost prev = tasks.deep_view();
        tasks[i].status = TaskStatus::Idle;
        assert(tasks.deep_view() =~= prev.update(i as int, TaskRowView { status: TaskStatus::Idle, ..prev[i as int] }));
        i = i + 1;
    }
}

impl AppState {
    /// The target names and the entries agree, and a target is selected
    /// whenever there is one.
    pub open spec fn listing_consistent(&self) -> bool {
        &&& self.target_names.deep_view() == first_appearances(
            targets_of(self.all_entries.deep_view()),
        )
        &&& self.target_names@.len() > 0 ==> self.selected_target < self.target_names@.len()
    }

    /// The rows that the selected target's entries give, with the remembered
    /// checkboxes.
    pub open spec fn selected_rows(&self) -> Seq<TaskRowView> {
        rows_for(
            self.all_entries.deep_view(),
            self.target_names.deep_view()[self.selected_target as int],
            self.checked_state@,
        )
    }

    /// A fresh state: nothing listed, every cargo command checked and idle.
    pub fn new(initial_error: Option<String>) -> (s: Self)
        ensures
            s.all_entries@.len() == 0,
            s.target_names@.len() == 0,
            s.selected_target == 0,
            s.tasks@.len() == 0,
            s.checked_state@ == Map::<Seq<char>, Map<Seq<char>, bool>>::empty(),
            s.load_error.deep_view() == initial_error.deep_view(),
            s.packages@.len() == 0,
            s.selected_package == 0,
            s.cargo_rows.deep_view() == fresh_cargo_rows(),
    {
        let cmds = cargo_commands();
        let mut rows: Vec<CargoRow> = Vec::new();
        let mut i: usize = 0;
        while i < cmds.len()
            invariant
                i <= cmds@.len(),
                cmds.deep_view() == cargo_command_table(),
                rows.deep_view() == fresh_cargo_rows().take(i as int),
            decreases cmds@.len() - i,
        {
            let c = cmds[i];
            assert(cmds.deep_view()[i as int] == c.deep_view());
            assert(fresh_cargo_rows()[i as int] == CargoRowView {
                cmd: c.deep_view(),
                checked: true,
                status: TaskStatus::Idle,
            });
            let ghost before = rows.deep_view();
            rows.push(CargoRow { cmd: c, checked: true, status: TaskStatus::Idle });
            assert(fresh_cargo_rows().len() == cmds@.len());
            assert(rows.deep_view() =~= before.push(fresh_cargo_rows()[i as int]));
            assert(rows.deep_view() =~= fresh_cargo_rows().take(i + 1));
            i = i + 1;
        }
        assert(fresh_cargo_rows().take(i as int) =~= fresh_cargo_rows());
        AppState {
            all_entries: Vec::new(),
            target_names: Vec::new(),
            selected_target: 0,
            tasks: Vec::new(),
            checked_state: StrMap::new(),
            load_error: initial_error,
            packages: Vec::new(),
            selected_package: 0,
            cargo_rows: rows,
        }
    }

    /// Replaces the rows with those of the selected target, restoring
    /// remembered checkboxes; nothing changes when no target is selected.
    pub fn rebuild_task_rows(&mut self)
        ensures
            final(self).all_entries == old(self).all_entries,
            final(self).target_names == old(self).target_names,
            final(self).selected_target == old(self).selected_target,
            final(self).checked_state == old(self).checked_state,
            final(self).load_error == old(self).load_error,
            final(self).packages == old(self).packages,
            final(self).selected_package == old(self).selected_package,
            final(self).cargo_rows == old(self).cargo_rows,
            old(self).selected_target < old(self).target_names@.len()
                ==> final(self).tasks.deep_view() == old(self).selected_rows(),
            old(self).selected_target >= old(self).target_names@.len() ==> final(self).tasks
                == old(self).tasks,
    {
        if self.selected_target >= self.target_names.len() {
            return;
        }
        let target = self.target_names[self.selected_target].clone();
        let ghost t = target@;
        let ghost mem = self.checked_state@;
        let ghost es = self.all_entries.deep_view();
        let saved = self.checked_state.get(target.as_str());
        let mut rows: Vec<TaskRow> = Vec::new();
        let mut i: usize = 0;
        while i < self.all_entries.len()
            invariant
                i <= self.all_entries@.len(),
                es == self.all_entries.deep_view(),
                mem == self.checked_state@,
                t == target@,
                match saved {
                    Some(m) => mem.contains_key(t) && m@ == mem[t],
                    None => !mem.contains_key(t),
                },
                rows.deep_view() == rows_for(es.take(i as int), t, mem),
            decreases self.all_entries@.len() - i,
        {
            assert(es.take(i + 1).drop_last() =~= es.take(i as int));
            assert(es.take(i + 1).last() == es[i as int]);
            let ghost before = rows.deep_view();
            if self.all_entries[i].target == target {
                let mut row = TaskRow::from_entry(&self.all_entries[i]);
                if let Some(m) = saved {
                    if let Some(c) = m.get(row.id.as_str()) {
                        row.checked = *c;
                    }
                }
                rows.push(row);
                assert(rows.deep_view() =~= before.push(restored_row(es[i as int], t, mem)));
            }
            i = i + 1;
        }
        assert(es.take(i as int) =~= es);
        self.tasks = rows;
    }

    /// The name of the selected target.
    pub fn current_target(&self) -> (r: Option<&str>)
        ensures
            match r {
                Some(s) => self.selected_target < self.target_names@.len() && s@
                    == self.target_names@[self.selected_target as int]@,
                None => self.selected_target >= self.target_names@.len(),
            },
    {
        if self.selected_target < self.target_names.len() {
            Some(self.target_names[self.selected_target].as_str())
        } else {
            None
        }
    }

    /// The ids of the checked rows, in order.
    pub fn checked_ids(&self) -> (ids: Vec<String>)
        ensures
            ids.deep_view() == checked_ids_of(self.tasks.deep_view()),
    {
        let ghost rs = self.tasks.deep_view();
        let mut ids: Vec<String> = Vec::new();
        let mut i: usize = 0;
        while i < self.tasks.len()
            invariant
                i <= self.tasks@.len(),
                rs == self.tasks.deep_view(),
                ids.deep_view() == checked_ids_of(rs.take(i as int)),
            decreases self.tasks@.len() - i,
        {
            assert(rs.take(i + 1).drop_last() =~= rs.take(i as int));
            let ghost before = ids.deep_view();
            if self.tasks[i].checked {
                ids.push(self.tasks[i].id.clone());
                assert(ids.deep_view() =~= before.push(rs[i as int].id));
            }
            i = i + 1;
        }
        assert(rs.take(i as int) =~= rs);
        ids
    }

    /// Whether some row is checked.
    pub fn any_checked(&self) -> (b: bool)
        ensures
            b == exists|i: int| 0 <= i < self.tasks@.len() && #[trigger] self.tasks@[i].checked,
    {
        let mut i: usize = 0;
        while i < self.tasks.len()
            invariant
                i <= self.tasks@.len(),
                forall|j: int| 0 <= j < i ==> !#[trigger] self.tasks@[j].checked,
            decreases self.tasks@.len() - i,
        {
            if self.tasks[i].checked {
                return true;
            }
            i = i + 1;
        }
        false
    }

    /// Replaces the listing with the output of `cargo xtask --list`
    /// (`Ok(stdout)`) or records that running it failed (`Err(reason)`).
    pub fn reload(&mut self, listing: Result<String, String>)
        ensures
            final(self).checked_state == old(self).checked_state,
            final(self).packages == old(self).packages,
            final(self).selected_package == old(self).selected_package,
            final(self).cargo_rows == old(self).cargo_rows,
            match listing {
                Err(e) => {
                    &&& final(self).load_error.deep_view() == Some(load_failure_message(e@))
                    &&& final(self).all_entries@.len() == 0
                    &&& final(self).target_names@.len() == 0
                    &&& final(self).tasks@.len() == 0
                    &&& final(self).selected_target == old(self).selected_target
                },
                Ok(text) => {
                    &&& final(self).all_entries.deep_view() == listing_entries(text@)
                    &&& final(self).listing_consistent()
                    &&& if final(self).target_names@.len() == 0 {
                        &&& final(self).load_error.deep_view() == Some(empty_listing_message())
                        &&& final(self).tasks@.len() == 0
                        &&& final(self).selected_target == old(self).selected_target
                    } else {
                        &&& final(self).load_error is None
                        &&& final(self).selected_target == if old(self).selected_target
                            < final(self).target_names@.len() {
                            old(self).selected_target as int
                        } else {
                            final(self).target_names@.len() - 1
                        }
                        &&& final(self).tasks.deep_view() == final(self).selected_rows()
                    }
                },
            },
    {
        self.all_entries = Vec::new();
        self.target_names = Vec::new();
        self.tasks = Vec::new();
        self.load_error = None;
        match listing {
            Err(e) => {
                let mut msg = String::from_str("Failed to run `cargo xtask --list`: ");
                msg.append(e.as_str());
                msg.append(
                    "\nMake sure `cargo` is in PATH and this exe is next to Cargo.toml.",
                );
                self.load_error = Some(msg);
            },
            Ok(text) => {
                let entries = parse_listing(text.as_str());
                let names = target_names_of(&entries);
                self.all_entries = entries;
                self.target_names = names;
                if self.target_names.len() == 0 {
                    self.load_error = Some(
                        String::from_str(
                            "`cargo xtask --list` returned no entries.\nExpected format: target|task_id|description",
                        ),
                    );
                    return;
                }
                if self.selected_target >= self.target_names.len() {
                    self.selected_target = self.target_names.len() - 1;
                }
                self.rebuild_task_rows();
            },
        }
    }
    /// Replaces the package list with the names that the members' manifests
    /// declare, in order; manifests without a name are skipped.
    pub fn reload_packages(&mut self, member_manifests: &Vec<String>)
        ensures
            final(self).packages.deep_view() == package_names_of(member_manifests.deep_view()),
            final(self).all_entries == old(self).all_entries,
            final(self).target_names == old(self).target_names,
            final(self).selected_target == old(self).selected_target,
            final(self).tasks == old(self).tasks,
            final(self).checked_state == old(self).checked_state,
            final(self).load_error == old(self).load_error,
            final(self).selected_package == old(self).selected_package,
            final(self).cargo_rows == old(self).cargo_rows,
    {
        let ghost ms = member_manifests.deep_view();
        let mut names: Vec<String> = Vec::new();
        let mut i: usize = 0;
        while i < member_manifests.len()
            invariant
                i <= member_manifests@.len(),
                ms == member_manifests.deep_view(),
                names.deep_view() == package_names_of(ms.take(i as int)),
            decreases member_manifests@.len() - i,
        {
            assert(ms.take(i + 1).drop_last() =~= ms.take(i as int));
            let ghost before = names.deep_view();
            match package_name(member_manifests[i].as_str()) {
                Some(n) => {
                    names.push(n);
                    assert(names.deep_view() =~= before.push(package_name_of(ms[i as int])->0));
                },
                None => {},
            }
            i = i + 1;
        }
        assert(ms.take(i as int) =~= ms);
        self.packages = names;
    }

    /// The package to pass as `-p <package>`, or `None` for the whole
    /// workspace.
    pub fn current_package(&self) -> (r: Option<&str>)
        ensures
            match r {
                Some(p) => self.selected_package != 0 && self.selected_package - 1
                    < self.packages@.len() && p@ == self.packages@[self.selected_package - 1]@,
                None => self.selected_package == 0 || self.selected_package - 1
                    >= self.packages@.len(),
            },
    {
        if self.selected_package == 0 || self.packages.len() == 0 {
            None
        } else if self.selected_package - 1 < self.packages.len() {
            Some(self.packages[self.selected_package - 1].as_str())
        } else {
            None
        }
    }

    /// Whether a specific package is selected.
    pub open spec fn has_package(&self) -> bool {
        self.selected_package != 0 && self.selected_package - 1 < self.packages@.len()
    }

    /// A command that needs a package is disabled while none is selected.
    pub fn cargo_cmd_enabled(&self, cmd: &CargoCmd) -> (b: bool)
        ensures
            b == cmd_enabled(cmd.scope, self.has_package()),
    {
        if cmd.scope == CmdScope::PackageOnly {
            self.current_package().is_some()
        } else {
            true
        }
    }

    /// The ids of the checked and enabled cargo commands, in order.
    pub fn checked_cargo_ids(&self) -> (ids: Vec<String>)
        ensures
            ids.deep_view() == checked_cargo_ids_of(
                self.cargo_rows.deep_view(),
                self.has_package(),
            ),
    {
        let ghost rs = self.cargo_rows.deep_view();
        let mut ids: Vec<String> = Vec::new();
        let mut i: usize = 0;
        while i < self.cargo_rows.len()
            invariant
                i <= self.cargo_rows@.len(),
                rs == self.cargo_rows.deep_view(),
                ids.deep_view() == checked_cargo_ids_of(rs.take(i as int), self.has_package()),
            decreases self.cargo_rows@.len() - i,
        {
            assert(rs.take(i + 1).drop_last() =~= rs.take(i as int));
            let ghost before = ids.deep_view();
            if self.cargo_rows[i].checked && self.cargo_cmd_enabled(&self.cargo_rows[i].cmd) {
                ids.push(String::from_str(self.cargo_rows[i].cmd.id));
                assert(ids.deep_view() =~= before.push(rs[i as int].cmd.id));
            }
            i = i + 1;
        }
        assert(rs.take(i as int) =~= rs);
        ids
    }

    /// Whether some enabled cargo command is checked.
    pub fn any_cargo_checked(&self) -> (b: bool)
        ensures
            b == exists|i: int|
                0 <= i < self.cargo_rows@.len() && #[trigger] self.cargo_rows@[i].checked
                    && cmd_enabled(self.cargo_rows@[i].cmd.scope, self.has_package()),
    {
        let mut i: usize = 0;
        while i < self.cargo_rows.len()
            invariant
                i <= self.cargo_rows@.len(),
                forall|j: int|
                    0 <= j < i ==> !(#[trigger] self.cargo_rows@[j].checked && cmd_enabled(
                        self.cargo_rows@[j].cmd.scope,
                        self.has_package(),
                    )),
            decreases self.cargo_rows@.len() - i,
        {
            if self.cargo_rows[i].checked && self.cargo_cmd_enabled(&self.cargo_rows[i].cmd) {
                return true;
            }
            i = i + 1;
        }
        false
    }

    /// Marks the run as stopped by the user: the log says so, and every
    /// running task or command is failed.
    pub fn stop(&mut self, log: &mut Vec<String>)
        ensures
            final(log).deep_view() == old(log).deep_view().push("■  Stopped by user."@),
            final(self).tasks@.len() == old(self).tasks@.len(),
            forall|i: int|
                0 <= i < old(self).tasks@.len() ==> #[trigger] final(self).tasks.deep_view()[i]
                    == (TaskRowView {
                    status: stopped(old(self).tasks@[i].status),
                    ..old(self).tasks.deep_view()[i]
                }),
            final(self).cargo_rows@.len() == old(self).cargo_rows@.len(),
            forall|i: int|
                0 <= i < old(self).cargo_rows@.len() ==> #[trigger] final(self).cargo_rows.deep_view()[i] == (CargoRowView {
                    status: stopped(old(self).cargo_rows@[i].status),
                    ..old(self).cargo_rows.deep_view()[i]
                }),
            final(self).all_entries == old(self).all_entries,
            final(self).target_names == old(self).target_names,
            final(self).selected_target == old(self).selected_target,
            final(self).checked_state == old(self).checked_state,
            final(self).load_error == old(self).load_error,
            final(self).packages == old(self).packages,
            final(self).selected_package == old(self).selected_package,
    {
        log.push(String::from_str("■  Stopped by user."));
        stop_task_rows(&mut self.tasks);
        stop_cargo_rows(&mut self.cargo_rows);
    }
    /// Applies the run's markers in `log` to the rows (`@@START:<id>` makes
    /// the first row with that id running, `@@DONE:` done, `@@FAIL:` failed,
    /// on both tabs) and removes the markers from the log.
    pub fn apply_sentinels(&mut self, log: &mut Vec<String>)
        ensures
            final(self).tasks.deep_view() == tasks_after(
                old(self).tasks.deep_view(),
                old(log).deep_view(),
            ),
            final(self).cargo_rows.deep_view() == cargo_after(
                old(self).cargo_rows.deep_view(),
                old(log).deep_view(),
            ),
            final(log).deep_view() == plain_lines(old(log).deep_view()),
            final(log).deep_view() == old(log).deep_view().filter(
                |l: Seq<char>|
                    !("@@START:"@.is_prefix_of(l) || "@@DONE:"@.is_prefix_of(l)
                        || "@@FAIL:"@.is_prefix_of(l)),
            ),
            final(self).all_entries == old(self).all_entries,
            final(self).target_names == old(self).target_names,
            final(self).selected_target == old(self).selected_target,
            final(self).checked_state == old(self).checked_state,
            final(self).load_error == old(self).load_error,
            final(self).packages == old(self).packages,
            final(self).selected_package == old(self).selected_package,
    {
        proof {
            lemma_markers_leave_other_lines(old(log).deep_view());
        }
        apply_markers(&mut self.tasks, &mut self.cargo_rows, log);
    }

    /// Switches to target `idx`, remembering the checkboxes of the target
    /// being left and clearing the console log; returns whether the
    /// selection changed.
    pub fn select_target(&mut self, idx: usize, log: &mut Vec<String>) -> (changed: bool)
        ensures
            changed == (idx != old(self).selected_target),
            !changed ==> *final(self) == *old(self) && *final(log) == *old(log),
            changed ==> final(log)@.len() == 0,
            changed ==> {
                &&& final(self).checked_state@ == old(self).checked_state@.insert(
                    selected_name(
                        old(self).target_names.deep_view(),
                        old(self).selected_target as int,
                    ),
                    saved_checks(old(self).tasks.deep_view()),
                )
                &&& final(self).selected_target == idx
                &&& idx < final(self).target_names@.len() ==> final(self).tasks.deep_view()
                    == final(self).selected_rows()
                &&& idx >= final(self).target_names@.len() ==> final(self).tasks
                    == old(self).tasks
            },
            final(self).all_entries == old(self).all_entries,
            final(self).target_names == old(self).target_names,
            final(self).load_error == old(self).load_error,
            final(self).packages == old(self).packages,
            final(self).selected_package == old(self).selected_package,
            final(self).cargo_rows == old(self).cargo_rows,
    {
        if idx == self.selected_target {
            return false;
        }
        let leaving = if self.selected_target < self.target_names.len() {
            self.target_names[self.selected_target].clone()
        } else {
            String::new()
        };
        let saved = save_checks(&self.tasks);
        self.checked_state.insert(leaving, saved);
        self.selected_target = idx;
        self.rebuild_task_rows();
        *log = Vec::new();
        true
    }

    /// Switches the cargo tab to package choice `idx` (0 for the whole
    /// workspace); every cargo row becomes idle.
    pub fn select_package(&mut self, idx: usize)
        ensures
            final(self).selected_package == idx,
            final(self).cargo_rows@.len() == old(self).cargo_rows@.len(),
            forall|i: int|
                0 <= i < old(self).cargo_rows@.len() ==> #[trigger] final(self).cargo_rows.deep_view()[i] == (CargoRowView {
                    status: TaskStatus::Idle,
                    ..old(self).cargo_rows.deep_view()[i]
                }),
            final(self).all_entries == old(self).all_entries,
            final(self).target_names == old(self).target_names,
            final(self).selected_target == old(self).selected_target,
            final(self).tasks == old(self).tasks,
            final(self).checked_state == old(self).checked_state,
            final(self).load_error == old(self).load_error,
            final(self).packages == old(self).packages,
    {
        self.selected_package = idx;
        reset_cargo_statuses(&mut self.cargo_rows);
    }

    /// The "All" and "None" buttons of the task list.
    pub fn set_all_checked(&mut self, checked: bool)
        ensures
            final(self).tasks@.len() == old(self).tasks@.len(),
            forall|i: int|
                0 <= i < old(self).tasks@.len() ==> #[trigger] final(self).tasks.deep_view()[i]
                    == (TaskRowView { checked, ..old(self).tasks.deep_view()[i] }),
            final(self).all_entries == old(self).all_entries,
            final(self).target_names == old(self).target_names,
            final(self).selected_target == old(self).selected_target,
            final(self).checked_state == old(self).checked_state,
            final(self).load_error == old(self).load_error,
            final(self).packages == old(self).packages,
            final(self).selected_package == old(self).selected_package,
            final(self).cargo_rows == old(self).cargo_rows,
    {
        check_all_tasks(&mut self.tasks, checked);
    }

    /// The "All" and "None" buttons of the cargo command list.
    pub fn set_all_cargo_checked(&mut self, checked: bool)
        ensures
            final(self).cargo_rows@.len() == old(self).cargo_rows@.len(),
            forall|i: int|
                0 <= i < old(self).cargo_rows@.len() ==> #[trigger] final(self).cargo_rows.deep_view()[i] == (CargoRowView {
                    checked,
                    ..old(self).cargo_rows.deep_view()[i]
                }),
            final(self).all_entries == old(self).all_entries,
            final(self).target_names == old(self).target_names,
            final(self).selected_target == old(self).selected_target,
            final(self).tasks == old(self).tasks,
            final(self).checked_state == old(self).checked_state,
            final(self).load_error == old(self).load_error,
            final(self).packages == old(self).packages,
            final(self).selected_package == old(self).selected_package,
    {
        check_all_cargo(&mut self.cargo_rows, checked);
    }
    /// The name of the package choice: `Workspace (all)` when none is
    /// selected, else the package's name (empty past the end of the list).
    pub fn package_label(&self) -> (s: String)
        ensures
            s@ == if self.selected_package == 0 || self.packages@.len() == 0 {
                "Workspace (all)"@
            } else if self.selected_package - 1 < self.packages@.len() {
                self.packages@[self.selected_package - 1]@
            } else {
                Seq::<char>::empty()
            },
    {
        if self.selected_package == 0 || self.packages.len() == 0 {
            String::from_str("Workspace (all)")
        } else if self.selected_package - 1 < self.packages.len() {
            self.packages[self.selected_package - 1].clone()
        } else {
            String::new()
        }
    }
}

} // verus!
