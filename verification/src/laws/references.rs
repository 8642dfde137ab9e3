//! Inspection of references: what is reported of the tasks that a task refers to,
//! and of the entries and tasks that an entry refers to, and what is not.
use vstd::prelude::*;

use crate::diag;
use crate::diag::{FindingView, Severity, TaskFileView};
use crate::graph;
use crate::knowledge;
use crate::knowledge::EntriesFileView;
use crate::laws::dependencies::{
    first_at, has_id, law_tasks_are_found_by_id, lemma_targets_of_others,
};
use crate::laws::edits::is_time;
use crate::laws::entries;
use crate::laws::inspection::{error_at, lemma_push, lemma_stamp, tells, warning_at, Told};
use crate::model::{KnowledgeEntryView, KnowledgeKind, MilestoneView, TaskStatus, TaskView};
use crate::text;

verus! {

/// Whether a reference is there and no task has its id.
pub open spec fn dangles(tasks: Seq<TaskView>, target: Option<i64>) -> bool {
    target matches Some(id) && !has_id(tasks, id)
}

/// Whether a reference is there and no milestone has its id.
pub open spec fn lacks_milestone(milestones: Seq<MilestoneView>, target: Option<i64>) -> bool {
    target matches Some(id) && forall|k: int|
        0 <= k < milestones.len() ==> (#[trigger] milestones[k]).id != id
}

proof fn lemma_has_task(tasks: Seq<TaskView>, id: i64)
    ensures
        diag::has_task(tasks, id) == has_id(tasks, id),
{
    law_tasks_are_found_by_id(tasks, id);
    if diag::has_task(tasks, id) {
        let k = choose|k: int| #[trigger]
            first_at(tasks, id, k) && tasks[k] == diag::find_task(tasks, id)->0;
        assert(tasks[k].id == id);
    }
}

proof fn lemma_reference(
    acc: Seq<FindingView>,
    file: Seq<char>,
    tasks: Seq<TaskView>,
    field: Seq<char>,
    target: Option<i64>,
    x: Told,
)
    ensures
        tells(diag::reference_checked(acc, file, tasks, field, target), x) == (tells(acc, x)
            || dangles(tasks, target) && x == error_at(file, "task.dangling_ref"@, field)),
{
    if let Some(id) = target {
        lemma_has_task(tasks, id);
        lemma_push(
            acc,
            diag::at_field(
                diag::file_error(
                    file,
                    "task.dangling_ref"@,
                    field + " = "@ + text::decimal(id as int)
                        + " does not reference an existing task"@,
                    "fix or clear the reference"@,
                ),
                field,
            ),
            x,
        );
    }
}

proof fn lemma_milestone_reference(
    acc: Seq<FindingView>,
    file: Seq<char>,
    milestones: Seq<MilestoneView>,
    target: Option<i64>,
    x: Told,
)
    ensures
        tells(diag::milestone_reference_checked(acc, file, milestones, target), x) == (tells(acc, x)
            || lacks_milestone(milestones, target) && x == error_at(
            file,
            "task.dangling_ref"@,
            "milestone_id"@,
        )),
{
    if let Some(id) = target {
        lemma_push(
            acc,
            diag::at_field(
                diag::file_error(
                    file,
                    "task.dangling_ref"@,
                    "milestone_id = "@ + text::decimal(id as int)
                        + " does not reference an existing milestone"@,
                    "fix or clear the reference, or add the milestone"@,
                ),
                "milestone_id"@,
            ),
            x,
        );
    }
}

/// Whether the `i`-th dependency of a task is reported as `x`: on itself, on
/// another that came before, or on one that is missing.
pub open spec fn dependency_told(
    file: Seq<char>,
    tasks: Seq<TaskView>,
    t: TaskView,
    i: int,
    x: Told,
) -> bool {
    let d = t.depends_on[i];
    let again = exists|j: int| 0 <= j < i && #[trigger] t.depends_on[j] == d;
    ||| d == t.id && x == error_at(file, "task.depends_on_self"@, "depends_on"@)
    ||| d != t.id && again && x == error_at(file, "task.depends_on_duplicate"@, "depends_on"@)
    ||| d != t.id && !again && !has_id(tasks, d) && x == error_at(
        file,
        "task.depends_on_missing"@,
        "depends_on"@,
    )
}

proof fn lemma_dependency_step(
    acc: Seq<FindingView>,
    file: Seq<char>,
    tasks: Seq<TaskView>,
    t: TaskView,
    i: int,
    x: Told,
)
    requires
        0 <= i < t.depends_on.len(),
    ensures
        tells(diag::dependency_step(acc, file, tasks, t, i), x) == (tells(acc, x)
            || dependency_told(file, tasks, t, i, x)),
{
    let d = t.depends_on[i];
    let all = diag::dependency_step(acc, file, tasks, t, i);
    lemma_has_task(tasks, d);
    if all != acc {
        lemma_push(acc, all.last(), x);
    }
    if diag::repeated(t.depends_on, t.id, i) {
        let j = choose|j: int|
            0 <= j < i && #[trigger] t.depends_on[j] == t.depends_on[i] && t.depends_on[j] != t.id;
        assert(t.depends_on[j] == d);
    }
    if d != t.id && exists|j: int| 0 <= j < i && #[trigger] t.depends_on[j] == d {
        let j = choose|j: int| 0 <= j < i && #[trigger] t.depends_on[j] == d;
        assert(t.depends_on[j] == t.depends_on[i] && t.depends_on[j] != t.id);
        assert(diag::repeated(t.depends_on, t.id, i));
    }
    if d == t.id {
        assert(all =~= acc.push(all.last()));
    } else if diag::repeated(t.depends_on, t.id, i) {
        assert(all =~= acc.push(all.last()));
    } else if !diag::has_task(tasks, d) {
        assert(all =~= acc.push(all.last()));
    }
}

proof fn lemma_dependencies(
    acc: Seq<FindingView>,
    file: Seq<char>,
    tasks: Seq<TaskView>,
    t: TaskView,
    i: int,
    x: Told,
)
    requires
        0 <= i <= t.depends_on.len(),
    ensures
        tells(diag::dependencies_checked(acc, file, tasks, t, i), x) <==> tells(acc, x)
            || exists|k: int|
            i <= k < t.depends_on.len() && #[trigger] dependency_told(file, tasks, t, k, x),
    decreases t.depends_on.len() - i,
{
    if i < t.depends_on.len() {
        let next = diag::dependency_step(acc, file, tasks, t, i);
        lemma_dependency_step(acc, file, tasks, t, i, x);
        lemma_dependencies(next, file, tasks, t, i + 1, x);
        if exists|k: int|
            i <= k < t.depends_on.len() && #[trigger] dependency_told(file, tasks, t, k, x) {
            let k = choose|k: int|
                i <= k < t.depends_on.len() && #[trigger] dependency_told(file, tasks, t, k, x);
            if k > i {
                assert(dependency_told(file, tasks, t, k, x));
            }
        }
        if exists|k: int|
            i + 1 <= k < t.depends_on.len() && #[trigger] dependency_told(file, tasks, t, k, x) {
            let k = choose|k: int|
                i + 1 <= k < t.depends_on.len() && #[trigger] dependency_told(file, tasks, t, k, x);
            assert(dependency_told(file, tasks, t, k, x));
        }
    }
}

/// Whether the first task with an id is there and is not closed.
pub open spec fn unfinished(tasks: Seq<TaskView>, id: i64) -> bool {
    exists|k: int| #[trigger] first_at(tasks, id, k) && tasks[k].status != TaskStatus::Closed
}

proof fn lemma_unfinished(tasks: Seq<TaskView>, id: i64)
    ensures
        unfinished(tasks, id) == (diag::find_task(tasks, id) matches Some(t) && t.status
            != TaskStatus::Closed),
{
    law_tasks_are_found_by_id(tasks, id);
    if let Some(t) = diag::find_task(tasks, id) {
        let k = choose|k: int| #[trigger] first_at(tasks, id, k) && tasks[k] == t;
        assert forall|n: int| #[trigger] first_at(tasks, id, n) implies n == k by {
            if n < k {
                assert(tasks[n].id != id);
            } else if k < n {
                assert(tasks[k].id != id);
            }
        }
    } else {
        assert forall|n: int| !(#[trigger] first_at(tasks, id, n)) by {
            if first_at(tasks, id, n) {
                assert(tasks[n].id == id);
                assert(has_id(tasks, id));
            }
        }
    }
}

proof fn lemma_prerequisites(
    acc: Seq<FindingView>,
    file: Seq<char>,
    tasks: Seq<TaskView>,
    t: TaskView,
    i: int,
    x: Told,
)
    requires
        0 <= i <= t.depends_on.len(),
    ensures
        tells(diag::prerequisites_checked(acc, file, tasks, t, i), x) <==> tells(acc, x) || (x
            == warning_at(file, "task.dependency_inconsistency"@, "depends_on"@) && exists|k: int|
            i <= k < t.depends_on.len() && unfinished(tasks, #[trigger] t.depends_on[k])),
    decreases t.depends_on.len() - i,
{
    if i < t.depends_on.len() {
        let next = diag::prerequisite_step(acc, file, tasks, t, i);
        let d = t.depends_on[i];
        lemma_unfinished(tasks, d);
        if unfinished(tasks, d) {
            assert(next =~= acc.push(next.last()));
            lemma_push(acc, next.last(), x);
        }
        lemma_prerequisites(next, file, tasks, t, i + 1, x);
        if exists|k: int|
            i <= k < t.depends_on.len() && unfinished(tasks, #[trigger] t.depends_on[k]) {
            let k = choose|k: int|
                i <= k < t.depends_on.len() && unfinished(tasks, #[trigger] t.depends_on[k]);
            if k > i {
                assert(unfinished(tasks, t.depends_on[k]));
            }
        }
    }
}

/// Whether the references of a task are reported as `x`: a task or a milestone
/// that is missing, a wrong dependency, and work that is under way or done on top
/// of a task that is not closed.
pub open spec fn references_told(
    file: Seq<char>,
    tasks: Seq<TaskView>,
    milestones: Seq<MilestoneView>,
    t: TaskView,
    x: Told,
) -> bool {
    let gone = "task.dangling_ref"@;
    let begun = t.status != TaskStatus::Open && t.status != TaskStatus::Cancelled;
    ||| dangles(tasks, t.parent_id) && x == error_at(file, gone, "parent_id"@)
    ||| dangles(tasks, t.epic_id) && x == error_at(file, gone, "epic_id"@)
    ||| dangles(tasks, t.follow_up_of) && x == error_at(file, gone, "follow_up_of"@)
    ||| lacks_milestone(milestones, t.milestone_id) && x == error_at(file, gone, "milestone_id"@)
    ||| exists|k: int|
        0 <= k < t.depends_on.len() && #[trigger] dependency_told(file, tasks, t, k, x)
    ||| begun && x == warning_at(file, "task.dependency_inconsistency"@, "depends_on"@)
        && exists|k: int|
        0 <= k < t.depends_on.len() && unfinished(tasks, #[trigger] t.depends_on[k])
}

/// The references of a task are reported exactly as they are wrong.
pub proof fn law_references_are_inspected(
    acc: Seq<FindingView>,
    file: Seq<char>,
    tasks: Seq<TaskView>,
    milestones: Seq<MilestoneView>,
    t: TaskView,
    x: Told,
)
    ensures
        tells(diag::references_checked(acc, file, tasks, milestones, t), x) <==> tells(acc, x)
            || references_told(file, tasks, milestones, t, x),
{
    let a1 = diag::reference_checked(acc, file, tasks, "parent_id"@, t.parent_id);
    lemma_reference(acc, file, tasks, "parent_id"@, t.parent_id, x);
    let a2 = diag::reference_checked(a1, file, tasks, "epic_id"@, t.epic_id);
    lemma_reference(a1, file, tasks, "epic_id"@, t.epic_id, x);
    let a3 = diag::reference_checked(a2, file, tasks, "follow_up_of"@, t.follow_up_of);
    lemma_reference(a2, file, tasks, "follow_up_of"@, t.follow_up_of, x);
    let a4 = diag::milestone_reference_checked(a3, file, milestones, t.milestone_id);
    lemma_milestone_reference(a3, file, milestones, t.milestone_id, x);
    let a5 = diag::dependencies_checked(a4, file, tasks, t, 0);
    lemma_dependencies(a4, file, tasks, t, 0, x);
    lemma_prerequisites(a5, file, tasks, t, 0, x);
}

/// Whether a task is the record of some file.
pub open spec fn is_record(files: Seq<TaskFileView>, t: TaskView) -> bool {
    exists|k: int| 0 <= k < files.len() && (#[trigger] files[k]).task == Some(t)
}

/// The records of task files are the tasks that they hold.
pub proof fn law_records_are_those_of_the_files(files: Seq<TaskFileView>, t: TaskView)
    ensures
        diag::file_tasks(files).contains(t) <==> is_record(files, t),
    decreases files.len(),
{
    if files.len() > 0 {
        let front = files.drop_last();
        let a = diag::file_tasks(front);
        let all = diag::file_tasks(files);
        law_records_are_those_of_the_files(front, t);
        if all.contains(t) {
            let i = choose|i: int| 0 <= i < all.len() && all[i] == t;
            if i < a.len() {
                assert(a[i] == t);
                let k = choose|k: int| 0 <= k < front.len() && (#[trigger] front[k]).task == Some(t);
                assert(files[k].task == Some(t));
            } else {
                assert(files[files.len() - 1].task == Some(t));
            }
        }
        if is_record(files, t) {
            let k = choose|k: int| 0 <= k < files.len() && (#[trigger] files[k]).task == Some(t);
            if k < front.len() {
                assert(front[k].task == Some(t));
                let i = choose|i: int| 0 <= i < a.len() && a[i] == t;
                assert(all[i] == t);
            } else {
                assert(all[a.len() as int] == t);
            }
        }
    }
}

/// Whether the references of the `k`-th file's record are reported as `x`.
pub open spec fn file_told(
    files: Seq<TaskFileView>,
    milestones: Seq<MilestoneView>,
    k: int,
    x: Told,
) -> bool {
    files[k].task is Some && references_told(
        files[k].rel,
        diag::file_tasks(files),
        milestones,
        files[k].task->0,
        x,
    )
}

/// The references of every record are inspected, each in its own file, among the
/// records of all the files.
pub proof fn law_files_are_inspected(
    acc: Seq<FindingView>,
    files: Seq<TaskFileView>,
    milestones: Seq<MilestoneView>,
    i: int,
    x: Told,
)
    requires
        0 <= i <= files.len(),
    ensures
        tells(diag::files_checked(acc, files, milestones, i), x) <==> tells(acc, x) || exists|k: int|
            i <= k < files.len() && #[trigger] file_told(files, milestones, k, x),
    decreases files.len() - i,
{
    if i < files.len() {
        let tasks = diag::file_tasks(files);
        let next = match files[i].task {
            Some(t) => diag::references_checked(acc, files[i].rel, tasks, milestones, t),
            None => acc,
        };
        if let Some(t) = files[i].task {
            law_references_are_inspected(acc, files[i].rel, tasks, milestones, t, x);
        }
        law_files_are_inspected(next, files, milestones, i + 1, x);
        if exists|k: int| i <= k < files.len() && #[trigger] file_told(files, milestones, k, x) {
            let k = choose|k: int|
                i <= k < files.len() && #[trigger] file_told(files, milestones, k, x);
            if k > i {
                assert(file_told(files, milestones, k, x));
            }
        }
        if file_told(files, milestones, i, x) {
            assert(tells(next, x));
        }
    }
}

/// Whether the `i`-th id of `w` depends on the next one, by the first task that
/// has it.
pub open spec fn task_step_at(tasks: Seq<TaskView>, w: Seq<i64>, i: int) -> bool {
    exists|k: int| #[trigger] first_at(tasks, w[i], k) && tasks[k].depends_on.contains(w[i + 1])
}

/// Whether `w` follows dependencies from id to id.
pub open spec fn task_walk(tasks: Seq<TaskView>, w: Seq<i64>) -> bool {
    forall|i: int| 0 <= i < w.len() - 1 ==> #[trigger] task_step_at(tasks, w, i)
}

/// Whether following dependencies comes to an id twice.
pub open spec fn tasks_go_round(tasks: Seq<TaskView>) -> bool {
    exists|w: Seq<i64>| #[trigger] task_walk(tasks, w) && !w.no_duplicates()
}

proof fn lemma_task_walk(tasks: Seq<TaskView>, w: Seq<i64>)
    ensures
        graph::walk(diag::dependency_graph(tasks), w) == task_walk(tasks, w),
{
    let g = diag::dependency_graph(tasks);
    if graph::walk(g, w) {
        assert forall|i: int| 0 <= i < w.len() - 1 implies #[trigger] task_step_at(tasks, w, i) by {
            assert(graph::targets(g, w[i]).contains(w[i + 1]));
            lemma_targets_of_others(tasks, w[i], w[i + 1]);
        }
    }
    if task_walk(tasks, w) {
        assert forall|i: int| 0 <= i < w.len() - 1 implies graph::targets(
            g,
            #[trigger] w[i],
        ).contains(w[i + 1]) by {
            assert(task_step_at(tasks, w, i));
            lemma_targets_of_others(tasks, w[i], w[i + 1]);
        }
    }
}

/// Cycles among dependencies are found exactly when following them comes to an id
/// twice.
pub proof fn law_dependency_cycles_are_found(tasks: Seq<TaskView>)
    ensures
        graph::all_cycles(diag::dependency_graph(tasks)).len() > 0 <==> tasks_go_round(tasks),
{
    let g = diag::dependency_graph(tasks);
    graph::law_all_cycles_decide(g);
    if graph::acyclic(g) {
        assert forall|w: Seq<i64>| #[trigger] task_walk(tasks, w) implies w.no_duplicates() by {
            lemma_task_walk(tasks, w);
        }
    } else {
        let w = choose|w: Seq<i64>| #[trigger] graph::walk(g, w) && !w.no_duplicates();
        lemma_task_walk(tasks, w);
        assert(task_walk(tasks, w));
    }
}

/// As [`task_step_at`], for supersessions.
pub open spec fn entry_step_at(all: Seq<KnowledgeEntryView>, w: Seq<i64>, i: int) -> bool {
    exists|k: int| #[trigger]
        entries::first_at(all, w[i], k) && all[k].supersedes.contains(w[i + 1])
}

/// As [`task_walk`], for supersessions.
pub open spec fn entry_walk(all: Seq<KnowledgeEntryView>, w: Seq<i64>) -> bool {
    forall|i: int| 0 <= i < w.len() - 1 ==> #[trigger] entry_step_at(all, w, i)
}

/// Whether following supersessions comes to an id twice.
pub open spec fn entries_go_round(all: Seq<KnowledgeEntryView>) -> bool {
    exists|w: Seq<i64>| #[trigger] entry_walk(all, w) && !w.no_duplicates()
}

proof fn lemma_entry_walk(all: Seq<KnowledgeEntryView>, w: Seq<i64>)
    ensures
        graph::walk(knowledge::supersession_graph(all), w) == entry_walk(all, w),
{
    let g = knowledge::supersession_graph(all);
    if graph::walk(g, w) {
        assert forall|i: int| 0 <= i < w.len() - 1 implies #[trigger] entry_step_at(all, w, i) by {
            assert(graph::targets(g, w[i]).contains(w[i + 1]));
            entries::lemma_targets_of_others(all, w[i], w[i + 1]);
        }
    }
    if entry_walk(all, w) {
        assert forall|i: int| 0 <= i < w.len() - 1 implies graph::targets(
            g,
            #[trigger] w[i],
        ).contains(w[i + 1]) by {
            assert(entry_step_at(all, w, i));
            entries::lemma_targets_of_others(all, w[i], w[i + 1]);
        }
    }
}

/// Cycles among supersessions are found exactly when following them comes to an
/// id twice.
pub proof fn law_supersession_cycles_are_found(all: Seq<KnowledgeEntryView>)
    ensures
        knowledge::first_supersession_cycle(all) is Some <==> entries_go_round(all),
{
    let g = knowledge::supersession_graph(all);
    graph::law_all_cycles_decide(g);
    if graph::acyclic(g) {
        assert forall|w: Seq<i64>| #[trigger] entry_walk(all, w) implies w.no_duplicates() by {
            lemma_entry_walk(all, w);
        }
    } else {
        let w = choose|w: Seq<i64>| #[trigger] graph::walk(g, w) && !w.no_duplicates();
        lemma_entry_walk(all, w);
        assert(entry_walk(all, w));
    }
}

proof fn lemma_file_found(files: Seq<TaskFileView>, k: int, id: i64)
    requires
        0 <= k < files.len(),
        files[k].task matches Some(t) && t.id == id,
    ensures
        diag::find_file(files, id) is Some,
    decreases files.len(),
{
    if k > 0 {
        assert(files.skip(1)[k - 1] == files[k]);
        lemma_file_found(files.skip(1), k - 1, id);
    }
}

/// A dependency cycle is reported, on the file of some task, exactly when
/// following the dependencies of the records comes to an id twice; all else that
/// is reported of task files is of their references.
pub proof fn law_cycles_are_reported(files: Seq<TaskFileView>, milestones: Seq<MilestoneView>)
    ensures
        ({
            let fs = diag::cross_checked(Seq::empty(), files, milestones);
            let round = tasks_go_round(diag::file_tasks(files));
            &&& round <==> exists|file: Seq<char>| #[trigger]
                tells(fs, error_at(file, "task.dependency_cycle"@, "depends_on"@))
            &&& forall|x: Told|
                x.code != "task.dependency_cycle"@ ==> (#[trigger] tells(fs, x) <==> exists|k: int|
                    0 <= k < files.len() && #[trigger] file_told(files, milestones, k, x))
        }),
{
    let none = Seq::<FindingView>::empty();
    let tasks = diag::file_tasks(files);
    let fs = diag::cross_checked(none, files, milestones);
    let referenced = diag::files_checked(none, files, milestones, 0);
    let cycles = graph::all_cycles(diag::dependency_graph(tasks));
    law_dependency_cycles_are_found(tasks);
    assert forall|x: Told| x.code != "task.dependency_cycle"@ implies (#[trigger] tells(fs, x)
        <==> exists|k: int|
        0 <= k < files.len() && #[trigger] file_told(files, milestones, k, x)) by {
        law_files_are_inspected(none, files, milestones, 0, x);
        if cycles.len() > 0 {
            lemma_cycle(referenced, files, cycles[0], 0, x);
        }
    }
    if cycles.len() > 0 {
        let g = diag::dependency_graph(tasks);
        let c = cycles[0];
        graph::law_all_cycles_decide(g);
        assert(graph::cycle(g, c));
        assert(graph::targets(g, c[0]).contains(c[1]));
        lemma_targets_of_others(tasks, c[0], c[1]);
        let k = choose|k: int| #[trigger]
            first_at(tasks, c[0], k) && tasks[k].depends_on.contains(c[1]);
        assert(tasks.contains(tasks[k]));
        law_records_are_those_of_the_files(files, tasks[k]);
        let m = choose|m: int| 0 <= m < files.len() && (#[trigger] files[m]).task == Some(tasks[k]);
        lemma_file_found(files, m, c[0]);
        let rel = diag::find_file(files, c[0])->0;
        let x = error_at(rel, "task.dependency_cycle"@, "depends_on"@);
        lemma_cycle(referenced, files, c, 0, x);
        assert(tells(fs, x));
    } else {
        assert forall|file: Seq<char>| !(#[trigger] tells(
            fs,
            error_at(file, "task.dependency_cycle"@, "depends_on"@),
        )) by {
            let x = error_at(file, "task.dependency_cycle"@, "depends_on"@);
            law_files_are_inspected(none, files, milestones, 0, x);
            lemma_reference_codes();
        }
    }
}

/// Apart from cycles, checking files against each other adds what is wrong with their
/// references.
pub proof fn lemma_cross(
    acc: Seq<FindingView>,
    files: Seq<TaskFileView>,
    milestones: Seq<MilestoneView>,
    x: Told,
)
    requires
        x.code != "task.dependency_cycle"@,
    ensures
        tells(diag::cross_checked(acc, files, milestones), x) <==> tells(acc, x) || exists|k: int|
            0 <= k < files.len() && #[trigger] file_told(files, milestones, k, x),
{
    let referenced = diag::files_checked(acc, files, milestones, 0);
    let cycles = graph::all_cycles(diag::dependency_graph(diag::file_tasks(files)));
    law_files_are_inspected(acc, files, milestones, 0, x);
    if cycles.len() > 0 {
        lemma_cycle(referenced, files, cycles[0], 0, x);
    }
}

proof fn lemma_reference_codes()
    ensures
        "task.dependency_cycle"@.len() == 21,
        "task.dangling_ref"@.len() == 17,
        "task.depends_on_self"@.len() == 20,
        "task.depends_on_duplicate"@.len() == 25,
        "task.depends_on_missing"@.len() == 23,
        "task.dependency_inconsistency"@.len() == 29,
{
    reveal_strlit("task.dependency_cycle");
    reveal_strlit("task.dangling_ref");
    reveal_strlit("task.depends_on_self");
    reveal_strlit("task.depends_on_duplicate");
    reveal_strlit("task.depends_on_missing");
    reveal_strlit("task.dependency_inconsistency");
}

proof fn lemma_cycle(
    acc: Seq<FindingView>,
    files: Seq<TaskFileView>,
    cycle: Seq<i64>,
    i: int,
    x: Told,
)
    requires
        0 <= i <= cycle.len(),
    ensures
        ({
            let all = diag::cycle_checked(acc, files, cycle, i);
            &&& tells(acc, x) ==> tells(all, x)
            &&& tells(all, x) && !tells(acc, x) ==> x.code == "task.dependency_cycle"@ && x.severity
                == Severity::Error && x.field == Some("depends_on"@)
            &&& i < cycle.len() && diag::find_file(files, cycle[i]) is Some && x == error_at(
                diag::find_file(files, cycle[i])->0,
                "task.dependency_cycle"@,
                "depends_on"@,
            ) ==> tells(all, x)
        }),
    decreases cycle.len() - i,
{
    if i < cycle.len() {
        let next = match diag::find_file(files, cycle[i]) {
            Some(rel) => acc.push(
                diag::at_field(
                    diag::file_error(
                        rel,
                        "task.dependency_cycle"@,
                        "dependency cycle: "@ + text::joined(diag::hashed(cycle), " -> "@),
                        "remove one of the edges in the cycle"@,
                    ),
                    "depends_on"@,
                ),
            ),
            None => acc,
        };
        if diag::find_file(files, cycle[i]) is Some {
            assert(next =~= acc.push(next.last()));
            lemma_push(acc, next.last(), x);
        }
        lemma_cycle(next, files, cycle, i + 1, x);
    }
}

/// Whether some entry has the given id.
pub open spec fn is_entry(all: Seq<KnowledgeEntryView>, id: i64) -> bool {
    exists|k: int| 0 <= k < all.len() && (#[trigger] all[k]).id == id
}

/// Whether the `j`-th reference of an entry is reported as `x`: to itself, or to
/// an entry that is missing.
pub open spec fn supersession_told(
    file: Seq<char>,
    all: Seq<KnowledgeEntryView>,
    e: KnowledgeEntryView,
    j: int,
    x: Told,
) -> bool {
    let s = e.supersedes[j];
    ||| s == e.id && x == error_at(file, "kb.supersedes_self"@, "supersedes"@)
    ||| s != e.id && !is_entry(all, s) && x == error_at(
        file,
        "kb.supersedes_missing"@,
        "supersedes"@,
    )
}

proof fn lemma_supersedes(
    acc: Seq<FindingView>,
    file: Seq<char>,
    kind: KnowledgeKind,
    entries: Seq<KnowledgeEntryView>,
    e: KnowledgeEntryView,
    i: int,
    x: Told,
)
    requires
        0 <= i <= e.supersedes.len(),
    ensures
        tells(diag::supersedes_checked(acc, file, kind, entries, e, i), x) <==> tells(acc, x)
            || exists|j: int|
            i <= j < e.supersedes.len() && #[trigger] supersession_told(file, entries, e, j, x),
    decreases e.supersedes.len() - i,
{
    if i < e.supersedes.len() {
        let s = e.supersedes[i];
        let next = diag::supersedes_step(acc, file, kind, entries, e, i);
        assert(diag::has_entry(entries, s) == is_entry(entries, s));
        if s == e.id || !is_entry(entries, s) {
            assert(next =~= acc.push(next.last()));
            lemma_push(acc, next.last(), x);
        }
        lemma_supersedes(next, file, kind, entries, e, i + 1, x);
        assert(tells(next, x) <==> tells(acc, x) || supersession_told(file, entries, e, i, x));
        if exists|j: int|
            i <= j < e.supersedes.len() && #[trigger] supersession_told(file, entries, e, j, x) {
            let j = choose|j: int|
                i <= j < e.supersedes.len() && #[trigger] supersession_told(file, entries, e, j, x);
            if j > i {
                assert(supersession_told(file, entries, e, j, x));
            }
        }
    }
}

/// Whether the references of the `k`-th entry are reported as `x`.
pub open spec fn supersessions_told(
    file: Seq<char>,
    all: Seq<KnowledgeEntryView>,
    k: int,
    x: Told,
) -> bool {
    exists|j: int|
        0 <= j < all[k].supersedes.len() && #[trigger] supersession_told(file, all, all[k], j, x)
}

proof fn lemma_supersessions(
    acc: Seq<FindingView>,
    file: Seq<char>,
    kind: KnowledgeKind,
    entries: Seq<KnowledgeEntryView>,
    i: int,
    x: Told,
)
    requires
        0 <= i <= entries.len(),
    ensures
        tells(diag::supersessions_checked(acc, file, kind, entries, i), x) <==> tells(acc, x)
            || exists|k: int|
            i <= k < entries.len() && #[trigger] supersessions_told(file, entries, k, x),
    decreases entries.len() - i,
{
    if i < entries.len() {
        let next = diag::supersedes_checked(acc, file, kind, entries, entries[i], 0);
        lemma_supersedes(acc, file, kind, entries, entries[i], 0, x);
        lemma_supersessions(next, file, kind, entries, i + 1, x);
        assert(tells(next, x) <==> tells(acc, x) || supersessions_told(file, entries, i, x));
        if exists|k: int|
            i <= k < entries.len() && #[trigger] supersessions_told(file, entries, k, x) {
            let k = choose|k: int|
                i <= k < entries.len() && #[trigger] supersessions_told(file, entries, k, x);
            if k > i {
                assert(supersessions_told(file, entries, k, x));
            }
        }
    }
}

/// Whether a text is `current` but for capitals.
pub open spec fn says_current(s: Seq<char>) -> bool {
    text::same_but_case(s, "current"@)
}

/// Whether an entry has a tag that says `current` and is not the summary that
/// counts: the designated one, or where none is designated the one with the
/// highest id.
pub open spec fn misleads(f: EntriesFileView, k: int) -> bool {
    let e = f.entries[k];
    &&& exists|j: int| 0 <= j < e.tags.len() && says_current(#[trigger] e.tags[j])
    &&& match f.current_summary {
        Some(s) => s.entry_id != e.id,
        None => exists|j: int| 0 <= j < f.entries.len() && (#[trigger] f.entries[j]).id > e.id,
    }
}

proof fn lemma_tags(acc: Seq<FindingView>, file: Seq<char>, f: EntriesFileView, i: int, x: Told)
    requires
        0 <= i <= f.entries.len(),
    ensures
        tells(diag::tags_checked(acc, file, f, i), x) <==> tells(acc, x) || (x == warning_at(
            file,
            "kb.legacy_current_tag"@,
            "tags"@,
        ) && exists|k: int| i <= k < f.entries.len() && #[trigger] misleads(f, k)),
    decreases f.entries.len() - i,
{
    if i < f.entries.len() {
        let e = f.entries[i];
        let next = diag::tags_step(acc, file, f, i);
        if diag::tagged_current(e) {
            let j = choose|j: int|
                0 <= j < e.tags.len() && text::same_but_case(#[trigger] e.tags[j], "current"@);
            assert(says_current(e.tags[j]));
        }
        if misleads(f, i) {
            let j = choose|j: int| 0 <= j < e.tags.len() && says_current(#[trigger] e.tags[j]);
            assert(text::same_but_case(e.tags[j], "current"@));
            assert(diag::tagged_current(e));
        }
        assert((diag::tagged_current(e) && !diag::authoritative(f, e.id)) == misleads(f, i));
        if misleads(f, i) {
            assert(next =~= acc.push(next.last()));
            lemma_push(acc, next.last(), x);
        }
        lemma_tags(next, file, f, i + 1, x);
        if exists|k: int| i <= k < f.entries.len() && #[trigger] misleads(f, k) {
            let k = choose|k: int| i <= k < f.entries.len() && #[trigger] misleads(f, k);
            if k > i {
                assert(misleads(f, k));
            }
        }
    }
}

/// Whether the `k`-th entry itself is reported as `x`: an id that came before, a
/// timestamp that is none, or a task that is missing.
pub open spec fn entry_told(
    file: Seq<char>,
    tasks: Seq<TaskView>,
    all: Seq<KnowledgeEntryView>,
    k: int,
    x: Told,
) -> bool {
    let e = all[k];
    ||| (exists|j: int| 0 <= j < k && (#[trigger] all[j]).id == e.id) && x == error_at(
        file,
        "kb.duplicate_id"@,
        "id"@,
    )
    ||| !is_time(e.created_at) && x == error_at(file, "value.invalid_timestamp"@, "created_at"@)
    ||| !is_time(e.updated_at) && x == error_at(file, "value.invalid_timestamp"@, "updated_at"@)
    ||| tasks.len() > 0 && dangles(tasks, e.related_task) && x == warning_at(
        file,
        "kb.related_task_missing"@,
        "related_task"@,
    )
}

proof fn lemma_entry_step(
    acc: Seq<FindingView>,
    file: Seq<char>,
    kind: KnowledgeKind,
    tasks: Seq<TaskView>,
    entries: Seq<KnowledgeEntryView>,
    i: int,
    x: Told,
)
    requires
        0 <= i < entries.len(),
    ensures
        tells(diag::entry_step(acc, file, kind, tasks, entries, i), x) == (tells(acc, x)
            || entry_told(file, tasks, entries, i, x)),
{
    let e = entries[i];
    let a1 = diag::entry_id_checked(acc, file, kind, entries, i);
    if diag::entry_id_repeated(entries, i) {
        assert(a1 =~= acc.push(a1.last()));
        lemma_push(acc, a1.last(), x);
    }
    let a2 = diag::stamp_checked(a1, file, "created_at"@, e.created_at);
    lemma_stamp(a1, file, "created_at"@, Some(e.created_at), x);
    let a3 = diag::stamp_checked(a2, file, "updated_at"@, e.updated_at);
    lemma_stamp(a2, file, "updated_at"@, Some(e.updated_at), x);
    let a4 = diag::related_task_checked(a3, file, kind, tasks, e);
    if let Some(id) = e.related_task {
        lemma_has_task(tasks, id);
        if tasks.len() > 0 && !has_id(tasks, id) {
            assert(a4 =~= a3.push(a4.last()));
            lemma_push(a3, a4.last(), x);
        }
    }
}

proof fn lemma_entries(
    acc: Seq<FindingView>,
    file: Seq<char>,
    kind: KnowledgeKind,
    tasks: Seq<TaskView>,
    entries: Seq<KnowledgeEntryView>,
    i: int,
    x: Told,
)
    requires
        0 <= i <= entries.len(),
    ensures
        tells(diag::entries_checked(acc, file, kind, tasks, entries, i), x) <==> tells(acc, x)
            || exists|k: int|
            i <= k < entries.len() && #[trigger] entry_told(file, tasks, entries, k, x),
    decreases entries.len() - i,
{
    if i < entries.len() {
        let next = diag::entry_step(acc, file, kind, tasks, entries, i);
        lemma_entry_step(acc, file, kind, tasks, entries, i, x);
        lemma_entries(next, file, kind, tasks, entries, i + 1, x);
        if exists|k: int|
            i <= k < entries.len() && #[trigger] entry_told(file, tasks, entries, k, x) {
            let k = choose|k: int|
                i <= k < entries.len() && #[trigger] entry_told(file, tasks, entries, k, x);
            if k > i {
                assert(entry_told(file, tasks, entries, k, x));
            }
        }
    }
}

/// Whether a file of the knowledge base is reported as `x`.
pub open spec fn kb_told(
    file: Seq<char>,
    kind: KnowledgeKind,
    tasks: Seq<TaskView>,
    f: EntriesFileView,
    x: Told,
) -> bool {
    ||| f.current_summary is Some && !is_entry(f.entries, f.current_summary->0.entry_id) && x
        == error_at(file, "kb.current_summary_missing"@, "current_summary"@)
    ||| exists|k: int|
        0 <= k < f.entries.len() && #[trigger] supersessions_told(file, f.entries, k, x)
    ||| entries_go_round(f.entries) && x == (Told {
        severity: Severity::Error,
        file,
        code: "kb.supersedes_cycle"@,
        field: None,
    })
    ||| kind == KnowledgeKind::Status && x == warning_at(file, "kb.legacy_current_tag"@, "tags"@)
        && exists|k: int| 0 <= k < f.entries.len() && #[trigger] misleads(f, k)
    ||| exists|k: int|
        0 <= k < f.entries.len() && #[trigger] entry_told(file, tasks, f.entries, k, x)
}

/// A file of the knowledge base is reported exactly as it is wrong: a designation
/// of a missing entry, wrong supersessions, tags that mislead, and entries with a
/// repeated id, a wrong timestamp or a missing task.
pub proof fn law_knowledge_is_inspected(
    acc: Seq<FindingView>,
    kind: KnowledgeKind,
    tasks: Seq<TaskView>,
    f: EntriesFileView,
    x: Told,
)
    ensures
        tells(diag::kb_record_checked(acc, kind, tasks, f), x) <==> tells(acc, x) || kb_told(
            diag::kb_rel(kind),
            kind,
            tasks,
            f,
            x,
        ),
{
    let file = diag::kb_rel(kind);
    let a1 = diag::designation_checked(acc, file, f);
    if let Some(s) = f.current_summary {
        assert(diag::has_entry(f.entries, s.entry_id) == is_entry(f.entries, s.entry_id));
        if !is_entry(f.entries, s.entry_id) {
            assert(a1 =~= acc.push(a1.last()));
            lemma_push(acc, a1.last(), x);
        }
    }
    let a2 = diag::supersessions_checked(a1, file, kind, f.entries, 0);
    lemma_supersessions(a1, file, kind, f.entries, 0, x);
    let c = diag::file_error(
        file,
        "kb.supersedes_cycle"@,
        "supersession references contain a cycle"@,
        "remove one of the supersedes edges in the cycle"@,
    );
    lemma_push(a2, c, x);
    law_supersession_cycles_are_found(f.entries);
    let a3 = if knowledge::first_supersession_cycle(f.entries) is Some {
        a2.push(c)
    } else {
        a2
    };
    lemma_tags(a3, file, f, 0, x);
    let a4 = if kind == KnowledgeKind::Status {
        diag::tags_checked(a3, file, f, 0)
    } else {
        a3
    };
    lemma_entries(a4, file, kind, tasks, f.entries, 0, x);
}

} // verus!
