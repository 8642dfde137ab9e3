//! What repair does to a whole project: it migrates what doctor proposes, and
//! leaves nothing to propose.
use vstd::prelude::*;

use crate::diag;
use crate::diag::{
    ConfigSource, FileRead, FindingView, KbSource, MilestonesSource, ProjectFiles, RepairOpView,
    TaskFileView, TaskSource, Timestamp,
};
use crate::doc;
use crate::doc::{DocView, FieldView};
use crate::graph;
use crate::knowledge;
use crate::knowledge::EntriesFileView;
use crate::model;
use crate::model::{KnowledgeEntryView, KnowledgeKind, LifecycleEventView, MilestoneView, TaskView};
use crate::order;
use crate::text;

verus! {

/// The code of the findings that repair can fix.
pub const LEGACY: &'static str = "task.legacy_closed_at";

/// The findings that repair can fix, in order.
pub open spec fn repairs(f: Seq<FindingView>) -> Seq<FindingView> {
    f.filter(|x: FindingView| diag::repairable(x))
}

/// Whether repair migrates a task document: its legacy `closed_at` is a
/// timestamp and `done_at` is missing or equivalent.
pub open spec fn is_legacy(d: DocView) -> bool {
    let field = doc::field_of(d, "closed_at"@);
    let closed = match doc::text_of(field) {
        Some(s) => s,
        None => ""@,
    };
    let done = doc::text_of(doc::field_of(d, "done_at"@));
    &&& field is Some
    &&& diag::timestamp_of(closed) is Some
    &&& done matches Some(t) ==> t == closed || diag::timestamp_of(t) == diag::timestamp_of(closed)
}

/// Whether repair migrates a task file.
pub open spec fn is_target(s: TaskSource) -> bool {
    s.read matches FileRead::Text(t) && (doc::toml_reads(t@) matches Ok(d) && is_legacy(d))
}

/// The paths of the task files that repair migrates, in order.
pub open spec fn targets(s: Seq<TaskSource>) -> Seq<Seq<char>> {
    s.filter(|x: TaskSource| is_target(x)).map_values(|x: TaskSource| diag::task_rel(x.name@))
}

proof fn lemma_codes()
    ensures
        "config.parse_error"@ != LEGACY@,
        "kb.current_summary_missing"@ != LEGACY@,
        "kb.duplicate_id"@ != LEGACY@,
        "kb.legacy_current_tag"@ != LEGACY@,
        "kb.parse_error"@ != LEGACY@,
        "kb.read_error"@ != LEGACY@,
        "kb.related_task_missing"@ != LEGACY@,
        "kb.supersedes_cycle"@ != LEGACY@,
        "kb.supersedes_missing"@ != LEGACY@,
        "kb.supersedes_self"@ != LEGACY@,
        "milestone.duplicate_id"@ != LEGACY@,
        "milestones.parse_error"@ != LEGACY@,
        "milestones.read_error"@ != LEGACY@,
        "project.git_missing"@ != LEGACY@,
        "project.missing_config"@ != LEGACY@,
        "project.missing_tasks_dir"@ != LEGACY@,
        "task.closed_at_conflict"@ != LEGACY@,
        "task.closed_missing_done_at"@ != LEGACY@,
        "task.closed_missing_result"@ != LEGACY@,
        "task.closed_missing_validation"@ != LEGACY@,
        "task.dangling_ref"@ != LEGACY@,
        "task.dependency_cycle"@ != LEGACY@,
        "task.dependency_inconsistency"@ != LEGACY@,
        "task.depends_on_duplicate"@ != LEGACY@,
        "task.depends_on_missing"@ != LEGACY@,
        "task.depends_on_self"@ != LEGACY@,
        "task.filename_id_mismatch"@ != LEGACY@,
        "task.invalid_value"@ != LEGACY@,
        "task.nonnumeric_filename"@ != LEGACY@,
        "task.parse_error"@ != LEGACY@,
        "task.read_error"@ != LEGACY@,
        "value.invalid_timestamp"@ != LEGACY@,
        "value.timestamp_order"@ != LEGACY@,
        "value.unknown_field"@ != LEGACY@,
{
    reveal_strlit("task.legacy_closed_at");
    assert(LEGACY@.len() == 21);
    assert("config.parse_error"@ != LEGACY@) by {
        reveal_strlit("config.parse_error");
        assert("config.parse_error"@.len() == 18);
    }
    assert("kb.current_summary_missing"@ != LEGACY@) by {
        reveal_strlit("kb.current_summary_missing");
        assert("kb.current_summary_missing"@.len() == 26);
    }
    assert("kb.duplicate_id"@ != LEGACY@) by {
        reveal_strlit("kb.duplicate_id");
        assert("kb.duplicate_id"@.len() == 15);
    }
    assert("kb.legacy_current_tag"@ != LEGACY@) by {
        reveal_strlit("kb.legacy_current_tag");
        assert("kb.legacy_current_tag"@[0] == 'k');
    }
    assert("kb.parse_error"@ != LEGACY@) by {
        reveal_strlit("kb.parse_error");
        assert("kb.parse_error"@.len() == 14);
    }
    assert("kb.read_error"@ != LEGACY@) by {
        reveal_strlit("kb.read_error");
        assert("kb.read_error"@.len() == 13);
    }
    assert("kb.related_task_missing"@ != LEGACY@) by {
        reveal_strlit("kb.related_task_missing");
        assert("kb.related_task_missing"@.len() == 23);
    }
    assert("kb.supersedes_cycle"@ != LEGACY@) by {
        reveal_strlit("kb.supersedes_cycle");
        assert("kb.supersedes_cycle"@.len() == 19);
    }
    assert("kb.supersedes_missing"@ != LEGACY@) by {
        reveal_strlit("kb.supersedes_missing");
        assert("kb.supersedes_missing"@[0] == 'k');
    }
    assert("kb.supersedes_self"@ != LEGACY@) by {
        reveal_strlit("kb.supersedes_self");
        assert("kb.supersedes_self"@.len() == 18);
    }
    assert("milestone.duplicate_id"@ != LEGACY@) by {
        reveal_strlit("milestone.duplicate_id");
        assert("milestone.duplicate_id"@.len() == 22);
    }
    assert("milestones.parse_error"@ != LEGACY@) by {
        reveal_strlit("milestones.parse_error");
        assert("milestones.parse_error"@.len() == 22);
    }
    assert("milestones.read_error"@ != LEGACY@) by {
        reveal_strlit("milestones.read_error");
        assert("milestones.read_error"@[0] == 'm');
    }
    assert("project.git_missing"@ != LEGACY@) by {
        reveal_strlit("project.git_missing");
        assert("project.git_missing"@.len() == 19);
    }
    assert("project.missing_config"@ != LEGACY@) by {
        reveal_strlit("project.missing_config");
        assert("project.missing_config"@.len() == 22);
    }
    assert("project.missing_tasks_dir"@ != LEGACY@) by {
        reveal_strlit("project.missing_tasks_dir");
        assert("project.missing_tasks_dir"@.len() == 25);
    }
    assert("task.closed_at_conflict"@ != LEGACY@) by {
        reveal_strlit("task.closed_at_conflict");
        assert("task.closed_at_conflict"@.len() == 23);
    }
    assert("task.closed_missing_done_at"@ != LEGACY@) by {
        reveal_strlit("task.closed_missing_done_at");
        assert("task.closed_missing_done_at"@.len() == 27);
    }
    assert("task.closed_missing_result"@ != LEGACY@) by {
        reveal_strlit("task.closed_missing_result");
        assert("task.closed_missing_result"@.len() == 26);
    }
    assert("task.closed_missing_validation"@ != LEGACY@) by {
        reveal_strlit("task.closed_missing_validation");
        assert("task.closed_missing_validation"@.len() == 30);
    }
    assert("task.dangling_ref"@ != LEGACY@) by {
        reveal_strlit("task.dangling_ref");
        assert("task.dangling_ref"@.len() == 17);
    }
    assert("task.dependency_cycle"@ != LEGACY@) by {
        reveal_strlit("task.dependency_cycle");
        assert("task.dependency_cycle"@[5] == 'd');
    }
    assert("task.dependency_inconsistency"@ != LEGACY@) by {
        reveal_strlit("task.dependency_inconsistency");
        assert("task.dependency_inconsistency"@.len() == 29);
    }
    assert("task.depends_on_duplicate"@ != LEGACY@) by {
        reveal_strlit("task.depends_on_duplicate");
        assert("task.depends_on_duplicate"@.len() == 25);
    }
    assert("task.depends_on_missing"@ != LEGACY@) by {
        reveal_strlit("task.depends_on_missing");
        assert("task.depends_on_missing"@.len() == 23);
    }
    assert("task.depends_on_self"@ != LEGACY@) by {
        reveal_strlit("task.depends_on_self");
        assert("task.depends_on_self"@.len() == 20);
    }
    assert("task.filename_id_mismatch"@ != LEGACY@) by {
        reveal_strlit("task.filename_id_mismatch");
        assert("task.filename_id_mismatch"@.len() == 25);
    }
    assert("task.invalid_value"@ != LEGACY@) by {
        reveal_strlit("task.invalid_value");
        assert("task.invalid_value"@.len() == 18);
    }
    assert("task.nonnumeric_filename"@ != LEGACY@) by {
        reveal_strlit("task.nonnumeric_filename");
        assert("task.nonnumeric_filename"@.len() == 24);
    }
    assert("task.parse_error"@ != LEGACY@) by {
        reveal_strlit("task.parse_error");
        assert("task.parse_error"@.len() == 16);
    }
    assert("task.read_error"@ != LEGACY@) by {
        reveal_strlit("task.read_error");
        assert("task.read_error"@.len() == 15);
    }
    assert("value.invalid_timestamp"@ != LEGACY@) by {
        reveal_strlit("value.invalid_timestamp");
        assert("value.invalid_timestamp"@.len() == 23);
    }
    assert("value.timestamp_order"@ != LEGACY@) by {
        reveal_strlit("value.timestamp_order");
        assert("value.timestamp_order"@[0] == 'v');
    }
    assert("value.unknown_field"@ != LEGACY@) by {
        reveal_strlit("value.unknown_field");
        assert("value.unknown_field"@.len() == 19);
    }
}

/// What is not repairable adds nothing to the repairs.
proof fn lemma_quiet()
    ensures
        forall|f: Seq<FindingView>, x: FindingView|
            #![trigger repairs(f.push(x))]
            x.code != LEGACY@ ==> repairs(f.push(x)) == repairs(f),
{
    assert forall|f: Seq<FindingView>, x: FindingView| x.code != LEGACY@ implies #[trigger] repairs(
        f.push(x),
    ) == repairs(f) by {
        lemma_repairs_push(f, x);
    }
}

proof fn lemma_repairs_push(f: Seq<FindingView>, x: FindingView)
    ensures
        repairs(f.push(x)) == (if diag::repairable(x) {
            repairs(f).push(x)
        } else {
            repairs(f)
        }),
{
    reveal(Seq::filter);
    assert(f.push(x).drop_last() =~= f);
}

proof fn lemma_stamp(acc: Seq<FindingView>, file: Seq<char>, field: Seq<char>, value: Seq<char>)
    ensures
        repairs(diag::stamp_checked(acc, file, field, value)) == repairs(acc),
{
    lemma_codes();
    lemma_quiet();
}

proof fn lemma_opt_stamp(
    acc: Seq<FindingView>,
    file: Seq<char>,
    field: Seq<char>,
    value: Option<Seq<char>>,
)
    ensures
        repairs(diag::opt_stamp_checked(acc, file, field, value)) == repairs(acc),
{
    if let Some(v) = value {
        lemma_stamp(acc, file, field, v);
    }
}

proof fn lemma_order(
    acc: Seq<FindingView>,
    file: Seq<char>,
    earlier: Seq<char>,
    first: Option<Timestamp>,
    later: Seq<char>,
    second: Option<Timestamp>,
)
    ensures
        repairs(diag::order_checked(acc, file, earlier, first, later, second)) == repairs(acc),
{
    lemma_codes();
    lemma_quiet();
}

proof fn lemma_history(
    acc: Seq<FindingView>,
    file: Seq<char>,
    history: Seq<LifecycleEventView>,
    i: int,
    prev: Option<Timestamp>,
)
    ensures
        repairs(diag::history_checked(acc, file, history, i, prev)) == repairs(acc),
    decreases history.len() - i,
{
    if 0 <= i < history.len() {
        lemma_codes();
        lemma_quiet();
        let event = history[i];
        let at = diag::timestamp_of(event.at);
        let name = diag::event_field(i, "at"@);
        let stamped = diag::stamp_checked(acc, file, name, event.at);
        lemma_stamp(acc, file, name, event.at);
        let ordered = match (prev, at) {
            (Some(p), Some(ts)) => if diag::after(p, ts) {
                stamped.push(
                    diag::at_field(
                        diag::file_error(
                            file,
                            "value.timestamp_order"@,
                            name + " is before "@ + diag::event_field(i - 1, "at"@),
                            "fix the recorded event timestamps"@,
                        ),
                        name,
                    ),
                )
            } else {
                stamped
            },
            _ => stamped,
        };
        assert(repairs(ordered) == repairs(acc));
        let prior = diag::event_field(i, "prior_done_at"@);
        lemma_opt_stamp(ordered, file, prior, event.prior_done_at);
        let done = diag::opt_stamp_checked(ordered, file, prior, event.prior_done_at);
        lemma_history(done, file, history, i + 1, at);
    }
}

proof fn lemma_record(acc: Seq<FindingView>, file: Seq<char>, file_id: Option<i64>, t: TaskView)
    ensures
        repairs(diag::record_checked(acc, file, file_id, t)) == repairs(acc),
{
    lemma_codes();
    lemma_quiet();
    let created = diag::timestamp_of(t.created_at);
    let updated = diag::timestamp_of(t.updated_at);
    let started = diag::opt_timestamp_of(t.started_at);
    let done = diag::opt_timestamp_of(t.done_at);
    let a0 = diag::id_checked(acc, file, file_id, t);
    assert(repairs(a0) == repairs(acc));
    let a1 = diag::stamp_checked(a0, file, "created_at"@, t.created_at);
    lemma_stamp(a0, file, "created_at"@, t.created_at);
    let a2 = diag::stamp_checked(a1, file, "updated_at"@, t.updated_at);
    lemma_stamp(a1, file, "updated_at"@, t.updated_at);
    let a3 = diag::opt_stamp_checked(a2, file, "started_at"@, t.started_at);
    lemma_opt_stamp(a2, file, "started_at"@, t.started_at);
    let a4 = diag::opt_stamp_checked(a3, file, "done_at"@, t.done_at);
    lemma_opt_stamp(a3, file, "done_at"@, t.done_at);
    let a5 = diag::order_checked(a4, file, "created_at"@, created, "started_at"@, started);
    lemma_order(a4, file, "created_at"@, created, "started_at"@, started);
    let a6 = diag::order_checked(a5, file, "started_at"@, started, "done_at"@, done);
    lemma_order(a5, file, "started_at"@, started, "done_at"@, done);
    let a7 = diag::order_checked(a6, file, "created_at"@, created, "done_at"@, done);
    lemma_order(a6, file, "created_at"@, created, "done_at"@, done);
    let a8 = diag::order_checked(a7, file, "created_at"@, created, "updated_at"@, updated);
    lemma_order(a7, file, "created_at"@, created, "updated_at"@, updated);
    let a9 = diag::history_checked(a8, file, t.history, 0, None);
    lemma_history(a8, file, t.history, 0, None);
    lemma_evidence(a9, file, t);
}

proof fn lemma_evidence(acc: Seq<FindingView>, file: Seq<char>, t: TaskView)
    ensures
        repairs(diag::evidence_checked(acc, file, t)) == repairs(acc),
{
    lemma_codes();
    lemma_quiet();
}

proof fn lemma_fields(
    acc: Seq<FindingView>,
    file: Seq<char>,
    fields: Seq<FieldView>,
    known: Seq<&str>,
    legacy: Seq<&str>,
    what: Seq<char>,
)
    ensures
        repairs(diag::fields_checked(acc, file, fields, known, legacy, what)) == repairs(acc),
    decreases fields.len(),
{
    if fields.len() > 0 {
        lemma_codes();
        lemma_quiet();
        let key = fields[0].name;
        let next = if text::listed(key, known) || text::listed(key, legacy) {
            acc
        } else {
            acc.push(diag::unknown_field(file, what, key))
        };
        assert(repairs(next) == repairs(acc));
        lemma_fields(next, file, fields.skip(1), known, legacy, what);
    }
}

proof fn lemma_unknown(
    acc: Seq<FindingView>,
    file: Seq<char>,
    value: DocView,
    known: Seq<&str>,
    legacy: Seq<&str>,
    what: Seq<char>,
)
    ensures
        repairs(diag::unknown_checked(acc, file, value, known, legacy, what)) == repairs(acc),
{
    if let DocView::Table(f) = value {
        lemma_fields(acc, file, f, known, legacy, what);
    }
}

proof fn lemma_elements(
    acc: Seq<FindingView>,
    file: Seq<char>,
    elements: Seq<DocView>,
    known: Seq<&str>,
    what: Seq<char>,
    i: int,
)
    ensures
        repairs(diag::elements_checked(acc, file, elements, known, what, i)) == repairs(acc),
    decreases elements.len() - i,
{
    if 0 <= i < elements.len() {
        let name = what + "["@ + text::decimal(i) + "]"@;
        let none = diag::NO_LEGACY_FIELDS@;
        lemma_unknown(acc, file, elements[i], known, none, name);
        let next = diag::unknown_checked(acc, file, elements[i], known, none, name);
        lemma_elements(next, file, elements, known, what, i + 1);
    }
}

proof fn lemma_array(
    acc: Seq<FindingView>,
    file: Seq<char>,
    read: Result<DocView, Seq<char>>,
    known: Seq<&str>,
    what: Seq<char>,
)
    ensures
        repairs(diag::array_checked(acc, file, read, known, what)) == repairs(acc),
{
    if let Ok(d) = read {
        if let Some(elements) = doc::array_of(doc::field_of(d, what)) {
            lemma_elements(acc, file, elements, known, what, 0);
        }
    }
}

/// A document adds a repair exactly where it is legacy.
proof fn lemma_legacy(acc: Seq<FindingView>, file: Seq<char>, d: DocView)
    ensures
        ({
            let more = repairs(
                diag::legacy_checked(
                    acc,
                    file,
                    doc::field_of(d, "done_at"@),
                    doc::field_of(d, "closed_at"@),
                ),
            );
            if is_legacy(d) {
                more.len() == repairs(acc).len() + 1 && more.drop_last() == repairs(acc)
                    && more.last().file == file
            } else {
                more == repairs(acc)
            }
        }),
{
    lemma_codes();
    let done_at = doc::field_of(d, "done_at"@);
    let closed_at = doc::field_of(d, "closed_at"@);
    let after = diag::legacy_checked(acc, file, done_at, closed_at);
    if closed_at is Some {
        let x = after.last();
        assert(after =~= acc.push(x));
        lemma_repairs_push(acc, x);
        if is_legacy(d) {
            assert(x.code == LEGACY@);
            assert(repairs(acc).push(x).drop_last() =~= repairs(acc));
        }
    }
}

/// What a task file adds to the repairs: its path where it is a target.
proof fn lemma_source(acc: Seq<FindingView>, s: TaskSource)
    ensures
        files(repairs(diag::source_checked(acc, s))) == (if is_target(s) {
            files(repairs(acc)).push(diag::task_rel(s.name@))
        } else {
            files(repairs(acc))
        }),
{
    lemma_codes();
    lemma_quiet();
    let name = s.name@;
    let rel = diag::task_rel(name);
    let named = diag::name_checked(acc, name);
    assert(repairs(named) == repairs(acc));
    if let FileRead::Text(t) = s.read {
        let record = diag::record_read(s.record);
        if let Ok(d) = doc::toml_reads(t@) {
            let typed = match record {
                Err(e) => named.push(
                    diag::file_error(
                        rel,
                        "task.invalid_value"@,
                        "task record invalid: "@ + e,
                        "fix the offending field value (see message)"@,
                    ),
                ),
                Ok(_) => named,
            };
            assert(repairs(typed) == repairs(acc));
            let task_fields = diag::KNOWN_TASK_FIELDS@;
            let legacy_fields = diag::LEGACY_TASK_FIELDS@;
            lemma_unknown(typed, rel, d, task_fields, legacy_fields, "task"@);
            let known = diag::unknown_checked(
                typed,
                rel,
                d,
                task_fields,
                legacy_fields,
                "task"@,
            );
            lemma_legacy(known, rel, d);
            let legacy = diag::legacy_checked(
                known,
                rel,
                doc::field_of(d, "done_at"@),
                doc::field_of(d, "closed_at"@),
            );
            if is_legacy(d) {
                let more = repairs(legacy);
                assert(files(more) =~= files(more.drop_last()).push(more.last().file));
            }
            if let Ok(task) = record {
                lemma_record(legacy, rel, text::integer(diag::stem_of(name)), task);
            }
        }
    }
}

/// The files of findings, in order.
pub open spec fn files(f: Seq<FindingView>) -> Seq<Seq<char>> {
    f.map_values(|x: FindingView| x.file)
}

proof fn lemma_sources(acc: Seq<FindingView>, s: Seq<TaskSource>)
    ensures
        files(repairs(diag::sources_checked(acc, s))) == files(repairs(acc)) + targets(s),
    decreases s.len(),
{
    reveal(Seq::filter);
    if s.len() == 0 {
        assert(targets(s) =~= Seq::empty());
        assert(files(repairs(acc)) + targets(s) =~= files(repairs(acc)));
    } else {
        let front = s.drop_last();
        lemma_sources(acc, front);
        lemma_source(diag::sources_checked(acc, front), s.last());
        let keep = |x: TaskSource| is_target(x);
        let rel = |x: TaskSource| diag::task_rel(x.name@);
        let kept = front.filter(keep);
        if is_target(s.last()) {
            assert(kept.push(s.last()).map_values(rel) =~= kept.map_values(rel).push(rel(s.last())));
            assert(targets(s) == targets(front).push(rel(s.last())));
            assert((files(repairs(acc)) + targets(front)).push(rel(s.last())) =~= files(
                repairs(acc),
            ) + targets(s));
        } else {
            assert(targets(s) == targets(front));
        }
    }
}

proof fn lemma_milestone_ids(acc: Seq<FindingView>, m: Seq<MilestoneView>, i: int)
    ensures
        repairs(diag::milestone_ids_checked(acc, m, i)) == repairs(acc),
    decreases m.len() - i,
{
    if 0 <= i < m.len() {
        lemma_codes();
        lemma_quiet();
        let more = acc.push(
            diag::at_field(
                diag::file_error(
                    diag::milestones_rel(),
                    "milestone.duplicate_id"@,
                    "duplicate milestone id "@ + text::decimal(m[i].id as int),
                    "renumber one of the milestones"@,
                ),
                "id"@,
            ),
        );
        assert(repairs(more) == repairs(acc));
        lemma_milestone_ids(more, m, i + 1);
        lemma_milestone_ids(acc, m, i + 1);
    }
}

proof fn lemma_milestones(acc: Seq<FindingView>, s: MilestonesSource)
    ensures
        repairs(diag::milestones_checked(acc, s)) == repairs(acc),
{
    lemma_codes();
    lemma_quiet();
    if let FileRead::Text(t) = s.read {
        let rel = diag::milestones_rel();
        let raw = doc::toml_reads(t@);
        lemma_array(acc, rel, raw, diag::KNOWN_MILESTONE_FIELDS@, "milestones"@);
        let known = diag::array_checked(
            acc,
            rel,
            raw,
            diag::KNOWN_MILESTONE_FIELDS@,
            "milestones"@,
        );
        if let Ok(m) = s.record {
            lemma_milestone_ids(known, model::milestones(m@), 0);
        }
    }
}

proof fn lemma_project(acc: Seq<FindingView>, s: ConfigSource)
    ensures
        repairs(diag::project_checked(acc, s)) == repairs(acc),
{
    lemma_codes();
    lemma_quiet();
    let laid = diag::layout_checked(acc, s.has_config, s.has_tasks);
    assert(repairs(laid) == repairs(acc));
    if let Some(d) = diag::opt_read(text::opt_text(s.text)) {
        lemma_unknown(
            laid,
            diag::config_rel(),
            d,
            diag::KNOWN_CONFIG_FIELDS@,
            diag::NO_LEGACY_FIELDS@,
            "config"@,
        );
    }
}

proof fn lemma_dependencies(
    acc: Seq<FindingView>,
    file: Seq<char>,
    tasks: Seq<TaskView>,
    t: TaskView,
    i: int,
)
    ensures
        repairs(diag::dependencies_checked(acc, file, tasks, t, i)) == repairs(acc),
    decreases t.depends_on.len() - i,
{
    if 0 <= i < t.depends_on.len() {
        lemma_codes();
        lemma_quiet();
        let next = diag::dependency_step(acc, file, tasks, t, i);
        assert(repairs(next) == repairs(acc));
        lemma_dependencies(next, file, tasks, t, i + 1);
    }
}

proof fn lemma_prerequisites(
    acc: Seq<FindingView>,
    file: Seq<char>,
    tasks: Seq<TaskView>,
    t: TaskView,
    i: int,
)
    ensures
        repairs(diag::prerequisites_checked(acc, file, tasks, t, i)) == repairs(acc),
    decreases t.depends_on.len() - i,
{
    if 0 <= i < t.depends_on.len() {
        lemma_codes();
        lemma_quiet();
        let next = diag::prerequisite_step(acc, file, tasks, t, i);
        assert(repairs(next) == repairs(acc));
        lemma_prerequisites(next, file, tasks, t, i + 1);
    }
}

proof fn lemma_references(
    acc: Seq<FindingView>,
    file: Seq<char>,
    tasks: Seq<TaskView>,
    milestones: Seq<MilestoneView>,
    t: TaskView,
)
    ensures
        repairs(diag::references_checked(acc, file, tasks, milestones, t)) == repairs(acc),
{
    lemma_codes();
    lemma_quiet();
    let a1 = diag::reference_checked(acc, file, tasks, "parent_id"@, t.parent_id);
    assert(repairs(a1) == repairs(acc));
    let a2 = diag::reference_checked(a1, file, tasks, "epic_id"@, t.epic_id);
    assert(repairs(a2) == repairs(acc));
    let a3 = diag::reference_checked(a2, file, tasks, "follow_up_of"@, t.follow_up_of);
    assert(repairs(a3) == repairs(acc));
    let a4 = diag::milestone_reference_checked(a3, file, milestones, t.milestone_id);
    assert(repairs(a4) == repairs(acc));
    lemma_dependencies(a4, file, tasks, t, 0);
    let a5 = diag::dependencies_checked(a4, file, tasks, t, 0);
    lemma_prerequisites(a5, file, tasks, t, 0);
}

proof fn lemma_files(
    acc: Seq<FindingView>,
    list: Seq<TaskFileView>,
    milestones: Seq<MilestoneView>,
    i: int,
)
    ensures
        repairs(diag::files_checked(acc, list, milestones, i)) == repairs(acc),
    decreases list.len() - i,
{
    if 0 <= i < list.len() {
        let tasks = diag::file_tasks(list);
        let next = match list[i].task {
            Some(t) => diag::references_checked(acc, list[i].rel, tasks, milestones, t),
            None => acc,
        };
        if let Some(t) = list[i].task {
            lemma_references(acc, list[i].rel, tasks, milestones, t);
        }
        lemma_files(next, list, milestones, i + 1);
    }
}

proof fn lemma_cycle(acc: Seq<FindingView>, list: Seq<TaskFileView>, cycle: Seq<i64>, i: int)
    ensures
        repairs(diag::cycle_checked(acc, list, cycle, i)) == repairs(acc),
    decreases cycle.len() - i,
{
    if 0 <= i < cycle.len() {
        lemma_codes();
        lemma_quiet();
        let next = match diag::find_file(list, cycle[i]) {
            Some(rel) => acc.push(
                diag::at_field(
                    diag::file_error(
                        rel,
                        "task.dependency_cycle"@,
                        "dependency cycle: "@ + text::joined(diag::hashed(cycle), " -> "@),
                        "remove one of the edges in the cycle"@,
                    ),
                    "depends_on"@,
                ),
            ),
            None => acc,
        };
        assert(repairs(next) == repairs(acc));
        lemma_cycle(next, list, cycle, i + 1);
    }
}

proof fn lemma_cross(
    acc: Seq<FindingView>,
    list: Seq<TaskFileView>,
    milestones: Seq<MilestoneView>,
)
    ensures
        repairs(diag::cross_checked(acc, list, milestones)) == repairs(acc),
{
    lemma_files(acc, list, milestones, 0);
    let referenced = diag::files_checked(acc, list, milestones, 0);
    let cycles = graph::all_cycles(diag::dependency_graph(diag::file_tasks(list)));
    if cycles.len() > 0 {
        lemma_cycle(referenced, list, cycles[0], 0);
    }
}

proof fn lemma_supersedes(
    acc: Seq<FindingView>,
    file: Seq<char>,
    kind: KnowledgeKind,
    entries: Seq<KnowledgeEntryView>,
    e: KnowledgeEntryView,
    i: int,
)
    ensures
        repairs(diag::supersedes_checked(acc, file, kind, entries, e, i)) == repairs(acc),
    decreases e.supersedes.len() - i,
{
    if 0 <= i < e.supersedes.len() {
        lemma_codes();
        lemma_quiet();
        let next = diag::supersedes_step(acc, file, kind, entries, e, i);
        assert(repairs(next) == repairs(acc));
        lemma_supersedes(next, file, kind, entries, e, i + 1);
    }
}

proof fn lemma_supersessions(
    acc: Seq<FindingView>,
    file: Seq<char>,
    kind: KnowledgeKind,
    entries: Seq<KnowledgeEntryView>,
    i: int,
)
    ensures
        repairs(diag::supersessions_checked(acc, file, kind, entries, i)) == repairs(acc),
    decreases entries.len() - i,
{
    if 0 <= i < entries.len() {
        lemma_supersedes(acc, file, kind, entries, entries[i], 0);
        let next = diag::supersedes_checked(acc, file, kind, entries, entries[i], 0);
        lemma_supersessions(next, file, kind, entries, i + 1);
    }
}

proof fn lemma_tags(acc: Seq<FindingView>, file: Seq<char>, f: EntriesFileView, i: int)
    ensures
        repairs(diag::tags_checked(acc, file, f, i)) == repairs(acc),
    decreases f.entries.len() - i,
{
    if 0 <= i < f.entries.len() {
        lemma_codes();
        lemma_quiet();
        let next = diag::tags_step(acc, file, f, i);
        assert(repairs(next) == repairs(acc));
        lemma_tags(next, file, f, i + 1);
    }
}

proof fn lemma_entries(
    acc: Seq<FindingView>,
    file: Seq<char>,
    kind: KnowledgeKind,
    tasks: Seq<TaskView>,
    entries: Seq<KnowledgeEntryView>,
    i: int,
)
    ensures
        repairs(diag::entries_checked(acc, file, kind, tasks, entries, i)) == repairs(acc),
    decreases entries.len() - i,
{
    if 0 <= i < entries.len() {
        lemma_codes();
        lemma_quiet();
        let e = entries[i];
        let a1 = diag::entry_id_checked(acc, file, kind, entries, i);
        assert(repairs(a1) == repairs(acc));
        let a2 = diag::stamp_checked(a1, file, "created_at"@, e.created_at);
        lemma_stamp(a1, file, "created_at"@, e.created_at);
        let a3 = diag::stamp_checked(a2, file, "updated_at"@, e.updated_at);
        lemma_stamp(a2, file, "updated_at"@, e.updated_at);
        let a4 = diag::related_task_checked(a3, file, kind, tasks, e);
        assert(repairs(a4) == repairs(acc));
        lemma_entries(a4, file, kind, tasks, entries, i + 1);
    }
}

proof fn lemma_kb_record(
    acc: Seq<FindingView>,
    kind: KnowledgeKind,
    tasks: Seq<TaskView>,
    f: EntriesFileView,
)
    ensures
        repairs(diag::kb_record_checked(acc, kind, tasks, f)) == repairs(acc),
{
    lemma_codes();
    lemma_quiet();
    let file = diag::kb_rel(kind);
    let a1 = diag::designation_checked(acc, file, f);
    assert(repairs(a1) == repairs(acc));
    lemma_supersessions(a1, file, kind, f.entries, 0);
    let a2 = diag::supersessions_checked(a1, file, kind, f.entries, 0);
    let a3 = if knowledge::first_supersession_cycle(f.entries) is Some {
        a2.push(
            diag::file_error(
                file,
                "kb.supersedes_cycle"@,
                "supersession references contain a cycle"@,
                "remove one of the supersedes edges in the cycle"@,
            ),
        )
    } else {
        a2
    };
    assert(repairs(a3) == repairs(acc));
    lemma_tags(a3, file, f, 0);
    let a4 = if kind == KnowledgeKind::Status {
        diag::tags_checked(a3, file, f, 0)
    } else {
        a3
    };
    lemma_entries(a4, file, kind, tasks, f.entries, 0);
}

proof fn lemma_kb(acc: Seq<FindingView>, tasks: Seq<TaskView>, s: Seq<KbSource>)
    ensures
        repairs(diag::kb_checked(acc, tasks, s)) == repairs(acc),
    decreases s.len(),
{
    if s.len() > 0 {
        lemma_codes();
        lemma_quiet();
        let front = diag::kb_checked(acc, tasks, s.drop_last());
        lemma_kb(acc, tasks, s.drop_last());
        let x = s.last();
        if let FileRead::Text(t) = x.read {
            let rel = diag::kb_rel(x.kind);
            let raw = doc::toml_reads(t@);
            lemma_array(front, rel, raw, diag::KNOWN_KB_ENTRY_FIELDS@, "entries"@);
            let known = diag::array_checked(
                front,
                rel,
                raw,
                diag::KNOWN_KB_ENTRY_FIELDS@,
                "entries"@,
            );
            if let Ok(f) = x.record {
                lemma_kb_record(known, x.kind, tasks, f@);
            }
        }
    }
}

/// A repair of a project proposes exactly the task files whose legacy `closed_at`
/// can be migrated, in order, each with the one operation there is; nothing else
/// that doctor finds is proposed.
pub proof fn law_repair_proposes_the_targets(p: ProjectFiles)
    ensures
        diag::repair_files(diag::inspected(p)) == targets(p.tasks@),
        diag::proposals(diag::inspected(p)) == targets(p.tasks@).map_values(
            |file: Seq<char>|
                RepairOpView {
                    file,
                    code: LEGACY@,
                    description: "migrate legacy closed_at to done_at and drop the legacy field"@,
                },
        ),
{
    let none = Seq::<FindingView>::empty();
    let list = diag::source_files(p.tasks@);
    let a1 = diag::project_checked(none, p.config);
    lemma_project(none, p.config);
    let a2 = diag::milestones_checked(a1, p.milestones);
    lemma_milestones(a1, p.milestones);
    let a3 = diag::sources_checked(a2, p.tasks@);
    lemma_sources(a2, p.tasks@);
    let a4 = diag::cross_checked(a3, list, diag::source_milestones(p.milestones));
    lemma_cross(a3, list, diag::source_milestones(p.milestones));
    lemma_kb(a4, diag::file_tasks(list), p.kb@);
    reveal(Seq::filter);
    assert(files(repairs(none)) =~= Seq::empty());
    let all = diag::inspected(p);
    assert(files(repairs(all)) == files(repairs(none)) + targets(p.tasks@));
    assert(files(repairs(none)) + targets(p.tasks@) =~= targets(p.tasks@));
    assert(diag::repair_files(all) =~= targets(p.tasks@));
    let f = repairs(all);
    assert forall|i: int| 0 <= i < f.len() implies (#[trigger] f[i]).code == LEGACY@ by {
        text::lemma_filter_keeps(all, |x: FindingView| diag::repairable(x), i);
    }
    assert forall|i: int| 0 <= i < f.len() implies f[i].file == #[trigger] targets(p.tasks@)[i] by {
        assert(files(f)[i] == f[i].file);
    }
    assert(files(f).len() == f.len());
    assert(diag::proposals(all) =~= targets(p.tasks@).map_values(
        |file: Seq<char>|
            RepairOpView {
                file,
                code: LEGACY@,
                description: "migrate legacy closed_at to done_at and drop the legacy field"@,
            },
    ));
}

/// Whether `after` is the task file `before` as an applied repair leaves it: a
/// target is read as its migrated document, and any other file is as it was.
pub open spec fn repaired_source(before: TaskSource, after: TaskSource) -> bool {
    &&& after.name@ == before.name@
    &&& match before.read {
        FileRead::Text(t) => after.read is Text && if is_target(before) {
            doc::toml_reads(after.read->Text_0@) == Ok::<DocView, Seq<char>>(
                diag::migrated(doc::toml_reads(t@)->Ok_0)->0,
            )
        } else {
            after.read->Text_0@ == t@
        },
        FileRead::Unreadable(_) => after.read is Unreadable,
        FileRead::Missing => after.read is Missing,
    }
}

/// Whether the task files of `after` are those of `before` as an applied repair
/// leaves them.
pub open spec fn repaired(before: Seq<TaskSource>, after: Seq<TaskSource>) -> bool {
    after.len() == before.len() && forall|i: int|
        0 <= i < before.len() ==> repaired_source(#[trigger] before[i], after[i])
}

/// Repair is idempotent for a whole project: after an applied repair a further
/// one proposes nothing and rewrites no file.
pub proof fn law_repair_is_idempotent(before: Seq<TaskSource>, after: ProjectFiles)
    requires
        repaired(before, after.tasks@),
    ensures
        diag::proposals(diag::inspected(after)) == Seq::<RepairOpView>::empty(),
        diag::without_repeats(
            order::sorted_by(diag::repair_files(diag::inspected(after)), order::text_order()),
        ) == Seq::<Seq<char>>::empty(),
{
    let s = after.tasks@;
    let keep = |x: TaskSource| is_target(x);
    assert forall|i: int| 0 <= i < s.len() implies !is_target(#[trigger] s[i]) by {
        assert(repaired_source(before[i], s[i]));
        if is_target(before[i]) {
            let d = doc::toml_reads(before[i].read->Text_0@)->Ok_0;
            assert(d is Table);
            assert(diag::migrated(d) is Some);
            diag::law_migration_preserves(d, "closed_at"@);
        }
    }
    assert(targets(s).len() == 0) by {
        let kept = s.filter(keep);
        if kept.len() > 0 {
            text::lemma_filter_keeps(s, keep, 0);
            let k = choose|k: int| 0 <= k < s.len() && s[k] == kept[0];
            assert(is_target(s[k]));
        }
    }
    law_repair_proposes_the_targets(after);
    assert(targets(s) =~= Seq::empty());
    assert(diag::proposals(diag::inspected(after)) =~= Seq::empty());
}

proof fn lemma_without_repeats_members(s: Seq<Seq<char>>, p: Seq<char>)
    ensures
        diag::without_repeats(s).contains(p) <==> s.contains(p),
        s.len() > 0 ==> diag::without_repeats(s).len() > 0,
    decreases s.len(),
{
    if s.len() > 1 {
        let front = s.drop_last();
        let r = diag::without_repeats(front);
        lemma_without_repeats_members(front, p);
        if s.contains(p) {
            let k = choose|k: int| 0 <= k < s.len() && s[k] == p;
            if k < s.len() - 1 {
                assert(front[k] == p);
            } else if s.last() == s[s.len() - 2] {
                assert(front[s.len() - 2] == p);
            } else {
                assert(r.push(s.last())[r.len() as int] == p);
            }
        }
        if front.contains(p) {
            let k = choose|k: int| 0 <= k < front.len() && front[k] == p;
            assert(s[k] == p);
            let j = choose|j: int| 0 <= j < r.len() && r[j] == p;
            assert(r.push(s.last())[j] == p);
        }
        if diag::without_repeats(s).contains(p) && s.last() != s[s.len() - 2] {
            let all = r.push(s.last());
            let j = choose|j: int| 0 <= j < all.len() && all[j] == p;
            if j < r.len() {
                assert(r[j] == p);
            } else {
                assert(s[s.len() - 1] == p);
            }
        }
    }
}

/// A dry run lists what an applied repair rewrites: a file is rewritten exactly
/// when an operation on it is proposed.
pub proof fn law_dry_run_lists_the_rewritten_files(f: Seq<FindingView>, file: Seq<char>)
    ensures
        diag::without_repeats(
            order::sorted_by(diag::repair_files(f), order::text_order()),
        ).contains(file) <==> exists|i: int|
            0 <= i < diag::proposals(f).len() && (#[trigger] diag::proposals(f)[i]).file == file,
{
    let listed = diag::repair_files(f);
    let sorted = order::sorted_by(listed, order::text_order());
    order::lemma_text_order();
    order::lemma_sorted(listed, order::text_order());
    lemma_without_repeats_members(sorted, file);
    broadcast use vstd::seq_lib::group_to_multiset_ensures;

    assert(sorted.contains(file) <==> sorted.to_multiset().count(file) > 0);
    assert(listed.contains(file) <==> listed.to_multiset().count(file) > 0);
    let ops = diag::proposals(f);
    assert(ops.len() == listed.len());
    assert forall|i: int| 0 <= i < ops.len() implies (#[trigger] ops[i]).file == listed[i] by {}
    if listed.contains(file) {
        let k = choose|k: int| 0 <= k < listed.len() && listed[k] == file;
        assert(ops[k].file == file);
    }
    if exists|i: int| 0 <= i < ops.len() && (#[trigger] ops[i]).file == file {
        let k = choose|k: int| 0 <= k < ops.len() && (#[trigger] ops[k]).file == file;
        assert(listed[k] == file);
    }
}

} // verus!
