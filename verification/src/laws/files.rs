//! Inspection of files: what is reported of the texts that a project is made of, and
//! what is not.
use vstd::prelude::*;

use crate::clock;
use crate::diag;
use crate::diag::{ConfigSource, FindingView, MilestonesSource, Severity};
use crate::doc;
use crate::doc::{DocView, FieldView};
use crate::laws::edits::is_time;
use crate::laws::inspection::{
    error_at, law_records_are_inspected, lemma_push, record_told, tells, warning_at, Told,
};
use crate::model::{MilestoneView, TaskView};
use crate::project;
use crate::project::{GitIntegration, ProjectConfigView};
use crate::text;

verus! {

/// An error about a whole file.
pub open spec fn error_of(file: Seq<char>, code: Seq<char>) -> Told {
    Told { severity: Severity::Error, file, code, field: None }
}

/// A warning about a whole file.
pub open spec fn warning_of(file: Seq<char>, code: Seq<char>) -> Told {
    Told { severity: Severity::Warning, file, code, field: None }
}

/// Whether a name is that of a field of a task record.
pub open spec fn is_task_field(n: Seq<char>) -> bool {
    ||| n == "id"@ || n == "title"@ || n == "description"@ || n == "status"@ || n == "blocked"@
    ||| n == "block_reason"@ || n == "acceptance"@ || n == "context"@ || n == "assignee"@
    ||| n == "priority"@ || n == "labels"@ || n == "estimate_points"@ || n == "estimate_hours"@
    ||| n == "deadline"@ || n == "links"@ || n == "parent_id"@ || n == "epic_id"@
    ||| n == "milestone_id"@ || n == "depends_on"@ || n == "report_result"@
    ||| n == "report_problems"@ || n == "report_ideas"@ || n == "report_decisions"@
    ||| n == "report_validation"@ || n == "created_at"@ || n == "started_at"@ || n == "done_at"@
    ||| n == "actor"@ || n == "updated_at"@ || n == "follow_up_of"@ || n == "git_diagnostics"@
    ||| n == "history"@
}

/// Whether a name is that of a field of a config.
pub open spec fn is_config_field(n: Seq<char>) -> bool {
    n == "name"@ || n == "description"@ || n == "goal"@ || n == "git_repo"@ || n
        == "branch_template"@ || n == "git_integration"@ || n == "links"@
}

/// Whether a name is that of a field of an entry.
pub open spec fn is_entry_field(n: Seq<char>) -> bool {
    n == "id"@ || n == "kind"@ || n == "title"@ || n == "content"@ || n == "tags"@ || n
        == "related_task"@ || n == "supersedes"@ || n == "commit"@ || n == "actor"@ || n
        == "created_at"@ || n == "updated_at"@
}

/// Whether a name is that of a field of a milestone.
pub open spec fn is_milestone_field(n: Seq<char>) -> bool {
    n == "id"@ || n == "name"@ || n == "target_date"@ || n == "done_at"@ || n == "created_at"@
}

/// The fields of a task record are known, the legacy completion time is known as
/// such, and no other name is.
pub proof fn law_task_fields_are_known(n: Seq<char>)
    ensures
        text::listed(n, diag::KNOWN_TASK_FIELDS@) <==> is_task_field(n),
        text::listed(n, diag::LEGACY_TASK_FIELDS@) <==> n == "closed_at"@,
{
    let l = diag::KNOWN_TASK_FIELDS@;
    assert(l[0]@ == "id"@ && l[1]@ == "title"@ && l[2]@ == "description"@ && l[3]@ == "status"@);
    assert(l[4]@ == "blocked"@ && l[5]@ == "block_reason"@ && l[6]@ == "acceptance"@);
    assert(l[7]@ == "context"@ && l[8]@ == "assignee"@ && l[9]@ == "priority"@);
    assert(l[10]@ == "labels"@ && l[11]@ == "estimate_points"@ && l[12]@ == "estimate_hours"@);
    assert(l[13]@ == "deadline"@ && l[14]@ == "links"@ && l[15]@ == "parent_id"@);
    assert(l[16]@ == "epic_id"@ && l[17]@ == "milestone_id"@ && l[18]@ == "depends_on"@);
    assert(l[19]@ == "report_result"@ && l[20]@ == "report_problems"@);
    assert(l[21]@ == "report_ideas"@ && l[22]@ == "report_decisions"@);
    assert(l[23]@ == "report_validation"@ && l[24]@ == "created_at"@ && l[25]@ == "started_at"@);
    assert(l[26]@ == "done_at"@ && l[27]@ == "actor"@ && l[28]@ == "updated_at"@);
    assert(l[29]@ == "follow_up_of"@ && l[30]@ == "git_diagnostics"@ && l[31]@ == "history"@);
    assert(diag::LEGACY_TASK_FIELDS@[0]@ == "closed_at"@);
}

/// The fields of a config, an entry and a milestone are known, and no other name is.
pub proof fn law_other_fields_are_known(n: Seq<char>)
    ensures
        text::listed(n, diag::KNOWN_CONFIG_FIELDS@) <==> is_config_field(n),
        text::listed(n, diag::KNOWN_KB_ENTRY_FIELDS@) <==> is_entry_field(n),
        text::listed(n, diag::KNOWN_MILESTONE_FIELDS@) <==> is_milestone_field(n),
        !text::listed(n, diag::NO_LEGACY_FIELDS@),
{
    let c = diag::KNOWN_CONFIG_FIELDS@;
    assert(c[0]@ == "name"@ && c[1]@ == "description"@ && c[2]@ == "goal"@ && c[3]@ == "git_repo"@);
    assert(c[4]@ == "branch_template"@ && c[5]@ == "git_integration"@ && c[6]@ == "links"@);
    let e = diag::KNOWN_KB_ENTRY_FIELDS@;
    assert(e[0]@ == "id"@ && e[1]@ == "kind"@ && e[2]@ == "title"@ && e[3]@ == "content"@);
    assert(e[4]@ == "tags"@ && e[5]@ == "related_task"@ && e[6]@ == "supersedes"@);
    assert(e[7]@ == "commit"@ && e[8]@ == "actor"@ && e[9]@ == "created_at"@);
    assert(e[10]@ == "updated_at"@);
    let m = diag::KNOWN_MILESTONE_FIELDS@;
    assert(m[0]@ == "id"@ && m[1]@ == "name"@ && m[2]@ == "target_date"@ && m[3]@ == "done_at"@);
    assert(m[4]@ == "created_at"@);
}

/// Whether a field of that name is there and neither known nor legacy.
pub open spec fn stray(
    fields: Seq<FieldView>,
    known: Seq<&str>,
    legacy: Seq<&str>,
    n: Seq<char>,
) -> bool {
    &&& exists|k: int| 0 <= k < fields.len() && (#[trigger] fields[k]).name == n
    &&& !text::listed(n, known) && !text::listed(n, legacy)
}

/// Each field that is neither known nor legacy is reported under its name, as a
/// warning, and nothing else is.
pub proof fn law_stray_fields_are_reported(
    acc: Seq<FindingView>,
    file: Seq<char>,
    fields: Seq<FieldView>,
    known: Seq<&str>,
    legacy: Seq<&str>,
    what: Seq<char>,
    x: Told,
)
    ensures
        tells(diag::fields_checked(acc, file, fields, known, legacy, what), x) <==> tells(acc, x)
            || (x.field is Some && stray(fields, known, legacy, x.field->0) && x == warning_at(
            file,
            "value.unknown_field"@,
            x.field->0,
        )),
    decreases fields.len(),
{
    if fields.len() > 0 {
        let key = fields[0].name;
        let rest = fields.skip(1);
        let next = if text::listed(key, known) || text::listed(key, legacy) {
            acc
        } else {
            acc.push(diag::unknown_field(file, what, key))
        };
        lemma_push(acc, diag::unknown_field(file, what, key), x);
        law_stray_fields_are_reported(next, file, rest, known, legacy, what, x);
        if let Some(n) = x.field {
            if exists|k: int| 0 <= k < fields.len() && (#[trigger] fields[k]).name == n {
                let k = choose|k: int| 0 <= k < fields.len() && (#[trigger] fields[k]).name == n;
                if k > 0 {
                    assert(rest[k - 1] == fields[k]);
                }
            }
            if exists|k: int| 0 <= k < rest.len() && (#[trigger] rest[k]).name == n {
                let k = choose|k: int| 0 <= k < rest.len() && (#[trigger] rest[k]).name == n;
                assert(fields[k + 1] == rest[k]);
            }
        }
    }
}

/// Whether a legacy completion time beside `done_at` is reported as `x`: an error
/// where it is no timestamp or another one, a warning that repair can settle where it
/// stands alone or is the same.
pub open spec fn legacy_told(
    file: Seq<char>,
    done: Option<Seq<char>>,
    closed: Option<DocView>,
    x: Told,
) -> bool {
    let s = match closed {
        Some(DocView::Text(s)) => s,
        _ => ""@,
    };
    let same = done is Some && (done->0 == s || same_time(done->0, s));
    ||| closed is Some && !is_time(s) && x == error_at(file, "value.invalid_timestamp"@, "closed_at"@)
    ||| closed is Some && is_time(s) && (done is None || same) && x == warning_at(
        file,
        "task.legacy_closed_at"@,
        "closed_at"@,
    )
    ||| closed is Some && is_time(s) && done is Some && !same && x == error_at(
        file,
        "task.closed_at_conflict"@,
        "closed_at"@,
    )
}

/// Whether two texts are the same timestamp, with an offset or naive.
pub open spec fn same_time(a: Seq<char>, b: Seq<char>) -> bool {
    let naive = "%Y-%m-%dT%H:%M:%S"@;
    clock::rfc3339(a) == clock::rfc3339(b) && (clock::rfc3339(a) is Some || clock::naive_time(
        a,
        naive,
    ) == clock::naive_time(b, naive))
}

/// A legacy completion time is reported exactly as it stands to `done_at`.
pub proof fn law_legacy_times_are_reported(
    acc: Seq<FindingView>,
    file: Seq<char>,
    done_at: Option<DocView>,
    closed_at: Option<DocView>,
    x: Told,
)
    ensures
        tells(diag::legacy_checked(acc, file, done_at, closed_at), x) <==> tells(acc, x)
            || legacy_told(
            file,
            match done_at {
                Some(DocView::Text(s)) => Some(s),
                _ => None,
            },
            closed_at,
            x,
        ),
{
    let all = diag::legacy_checked(acc, file, done_at, closed_at);
    if closed_at is Some {
        assert(all =~= acc.push(all.last()));
        lemma_push(acc, all.last(), x);
    }
}

/// Whether the text of a task file is reported as `x`, given its document and its
/// record.
pub open spec fn task_text_told(
    file: Seq<char>,
    file_id: Option<i64>,
    d: DocView,
    record: Result<TaskView, Seq<char>>,
    x: Told,
) -> bool {
    let done = match doc::field_of(d, "done_at"@) {
        Some(DocView::Text(s)) => Some(s),
        _ => None,
    };
    ||| record is Err && x == error_of(file, "task.invalid_value"@)
    ||| d is Table && x.field is Some && !is_task_field(x.field->0) && x.field->0 != "closed_at"@
        && (exists|k: int| 0 <= k < d->Table_0.len() && (#[trigger] d->Table_0[k]).name == x.field->0)
        && x == warning_at(file, "value.unknown_field"@, x.field->0)
    ||| legacy_told(file, done, doc::field_of(d, "closed_at"@), x)
    ||| record matches Ok(t) && record_told(file, file_id, t, x)
}

/// A task file that is no document is reported as that alone; of any other, a record
/// that is none, stray fields, a legacy completion time and what is wrong with the
/// record are.
pub proof fn law_task_texts_are_inspected(
    acc: Seq<FindingView>,
    name: Seq<char>,
    raw: Result<DocView, Seq<char>>,
    record: Result<TaskView, Seq<char>>,
    x: Told,
)
    ensures
        ({
            let file = diag::task_rel(name);
            let id = text::integer(diag::stem_of(name));
            let all = diag::task_text_checked(acc, name, raw, record);
            &&& raw is Err ==> (tells(all, x) <==> tells(acc, x) || x == error_of(
                file,
                "task.parse_error"@,
            ))
            &&& raw matches Ok(d) ==> (tells(all, x) <==> tells(acc, x) || task_text_told(
                file,
                id,
                d,
                record,
                x,
            ))
        }),
{
    let file = diag::task_rel(name);
    let id = text::integer(diag::stem_of(name));
    let all = diag::task_text_checked(acc, name, raw, record);
    match raw {
        Err(e) => {
            assert(all =~= acc.push(all.last()));
            lemma_push(acc, all.last(), x);
        },
        Ok(d) => {
            let typed = match record {
                Err(e) => acc.push(
                    diag::file_error(
                        file,
                        "task.invalid_value"@,
                        "task record invalid: "@ + e,
                        "fix the offending field value (see message)"@,
                    ),
                ),
                Ok(_) => acc,
            };
            if record is Err {
                assert(typed =~= acc.push(typed.last()));
                lemma_push(acc, typed.last(), x);
            }
            let known = diag::unknown_checked(
                typed,
                file,
                d,
                diag::KNOWN_TASK_FIELDS@,
                diag::LEGACY_TASK_FIELDS@,
                "task"@,
            );
            if let DocView::Table(f) = d {
                law_stray_fields_are_reported(
                    typed,
                    file,
                    f,
                    diag::KNOWN_TASK_FIELDS@,
                    diag::LEGACY_TASK_FIELDS@,
                    "task"@,
                    x,
                );
                if let Some(n) = x.field {
                    law_task_fields_are_known(n);
                }
            }
            let done = doc::field_of(d, "done_at"@);
            let closed = doc::field_of(d, "closed_at"@);
            let legacy = diag::legacy_checked(known, file, done, closed);
            law_legacy_times_are_reported(known, file, done, closed, x);
            if let Ok(t) = record {
                law_records_are_inspected(legacy, file, id, t, x);
            }
        },
    }
}

/// A task file whose name is no number is reported.
pub proof fn law_task_names_are_inspected(acc: Seq<FindingView>, name: Seq<char>, x: Told)
    ensures
        tells(diag::name_checked(acc, name), x) <==> tells(acc, x) || text::integer(
            diag::stem_of(name),
        ) is None && x == warning_of(diag::task_rel(name), "task.nonnumeric_filename"@),
{
    let all = diag::name_checked(acc, name);
    if text::integer(diag::stem_of(name)) is None {
        assert(all =~= acc.push(all.last()));
        lemma_push(acc, all.last(), x);
    }
}

/// A missing config and a missing folder of tasks are reported, and nothing else of
/// the layout is.
pub proof fn law_layout_is_inspected(
    acc: Seq<FindingView>,
    has_config: bool,
    has_tasks: bool,
    x: Told,
)
    ensures
        tells(diag::layout_checked(acc, has_config, has_tasks), x) <==> tells(acc, x) || !has_config
            && x == error_of(diag::config_rel(), "project.missing_config"@) || !has_tasks && x
            == error_of(
            project::inside(".nest"@, "tasks"@),
            "project.missing_tasks_dir"@,
        ),
{
    let a = diag::layout_checked(acc, has_config, true);
    let all = diag::layout_checked(acc, has_config, has_tasks);
    if !has_config {
        assert(a =~= acc.push(a.last()));
        lemma_push(acc, a.last(), x);
    }
    if !has_tasks {
        assert(all =~= a.push(all.last()));
        lemma_push(a, all.last(), x);
    }
}

/// Whether automation is in effect.
pub open spec fn is_automatic(c: ProjectConfigView) -> bool {
    project::effective_integration(c) == GitIntegration::Auto
}

/// A config that cannot be read is reported as that alone; of any other, stray fields
/// are, and automation in a folder that is no repository.
pub proof fn law_config_is_inspected(acc: Seq<FindingView>, s: ConfigSource, x: Told)
    ensures
        ({
            let base = diag::layout_checked(acc, s.has_config, s.has_tasks);
            let all = diag::project_checked(acc, s);
            let file = diag::config_rel();
            let d = diag::opt_read(text::opt_text(s.text));
            &&& s.record is Err ==> (tells(all, x) <==> tells(base, x) || x == error_of(
                file,
                "config.parse_error"@,
            ))
            &&& s.record matches Ok(c) ==> (tells(all, x) <==> {
                ||| tells(base, x)
                ||| d is Some && d->0 is Table && x.field is Some && !is_config_field(x.field->0)
                    && (exists|k: int|
                    0 <= k < d->0->Table_0.len() && (#[trigger] d->0->Table_0[k]).name
                        == x.field->0) && x == warning_at(
                    file,
                    "value.unknown_field"@,
                    x.field->0,
                )
                ||| is_automatic(c@) && !s.has_git && x == warning_of(file, "project.git_missing"@)
            })
        }),
{
    let base = diag::layout_checked(acc, s.has_config, s.has_tasks);
    let all = diag::project_checked(acc, s);
    let file = diag::config_rel();
    let d = diag::opt_read(text::opt_text(s.text));
    match s.record {
        Err(e) => {
            assert(all =~= base.push(all.last()));
            lemma_push(base, all.last(), x);
        },
        Ok(c) => {
            let known = match d {
                Some(v) => diag::unknown_checked(
                    base,
                    file,
                    v,
                    diag::KNOWN_CONFIG_FIELDS@,
                    diag::NO_LEGACY_FIELDS@,
                    "config"@,
                ),
                None => base,
            };
            if let Some(DocView::Table(f)) = d {
                law_stray_fields_are_reported(
                    base,
                    file,
                    f,
                    diag::KNOWN_CONFIG_FIELDS@,
                    diag::NO_LEGACY_FIELDS@,
                    "config"@,
                    x,
                );
                if let Some(n) = x.field {
                    law_other_fields_are_known(n);
                }
            }
            if is_automatic(c@) && !s.has_git {
                assert(all =~= known.push(all.last()));
                lemma_push(known, all.last(), x);
            }
        },
    }
}

/// Whether the id of the `k`-th milestone came before.
pub open spec fn comes_again(m: Seq<MilestoneView>, k: int) -> bool {
    exists|j: int| 0 <= j < k && (#[trigger] m[j]).id == m[k].id
}

/// Milestones with the same id are reported, and nothing else of their ids is.
pub proof fn law_milestone_ids_are_inspected(
    acc: Seq<FindingView>,
    m: Seq<MilestoneView>,
    i: int,
    x: Told,
)
    requires
        0 <= i <= m.len(),
    ensures
        tells(diag::milestone_ids_checked(acc, m, i), x) <==> tells(acc, x) || (x == error_at(
            diag::milestones_rel(),
            "milestone.duplicate_id"@,
            "id"@,
        ) && exists|k: int| i <= k < m.len() && #[trigger] comes_again(m, k)),
    decreases m.len() - i,
{
    if i < m.len() {
        let f = diag::at_field(
            diag::file_error(
                diag::milestones_rel(),
                "milestone.duplicate_id"@,
                "duplicate milestone id "@ + text::decimal(m[i].id as int),
                "renumber one of the milestones"@,
            ),
            "id"@,
        );
        lemma_push(acc, f, x);
        let next = if comes_again(m, i) {
            acc.push(f)
        } else {
            acc
        };
        law_milestone_ids_are_inspected(next, m, i + 1, x);
        if exists|k: int| i <= k < m.len() && #[trigger] comes_again(m, k) {
            let k = choose|k: int| i <= k < m.len() && #[trigger] comes_again(m, k);
            if k > i {
                assert(comes_again(m, k));
            }
        }
    }
}

/// Where there are no milestones nothing is reported of them, and a file of them that
/// cannot be read is reported as that alone.
pub proof fn law_milestones_are_inspected(acc: Seq<FindingView>, s: MilestonesSource, x: Told)
    ensures
        ({
            let all = diag::milestones_checked(acc, s);
            let file = diag::milestones_rel();
            &&& s.read is Missing ==> all == acc
            &&& s.read is Unreadable ==> (tells(all, x) <==> tells(acc, x) || x == error_of(
                file,
                "milestones.read_error"@,
            ))
            &&& s.read is Text && s.record is Err ==> tells(
                all,
                error_of(file, "milestones.parse_error"@),
            )
        }),
{
    let all = diag::milestones_checked(acc, s);
    if s.read is Unreadable {
        assert(all =~= acc.push(all.last()));
        lemma_push(acc, all.last(), x);
    }
    if s.read is Text && s.record is Err {
        let y = error_of(diag::milestones_rel(), "milestones.parse_error"@);
        let front = all.drop_last();
        assert(all =~= front.push(all.last()));
        lemma_push(front, all.last(), y);
    }
}

/// The documents that a repair rewrites are tables with a legacy completion time; the
/// time moves to `done_at` where there is none, and is dropped where there is one.
pub proof fn law_migration_moves_the_time(f: Seq<FieldView>)
    ensures
        ({
            let closed = doc::lookup(f, "closed_at"@);
            let done = doc::lookup(f, "done_at"@);
            let out = diag::migrated(DocView::Table(f));
            &&& out is Some <==> closed is Some
            &&& out matches Some(m) ==> {
                &&& doc::field_of(m, "closed_at"@) is None
                &&& done is None ==> doc::field_of(m, "done_at"@) == closed
                &&& done is Some ==> doc::field_of(m, "done_at"@) == done
            }
        }),
{
    let closed = doc::lookup(f, "closed_at"@);
    if closed is Some {
        let rest = doc::without(f, "closed_at"@);
        reveal_strlit("closed_at");
        reveal_strlit("done_at");
        assert("closed_at"@.len() == 9 && "done_at"@.len() == 7);
        doc::law_without(f, "closed_at"@, "closed_at"@);
        doc::law_without(f, "closed_at"@, "done_at"@);
        let n = FieldView { name: "done_at"@, value: closed->0 };
        doc::law_put(rest, n, "closed_at"@);
        doc::law_put(rest, n, "done_at"@);
    }
}

} // verus!
