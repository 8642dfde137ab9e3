//! Views: what the contracts say of a value is what the value holds, field by field.
use vstd::prelude::*;

use crate::error::Error;
use crate::knowledge;
use crate::knowledge::{CurrentSummary, EntriesFile};
use crate::model::{KnowledgeEntry, LifecycleEvent, ReportSnapshot, Task};
use crate::service;
use crate::service::{PatchField, ReportUpdate, TaskPatch};

verus! {

/// Whether an optional text is held as it is.
pub open spec fn holds_opt(o: Option<String>, v: Option<Seq<char>>) -> bool {
    match o {
        Some(s) => v == Some(s@),
        None => v is None,
    }
}

/// Whether a list of texts is held as it is, in order.
pub open spec fn holds_list(l: Vec<String>, v: Seq<Seq<char>>) -> bool {
    v.len() == l@.len() && forall|i: int| 0 <= i < v.len() ==> #[trigger] v[i] == l@[i]@
}

/// Whether an optional list of texts is held as it is.
pub open spec fn holds_opt_list(o: Option<Vec<String>>, v: Option<Seq<Seq<char>>>) -> bool {
    match o {
        Some(l) => v is Some && holds_list(l, v->0),
        None => v is None,
    }
}

/// Whether a patch of a text is held as it is: absent, null or a value.
pub open spec fn holds_text_patch(p: PatchField<String>, v: PatchField<Seq<char>>) -> bool {
    match p {
        PatchField::Absent => v is Absent,
        PatchField::Null => v is Null,
        PatchField::Value(s) => v == PatchField::Value(s@),
    }
}

/// Whether a patch of a list is held as it is.
pub open spec fn holds_list_patch(
    p: PatchField<Vec<String>>,
    v: PatchField<Seq<Seq<char>>>,
) -> bool {
    match p {
        PatchField::Absent => v is Absent,
        PatchField::Null => v is Null,
        PatchField::Value(l) => v matches PatchField::Value(w) && holds_list(l, w),
    }
}

/// A patch is seen as it is given.
pub proof fn law_patch_is_seen(p: TaskPatch)
    ensures
        holds_text_patch(p.title, p@.title),
        holds_text_patch(p.description, p@.description),
        holds_list_patch(p.acceptance, p@.acceptance),
        holds_text_patch(p.context, p@.context),
        holds_text_patch(p.assignee, p@.assignee),
        holds_text_patch(p.priority, p@.priority),
        holds_list_patch(p.labels, p@.labels),
        p@.estimate_points == p.estimate_points,
        holds_text_patch(p.estimate_hours, p@.estimate_hours),
        holds_text_patch(p.deadline, p@.deadline),
        holds_list_patch(p.links, p@.links),
        p@.parent_id == p.parent_id,
        p@.epic_id == p.epic_id,
        p@.milestone_id == p.milestone_id,
        match p.depends_on {
            PatchField::Absent => p@.depends_on is Absent,
            PatchField::Null => p@.depends_on is Null,
            PatchField::Value(l) => p@.depends_on == PatchField::Value(l@),
        },
{
}

/// A report update is seen as it is given.
pub proof fn law_report_update_is_seen(u: ReportUpdate)
    ensures
        holds_opt(u.result, u@.result),
        holds_opt(u.validation, u@.validation),
        holds_opt_list(u.problems, u@.problems),
        holds_opt_list(u.ideas, u@.ideas),
        holds_opt_list(u.decisions, u@.decisions),
{
}

/// A task is seen as it is.
pub proof fn law_task_is_seen(t: Task)
    ensures
        t@.id == t.id && t@.title == t.title@ && t@.description == t.description@,
        t@.status == t.status && t@.blocked == t.blocked && holds_opt(
            t.block_reason,
            t@.block_reason,
        ),
        holds_list(t.acceptance, t@.acceptance) && t@.context == t.context@,
        holds_opt(t.assignee, t@.assignee) && t@.priority == t.priority,
        holds_list(t.labels, t@.labels) && t@.estimate_points == t.estimate_points,
        holds_opt(t.estimate_hours, t@.estimate_hours) && holds_opt(t.deadline, t@.deadline),
        holds_list(t.links, t@.links) && t@.parent_id == t.parent_id && t@.epic_id == t.epic_id,
        t@.milestone_id == t.milestone_id && t@.depends_on == t.depends_on@,
        holds_opt(t.report_result, t@.report_result),
        holds_opt(t.report_validation, t@.report_validation),
        holds_list(t.report_problems, t@.report_problems),
        holds_list(t.report_ideas, t@.report_ideas),
        holds_list(t.report_decisions, t@.report_decisions),
        t@.created_at == t.created_at@ && t@.updated_at == t.updated_at@,
        holds_opt(t.started_at, t@.started_at) && holds_opt(t.done_at, t@.done_at),
        t@.follow_up_of == t.follow_up_of && holds_opt(t.actor, t@.actor),
        t@.git_diagnostics.len() == t.git_diagnostics@.len(),
        forall|i: int|
            0 <= i < t.git_diagnostics@.len() ==> (#[trigger] t@.git_diagnostics[i]).operation
                == t.git_diagnostics@[i].operation@ && t@.git_diagnostics[i].message
                == t.git_diagnostics@[i].message@ && t@.git_diagnostics[i].at
                == t.git_diagnostics@[i].at@,
        t@.history.len() == t.history@.len(),
        forall|i: int| 0 <= i < t.history@.len() ==> #[trigger] t@.history[i] == t.history@[i]@,
{
}

/// An event of a history is seen as it is, with the report that it preserves.
pub proof fn law_event_is_seen(e: LifecycleEvent)
    ensures
        e@.at == e.at@ && e@.actor == e.actor@ && e@.from == e.from && e@.to == e.to,
        holds_opt(e.reason, e@.reason) && holds_opt(e.prior_done_at, e@.prior_done_at),
        e.prior_report matches Some(r) ==> e@.prior_report == Some(r@),
        e.prior_report is None ==> e@.prior_report is None,
{
}

/// A preserved report is seen as it is.
pub proof fn law_snapshot_is_seen(r: ReportSnapshot)
    ensures
        holds_opt(r.result, r@.result) && holds_opt(r.validation, r@.validation),
        holds_list(r.problems, r@.problems) && holds_list(r.ideas, r@.ideas),
        holds_list(r.decisions, r@.decisions) && holds_list(r.links, r@.links),
{
}

/// An entry is seen as it is.
pub proof fn law_entry_is_seen(e: KnowledgeEntry)
    ensures
        e@.id == e.id && e@.kind == e.kind && e@.title == e.title@ && e@.content == e.content@,
        holds_list(e.tags, e@.tags) && e@.related_task == e.related_task,
        e@.supersedes == e.supersedes@,
        holds_opt(e.commit, e@.commit) && holds_opt(e.actor, e@.actor),
        e@.created_at == e.created_at@ && e@.updated_at == e.updated_at@,
{
}

/// A file of entries is seen as it is: its entries in order, and its designation.
pub proof fn law_entries_file_is_seen(f: EntriesFile)
    ensures
        f@.entries.len() == f.entries@.len(),
        forall|i: int| 0 <= i < f.entries@.len() ==> #[trigger] f@.entries[i] == f.entries@[i]@,
        f.current_summary matches Some(s) ==> f@.current_summary == Some(s@),
        f.current_summary is None ==> f@.current_summary is None,
{
}

/// A designation is seen as it is.
pub proof fn law_summary_is_seen(s: CurrentSummary)
    ensures
        s@.entry_id == s.entry_id && s@.set_at == s.set_at@ && s@.set_by == s.set_by@,
        holds_opt(s.commit, s@.commit),
{
}

/// What comes of an operation is seen as it is: the value, or the message of the
/// error.
pub proof fn law_outcomes_are_seen(
    t: Result<Task, Error>,
    e: Result<Vec<KnowledgeEntry>, Error>,
    f: Result<EntriesFile, Error>,
    s: Result<CurrentSummary, Error>,
)
    ensures
        match t {
            Ok(v) => service::outcome(t) matches Ok(w) && w == v@,
            Err(m) => service::outcome(t) matches Err(w) && w == m.message@,
        },
        match e {
            Ok(v) => knowledge::entries_outcome(e) matches Ok(w) && w.len() == v@.len()
                && forall|i: int| 0 <= i < w.len() ==> #[trigger] w[i] == v@[i]@,
            Err(m) => knowledge::entries_outcome(e) matches Err(w) && w == m.message@,
        },
        match f {
            Ok(v) => knowledge::file_outcome(f) matches Ok(w) && w == v@,
            Err(m) => knowledge::file_outcome(f) matches Err(w) && w == m.message@,
        },
        match s {
            Ok(v) => knowledge::summary_outcome(s) matches Ok(w) && w == v@,
            Err(m) => knowledge::summary_outcome(s) matches Err(w) && w == m.message@,
        },
{
}

} // verus!
