//! Readings: how timestamps are read on a machine, what that says of a summary, and
//! what an action leaves where it is refused.
use vstd::prelude::*;

use crate::clock;
use crate::clock::Instant;
use crate::error::Error;
use crate::knowledge;
use crate::knowledge::{CurrentStatusView, EntriesFileView, FreshnessView, PlacedEntryView};
use crate::laws::entries::{changed_after, law_freshness, lies_after};
use crate::model;
use crate::model::{TaskAction, TaskView, TimesView};
use crate::service;
use crate::text;

verus! {

/// A timestamp with an offset is read as the instant that it is, on every machine; a
/// text that is no timestamp as none; a naive timestamp as an instant less than a day
/// away, if any.
pub proof fn law_timestamps_are_read(ts: Seq<char>, t: Option<Instant>)
    ensures
        ({
            let naive = clock::naive_time(ts, "%Y-%m-%dT%H:%M:%S"@);
            &&& clock::rfc3339(ts) is Some ==> (knowledge::reads_as(ts, t) <==> t
                == clock::rfc3339(ts))
            &&& clock::rfc3339(ts) is None && naive is None ==> (knowledge::reads_as(ts, t)
                <==> t is None)
            &&& clock::rfc3339(ts) is None && naive is Some ==> (knowledge::reads_as(ts, t) <==> (
            t matches Some(i) ==> naive->0.secs - 86400 < i.secs < naive->0.secs + 86400 && i.nanos
                == naive->0.nanos))
        }),
{
}

/// On every machine, a task or another entry whose last change has an offset and lies
/// after a reference with an offset is listed, and makes the summary possibly stale.
pub proof fn law_later_changes_are_listed(
    s: CurrentStatusView,
    tasks: Seq<TaskView>,
    kb: Seq<PlacedEntryView>,
    head: Option<Seq<char>>,
    f: FreshnessView,
    k: int,
)
    requires
        knowledge::fresh_for_some_reading(s, tasks, kb, head, f),
    ensures
        ({
            let at = clock::rfc3339(
                if s.designation is Some {
                    s.designation->0.set_at
                } else {
                    s.entry.updated_at
                },
            );
            &&& at is Some && 0 <= k < tasks.len() && lies_after(
                clock::rfc3339(tasks[k].updated_at),
                at->0,
            ) ==> f.tasks_updated_after.contains(tasks[k].id) && f.possibly_stale
            &&& at is Some && 0 <= k < kb.len() && changed_after(
                kb[k],
                clock::rfc3339(kb[k].entry.updated_at),
                at->0,
                s.entry.id,
            ) ==> f.kb_updated_after.contains(
                model::kind_name(kb[k].kind) + "#"@ + text::decimal(kb[k].entry.id as int),
            ) && f.possibly_stale
            &&& f.head_commit == head
        }),
{
    let (reference, task_times, kb_times) = choose|
        reference: Option<Instant>,
        task_times: Seq<Option<Instant>>,
        kb_times: Seq<Option<Instant>>,
    |
        knowledge::reads_as(knowledge::reference_of(s), reference) && knowledge::task_times_read(
            tasks,
            task_times,
        ) && knowledge::entry_times_read(kb, kb_times) && f == #[trigger] knowledge::freshness(
            s,
            reference,
            tasks,
            task_times,
            kb,
            kb_times,
            head,
        );
    let id = if 0 <= k < tasks.len() {
        tasks[k].id
    } else {
        0
    };
    let label = if 0 <= k < kb.len() {
        model::kind_name(kb[k].kind) + "#"@ + text::decimal(kb[k].entry.id as int)
    } else {
        Seq::empty()
    };
    law_freshness(s, reference, tasks, task_times, kb, kb_times, head, id, label);
    law_timestamps_are_read(knowledge::reference_of(s), reference);
    if 0 <= k < tasks.len() {
        assert(knowledge::reads_as(tasks[k].updated_at, task_times[k]));
        law_timestamps_are_read(tasks[k].updated_at, task_times[k]);
    }
    if 0 <= k < kb.len() {
        assert(knowledge::reads_as(kb[k].entry.updated_at, kb_times[k]));
        law_timestamps_are_read(kb[k].entry.updated_at, kb_times[k]);
    }
}

/// A project has a summary exactly when its file has a current status, and it is that
/// status.
pub proof fn law_summary_of_a_project(
    file: EntriesFileView,
    all: Seq<TaskView>,
    kb: Seq<PlacedEntryView>,
    head: Option<Seq<char>>,
    summary: Option<(CurrentStatusView, FreshnessView)>,
)
    requires
        service::summarises(file, all, kb, head, summary),
    ensures
        summary is Some <==> file.entries.len() > 0,
        summary matches Some((s, f)) ==> knowledge::status_of(file) == Some(s)
            && knowledge::fresh_for_some_reading(s, all, kb, head, f),
{
    crate::laws::entries::law_current_status(file);
}

/// An action either does what it does and answers nothing, or changes nothing and
/// answers why.
pub proof fn law_refused_actions_change_nothing(
    before: TaskView,
    action: TaskAction,
    actor: Seq<char>,
    reason: Option<Seq<char>>,
    times: TimesView,
    after: TaskView,
    r: Result<(), Error>,
)
    requires
        model::apply_outcome(before, action, actor, reason, times, after, r),
    ensures
        r is Err ==> after == before,
        r is Ok ==> after == model::applied(before, action, actor, reason, times),
        r is Ok <==> model::refusal(before, action, reason) is None,
        r matches Err(e) ==> model::refusal(before, action, reason) == Some(e.message@),
{
}

/// The times of a transition are timestamps as the clock gives them, every one: each
/// ends in an offset.
pub proof fn law_transitions_are_stamped(t: TimesView)
    requires
        model::stamped(t),
    ensures
        clock::is_stamp(t.cycle) && clock::is_stamp(t.event) && clock::is_stamp(t.updated),
        forall|s: Seq<char>| #[trigger]
            clock::is_stamp(s) ==> s.len() >= 25 && s[s.len() - 3] == ':' && (s[s.len() - 6] == '+'
                || s[s.len() - 6] == '-'),
{
}

} // verus!
