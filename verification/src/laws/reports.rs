//! Reports and completion: what a report update leaves in a task, and what a
//! completed task carries.
use vstd::prelude::*;

use crate::json;
use crate::json::JsonView;
use crate::laws::edits;
use crate::laws::edits::{is_sound, says};
use crate::model;
use crate::model::{TaskAction, TaskStatus, TaskView, TimesView};
use crate::project::GitIntegration;
use crate::service;
use crate::service::{ReportMode, ReportUpdateView};
use crate::text;

verus! {

/// Whether an update gives any section.
pub open spec fn gives_any(u: ReportUpdateView) -> bool {
    u.result is Some || u.validation is Some || u.problems is Some || u.ideas is Some || u.decisions
        is Some
}

/// Whether each section of a report is the given one, or the one from before
/// where none is given.
pub open spec fn report_given(t: TaskView, u: ReportUpdateView, n: TaskView) -> bool {
    &&& u.result is Some ==> n.report_result == u.result
    &&& u.result is None ==> n.report_result == t.report_result
    &&& u.validation is Some ==> n.report_validation == u.validation
    &&& u.validation is None ==> n.report_validation == t.report_validation
    &&& u.problems matches Some(l) ==> n.report_problems == l
    &&& u.problems is None ==> n.report_problems == t.report_problems
    &&& u.ideas matches Some(l) ==> n.report_ideas == l
    &&& u.ideas is None ==> n.report_ideas == t.report_ideas
    &&& u.decisions matches Some(l) ==> n.report_decisions == l
    &&& u.decisions is None ==> n.report_decisions == t.report_decisions
}

/// Whether a text section is the old one followed by the given one, with a blank
/// line between them where both say something.
pub open spec fn text_appended(
    was: Option<Seq<char>>,
    given: Option<Seq<char>>,
    is: Option<Seq<char>>,
) -> bool {
    match (was, given) {
        (_, None) => is == was,
        (None, Some(g)) => is == if says(g) {
            Some(g)
        } else {
            None
        },
        (Some(w), Some(g)) => if !says(g) {
            is == was
        } else if !says(w) {
            is == given
        } else {
            is == Some(w + seq!['\n', '\n'] + g)
        },
    }
}

/// Whether a list section is the old one followed by the given one.
pub open spec fn list_appended(
    was: Seq<Seq<char>>,
    given: Option<Seq<Seq<char>>>,
    is: Seq<Seq<char>>,
) -> bool {
    match given {
        Some(g) => is == was + g,
        None => is == was,
    }
}

/// Whether two tasks are the same but for the report, the last writer and the
/// last change.
pub open spec fn same_but_report(t: TaskView, n: TaskView) -> bool {
    n == (TaskView {
        report_result: n.report_result,
        report_validation: n.report_validation,
        report_problems: n.report_problems,
        report_ideas: n.report_ideas,
        report_decisions: n.report_decisions,
        actor: n.actor,
        updated_at: n.updated_at,
        ..t
    })
}

/// A report update that replaces leaves each given section as given and every
/// other as it was; one that appends keeps what was there in front. Nothing else
/// changes but the last writer and the last change. It is accepted exactly when
/// it gives a section and the record is then sound.
pub proof fn law_report_is_updated(
    t: TaskView,
    u: ReportUpdateView,
    mode: ReportMode,
    actor: Seq<char>,
    now: Seq<char>,
)
    ensures
        ({
            let out = service::report_outcome(t, u, mode, actor, now);
            &&& out matches Ok(n) ==> {
                &&& gives_any(u)
                &&& same_but_report(t, n)
                &&& n.actor == Some(actor)
                &&& n.updated_at == now
                &&& mode == ReportMode::Replace ==> report_given(t, u, n)
                &&& mode == ReportMode::Append ==> {
                    &&& text_appended(t.report_result, u.result, n.report_result)
                    &&& text_appended(t.report_validation, u.validation, n.report_validation)
                    &&& list_appended(t.report_problems, u.problems, n.report_problems)
                    &&& list_appended(t.report_ideas, u.ideas, n.report_ideas)
                    &&& list_appended(t.report_decisions, u.decisions, n.report_decisions)
                }
            }
            &&& !gives_any(u) ==> out is Err
            &&& gives_any(u) ==> (out is Ok <==> is_sound(service::reported(t, u, mode)))
        }),
{
    let full = TaskView { actor: Some(actor), ..service::reported(t, u, mode) };
    edits::law_sound_records_are_saved(full, now);
    reveal_strlit("\n\n");
    assert("\n\n"@ =~= seq!['\n', '\n']);
    let none = service::no_report();
    if !gives_any(u) {
        assert(u == none);
    }
}

/// Of a task that is open or in progress, with timestamps that are timestamps and
/// a title, every report update that gives a section is accepted.
pub proof fn law_report_of_unfinished_work_is_accepted(
    t: TaskView,
    u: ReportUpdateView,
    mode: ReportMode,
    actor: Seq<char>,
    now: Seq<char>,
)
    requires
        is_sound(t),
        t.status != TaskStatus::Closed,
        gives_any(u),
    ensures
        service::report_outcome(t, u, mode, actor, now) is Ok,
{
    law_report_is_updated(t, u, mode, actor, now);
}

/// A section update by name gives exactly the section of that name: a text as it
/// is, a list as the JSON array of texts that its text reads as, or else as the
/// one text. Other names are refused.
pub proof fn law_section_is_named(
    section: Seq<char>,
    content: Seq<char>,
    read: Result<JsonView, Seq<char>>,
)
    ensures
        ({
            let out = service::section_update(section, content, read);
            let list = if read is Ok && json::texts_of(read->Ok_0) is Some {
                json::texts_of(read->Ok_0)
            } else {
                Some(seq![content])
            };
            &&& out is Ok <==> section == "result"@ || section == "validation"@ || section
                == "problems"@ || section == "ideas"@ || section == "decisions"@
            &&& out matches Ok(u) ==> {
                &&& u.result == if section == "result"@ {
                    Some(content)
                } else {
                    None
                }
                &&& u.validation == if section == "validation"@ {
                    Some(content)
                } else {
                    None
                }
                &&& u.problems == if section == "problems"@ {
                    list
                } else {
                    None
                }
                &&& u.ideas == if section == "ideas"@ {
                    list
                } else {
                    None
                }
                &&& u.decisions == if section == "decisions"@ {
                    list
                } else {
                    None
                }
            }
        }),
{
    reveal_strlit("result");
    reveal_strlit("validation");
    reveal_strlit("problems");
    reveal_strlit("ideas");
    reveal_strlit("decisions");
    assert("result"@.len() == 6 && "validation"@.len() == 10 && "problems"@.len() == 8);
    assert("ideas"@.len() == 5 && "decisions"@.len() == 9);
}

/// A legacy section update replaces that section, as it is named, and refuses
/// every other name.
pub proof fn law_section_is_replaced(
    t: TaskView,
    section: Seq<char>,
    content: Seq<char>,
    actor: Seq<char>,
    now: Seq<char>,
    n: TaskView,
)
    requires
        service::section_outcome(t, section, content, actor, now) == Ok::<TaskView, Seq<char>>(n),
    ensures
        ({
            let read = json::json_reads(content);
            let list = if read is Ok && json::texts_of(read->Ok_0) is Some {
                json::texts_of(read->Ok_0)->0
            } else {
                seq![content]
            };
            &&& same_but_report(t, n)
            &&& n.report_result == if section == "result"@ {
                Some(content)
            } else {
                t.report_result
            }
            &&& n.report_validation == if section == "validation"@ {
                Some(content)
            } else {
                t.report_validation
            }
            &&& n.report_problems == if section == "problems"@ {
                list
            } else {
                t.report_problems
            }
            &&& n.report_ideas == if section == "ideas"@ {
                list
            } else {
                t.report_ideas
            }
            &&& n.report_decisions == if section == "decisions"@ {
                list
            } else {
                t.report_decisions
            }
            &&& n.actor == Some(actor)
            &&& n.updated_at == now
        }),
{
    law_section_is_named(section, content, json::json_reads(content));
    let u = service::section_update(section, content, json::json_reads(content))->Ok_0;
    law_report_is_updated(t, u, ReportMode::Replace, actor, now);
}

/// A text section that a completion leaves: the given one, or the one from
/// before.
pub open spec fn text_left(was: Option<Seq<char>>, given: Option<Seq<char>>) -> Option<Seq<char>> {
    if given is Some {
        given
    } else {
        was
    }
}

/// A completed task is closed and carries the report that it was completed with:
/// each given section as given, each omitted one as it was. It is completed at
/// the time of its closing, keeps its blocks, links, start and everything else,
/// and its history gains the closing, after the review where the task was
/// still in progress.
pub proof fn law_completion_carries_the_report(
    id: i64,
    t: TaskView,
    u: ReportUpdateView,
    actor: Seq<char>,
    mode: GitIntegration,
    review: TimesView,
    done: TimesView,
    now: Seq<char>,
    n: TaskView,
)
    requires
        service::complete_outcome(id, t, u, actor, mode, review, done, now) == Ok::<
            TaskView,
            Seq<char>,
        >(n),
    ensures
        report_given(t, u, n),
        n.status == TaskStatus::Closed,
        n.done_at == Some(done.cycle),
        n.actor == Some(actor),
        n.updated_at == now,
        n == (TaskView {
            status: n.status,
            done_at: n.done_at,
            history: n.history,
            report_result: n.report_result,
            report_validation: n.report_validation,
            report_problems: n.report_problems,
            report_ideas: n.report_ideas,
            report_decisions: n.report_decisions,
            actor: n.actor,
            updated_at: n.updated_at,
            ..t
        }),
        t.history.is_prefix_of(n.history),
        n.history.len() == t.history.len() + if t.status == TaskStatus::Review {
            1int
        } else {
            2int
        },
        n.history.last().from == Some(TaskStatus::Review),
        n.history.last().to == TaskStatus::Closed,
        n.history.last().at == done.event,
        n.history.last().actor == actor,
        t.status != TaskStatus::Review ==> ({
            let e = n.history[t.history.len() as int];
            e.from == Some(TaskStatus::Started) && e.to == TaskStatus::Review && e.at
                == review.event && e.actor == actor
        }),
{
}

/// A completion is accepted exactly when the task is in review, or in progress
/// without git automation; it is not blocked; the report gives a section; result
/// and validation then say something; and the record is sound when it is closed.
pub proof fn law_completion_is_accepted(
    id: i64,
    t: TaskView,
    u: ReportUpdateView,
    actor: Seq<char>,
    mode: GitIntegration,
    review: TimesView,
    done: TimesView,
    now: Seq<char>,
)
    ensures
        service::complete_outcome(id, t, u, actor, mode, review, done, now) is Ok <==> {
            let result = text_left(t.report_result, u.result);
            let validation = text_left(t.report_validation, u.validation);
            &&& t.status == TaskStatus::Review || t.status == TaskStatus::Started && mode
                == GitIntegration::Off
            &&& !t.blocked
            &&& gives_any(u)
            &&& result matches Some(s) && says(s)
            &&& validation matches Some(s) && says(s)
            &&& says(t.title)
            &&& edits::is_time(t.created_at)
            &&& edits::is_time(done.updated)
            &&& edits::is_time(done.cycle)
            &&& t.started_at matches Some(s) ==> edits::is_time(s)
        },
{
    let none = service::no_report();
    if !gives_any(u) {
        assert(u == none);
    }
    if let Ok(ready) = service::in_review(id, t, actor, mode, review) {
        let full = service::reported(ready, u, ReportMode::Replace);
        model::law_transitions(full, TaskAction::Done, actor, None, done);
        edits::law_sound_records_are_saved(
            model::applied(full, TaskAction::Done, actor, None, done),
            now,
        );
    }
}

/// An action that is not refused changes at most the status, the block, the
/// links, the evidence, the times, the history and the last writer; and it adds
/// to history one event that says what moved, from where to where, who moved it
/// and why, but for blocks, which history does not record.
pub proof fn law_actions_leave_the_rest(
    t: TaskView,
    action: TaskAction,
    actor: Seq<char>,
    reason: Option<Seq<char>>,
    times: TimesView,
)
    requires
        model::refusal(t, action, reason) is None,
    ensures
        ({
            let n = model::applied(t, action, actor, reason, times);
            let moves = action != TaskAction::Block && action != TaskAction::Unblock;
            &&& n == (TaskView {
                status: n.status,
                blocked: n.blocked,
                block_reason: n.block_reason,
                links: n.links,
                report_result: n.report_result,
                report_validation: n.report_validation,
                started_at: n.started_at,
                done_at: n.done_at,
                history: n.history,
                actor: n.actor,
                updated_at: n.updated_at,
                ..t
            })
            &&& !moves ==> n.history == t.history
            &&& moves ==> {
                &&& n.history.len() == t.history.len() + 1
                &&& t.history.is_prefix_of(n.history)
                &&& n.history.last().at == times.event
                &&& n.history.last().actor == actor
                &&& n.history.last().from == Some(t.status)
                &&& n.history.last().to == n.status
                &&& n.history.last().reason == reason
            }
        }),
{
    let n = model::applied(t, action, actor, reason, times);
    assert(t.history =~= n.history.subrange(0, t.history.len() as int));
}

/// A report mode is named in words, white space around it aside.
pub proof fn law_modes_are_named(s: Seq<char>)
    ensures
        service::mode_of(s) == Some(ReportMode::Replace) <==> text::trim(s) == "replace"@,
        service::mode_of(s) == Some(ReportMode::Append) <==> text::trim(s) == "append"@,
{
    reveal_strlit("replace");
    reveal_strlit("append");
    assert("replace"@.len() == 7 && "append"@.len() == 6);
}

} // verus!
