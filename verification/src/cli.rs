//! Quick terminal commands over the resolved project context: what they read
//! from their arguments, decide and show.
use vstd::prelude::*;

use crate::diag;
use crate::diag::{task_position, Finding, FindingView, RepairOpView, RepairReport, Severity};
use crate::error::Error;
use crate::graph;
use crate::json;
use crate::json::{
    add_member, add_value, from_members, from_natural, from_opt_text, from_text, from_values,
    no_members, no_values, Json, JsonView,
};
use crate::knowledge;
use crate::knowledge::{
    CurrentStatus, CurrentStatusView, CurrentSummary, CurrentSummaryView, EntryChange, Freshness,
    FreshnessView, FALLBACK_NOTE,
};
use crate::model;
use crate::model::{
    GitDiagnosticView, KnowledgeEntry, KnowledgeEntryView, KnowledgeKind, LifecycleEvent,
    LifecycleEventView, Priority, ReportSnapshot, ReportSnapshotView, Task, TaskStatus, TaskView,
};
use crate::order;
use crate::project;
use crate::project::{
    detect_git_repo, Context, GitIntegration, ProjectConfig, ProjectConfigView,
};
use crate::service;
use crate::service::{count_status, ready_tasks, status_counts};
use crate::text;
use crate::text::{
    align_left, align_right, cat, cat3, chars_of, int_text, is_among, is_blank, join, keep_nonempty,
    lines_of, named_line, natural_text, owned, same, split, strip_prefix, to_lower, trimmed,
};

verus! {

// ===== task detail =====

/// A heading and what stands below it, where there is anything.
pub open spec fn section(heading: Seq<char>, body: Seq<char>, shown: bool) -> Seq<char> {
    if shown {
        heading + body
    } else {
        Seq::empty()
    }
}

fn section_text(heading: &str, body: &str, shown: bool) -> (r: String)
    ensures
        r@ == section(heading@, body@, shown),
{
    if shown {
        cat(heading, body)
    } else {
        let r = String::new();
        assert(r@ =~= Seq::<char>::empty());
        r
    }
}

/// What a task is, and its labels.
pub open spec fn detail_head(t: TaskView) -> Seq<char> {
    "#"@ + text::decimal(t.id as int) + " "@ + t.title + "\nstatus: "@ + model::status_name(
        t.status,
    ) + "\npriority: "@ + model::priority_name(t.priority) + "\n"@ + (if t.labels.len() > 0 {
        "labels: "@ + text::joined(t.labels, ", "@) + "\n"@
    } else {
        Seq::empty()
    })
}

fn head_text(t: &Task) -> (r: String)
    ensures
        r@ == detail_head(t@),
{
    let id = int_text(t.id);
    let mut out = cat3("#", id.as_str(), " ");
    out.append(t.title.as_str());
    out.append("\nstatus: ");
    out.append(t.status.as_str());
    out.append("\npriority: ");
    out.append(t.priority.as_str());
    out.append("\n");
    let ghost so_far = out@;
    if t.labels.len() > 0 {
        let labels = join(&t.labels, ", ");
        let line = cat3("labels: ", labels.as_str(), "\n");
        out.append(line.as_str());
    } else {
        assert(so_far =~= so_far + Seq::<char>::empty());
    }
    out
}

/// The estimates of a task, on one line.
pub open spec fn detail_estimate(points: Option<i64>, hours: Option<Seq<char>>) -> Seq<char> {
    (match points {
        Some(v) => "estimate: "@ + text::decimal(v as int) + " points"@,
        None => Seq::empty(),
    }) + (match hours {
        Some(v) => " / "@ + v + "h"@,
        None => Seq::empty(),
    }) + (if points is Some || hours is Some {
        "\n"@
    } else {
        Seq::empty()
    })
}

fn estimate_text(points: Option<i64>, hours: &Option<String>) -> (r: String)
    ensures
        r@ == detail_estimate(points, text::opt_text(*hours)),
{
    let mut out = match points {
        Some(v) => {
            let n = int_text(v);
            cat3("estimate: ", n.as_str(), " points")
        },
        None => {
            let r = String::new();
            assert(r@ =~= Seq::<char>::empty());
            r
        },
    };
    let ghost first = out@;
    if let Some(v) = hours {
        let part = cat3(" / ", v.as_str(), "h");
        out.append(part.as_str());
    } else {
        assert(first =~= first + Seq::<char>::empty());
    }
    let ghost second = out@;
    let any = points.is_some() || hours.is_some();
    if any {
        out.append("\n");
    } else {
        assert(second =~= second + Seq::<char>::empty());
    }
    out
}

/// What a task says of one of its dependencies.
pub open spec fn dependency_state(d: i64, all: Seq<TaskView>) -> Seq<char> {
    match diag::find_task(all, d) {
        Some(o) => if o.status == TaskStatus::Closed {
            "#"@ + text::decimal(d as int) + " (closed)"@
        } else {
            "#"@ + text::decimal(d as int) + " ("@ + model::status_name(o.status)
                + ") — UNMET: prerequisite must be closed (cancelled does not count)"@
        },
        None => "#"@ + text::decimal(d as int) + " (missing) — UNMET"@,
    }
}

fn dependency_text(d: i64, all: &Vec<Task>) -> (r: String)
    ensures
        r@ == dependency_state(d, model::tasks(all@)),
{
    let id = int_text(d);
    match task_position(all, d) {
        Some(i) => if all[i].status == TaskStatus::Closed {
            cat3("#", id.as_str(), " (closed)")
        } else {
            let a = cat3("#", id.as_str(), " (");
            cat3(
                a.as_str(),
                all[i].status.as_str(),
                ") — UNMET: prerequisite must be closed (cancelled does not count)",
            )
        },
        None => cat3("#", id.as_str(), " (missing) — UNMET"),
    }
}

/// What a task says of its dependencies, one by one.
pub open spec fn dependency_states(deps: Seq<i64>, all: Seq<TaskView>) -> Seq<Seq<char>> {
    deps.map_values(|d: i64| dependency_state(d, all))
}

fn dependency_texts(deps: &Vec<i64>, all: &Vec<Task>) -> (r: Vec<String>)
    ensures
        text::texts(r@) == dependency_states(deps@, model::tasks(all@)),
{
    let ghost list = model::tasks(all@);
    let mut out: Vec<String> = Vec::new();
    let mut i: usize = 0;
    while i < deps.len()
        invariant
            i <= deps.len(),
            list == model::tasks(all@),
            out.len() == i,
            forall|j: int| 0 <= j < i ==> #[trigger] out@[j]@ == dependency_state(deps@[j], list),
        decreases deps.len() - i,
    {
        out.push(dependency_text(deps[i], all));
        i += 1;
    }
    assert(text::texts(out@) =~= dependency_states(deps@, list));
    out
}

/// When a task was created, started and done, and by whom it was last touched.
pub open spec fn detail_times(t: TaskView) -> Seq<char> {
    "\ncreated: "@ + t.created_at + "\n"@ + text::named("started: "@, t.started_at) + text::named(
        "done: "@,
        t.done_at,
    ) + text::named("actor: "@, t.actor)
}

fn times_text(t: &Task) -> (r: String)
    ensures
        r@ == detail_times(t@),
{
    let mut out = cat3("\ncreated: ", t.created_at.as_str(), "\n");
    let started = named_line("started: ", &t.started_at);
    let done = named_line("done: ", &t.done_at);
    let actor = named_line("actor: ", &t.actor);
    out.append(started.as_str());
    out.append(done.as_str());
    out.append(actor.as_str());
    out
}

/// Whether a task carries any part of a report.
pub open spec fn has_report(t: TaskView) -> bool {
    t.report_result is Some || t.report_validation is Some || t.report_problems.len() > 0
        || t.report_ideas.len() > 0 || t.report_decisions.len() > 0
}

/// The report of a task.
pub open spec fn detail_report(t: TaskView) -> Seq<char> {
    text::named("  result: "@, t.report_result) + text::named(
        "  validation: "@,
        t.report_validation,
    ) + text::lined("  problem: "@, t.report_problems) + text::lined("  idea: "@, t.report_ideas)
        + text::lined("  decision: "@, t.report_decisions)
}

fn report_text(t: &Task) -> (r: String)
    ensures
        r@ == detail_report(t@),
{
    let mut out = named_line("  result: ", &t.report_result);
    let validation = named_line("  validation: ", &t.report_validation);
    let problems = lines_of("  problem: ", &t.report_problems);
    let ideas = lines_of("  idea: ", &t.report_ideas);
    let decisions = lines_of("  decision: ", &t.report_decisions);
    out.append(validation.as_str());
    out.append(problems.as_str());
    out.append(ideas.as_str());
    out.append(decisions.as_str());
    out
}

/// A diagnostic of git work.
pub open spec fn diagnostic_line(d: GitDiagnosticView) -> Seq<char> {
    "["@ + d.operation + "] "@ + d.message + " ("@ + d.at + ")"@
}

/// The diagnostics of git work, one by one.
pub open spec fn diagnostic_lines(v: Seq<GitDiagnosticView>) -> Seq<Seq<char>> {
    v.map_values(|d: GitDiagnosticView| diagnostic_line(d))
}

fn diagnostic_texts(t: &Task) -> (r: Vec<String>)
    ensures
        text::texts(r@) == diagnostic_lines(t@.git_diagnostics),
{
    let mut out: Vec<String> = Vec::new();
    let mut i: usize = 0;
    while i < t.git_diagnostics.len()
        invariant
            i <= t.git_diagnostics.len(),
            out.len() == i,
            forall|j: int|
                0 <= j < i ==> #[trigger] out@[j]@ == diagnostic_line(t.git_diagnostics@[j]@),
        decreases t.git_diagnostics.len() - i,
    {
        let d = &t.git_diagnostics[i];
        let mut line = cat3("[", d.operation.as_str(), "] ");
        line.append(d.message.as_str());
        line.append(" (");
        line.append(d.at.as_str());
        line.append(")");
        out.push(line);
        i += 1;
    }
    assert(text::texts(out@) =~= diagnostic_lines(t@.git_diagnostics));
    out
}

/// The report of an earlier cycle.
pub open spec fn snapshot_lines(r: ReportSnapshotView) -> Seq<char> {
    "    prior report:\n"@ + text::named("      result: "@, r.result) + text::named(
        "      validation: "@,
        r.validation,
    ) + text::lined("      problem: "@, r.problems) + text::lined("      idea: "@, r.ideas)
        + text::lined("      decision: "@, r.decisions) + text::lined("      link: "@, r.links)
}

fn snapshot_text(r: &ReportSnapshot) -> (s: String)
    ensures
        s@ == snapshot_lines(r@),
{
    let mut out = owned("    prior report:\n");
    let result = named_line("      result: ", &r.result);
    let validation = named_line("      validation: ", &r.validation);
    let problems = lines_of("      problem: ", &r.problems);
    let ideas = lines_of("      idea: ", &r.ideas);
    let decisions = lines_of("      decision: ", &r.decisions);
    let links = lines_of("      link: ", &r.links);
    out.append(result.as_str());
    out.append(validation.as_str());
    out.append(problems.as_str());
    out.append(ideas.as_str());
    out.append(decisions.as_str());
    out.append(links.as_str());
    out
}

/// A lifecycle event and what it preserves.
pub open spec fn event_lines(e: LifecycleEventView) -> Seq<char> {
    "  "@ + e.at + " "@ + (match e.from {
        Some(f) => model::status_name(f),
        None => "?"@,
    }) + " -> "@ + model::status_name(e.to) + " by "@ + e.actor + "\n"@ + text::named(
        "    reason: "@,
        e.reason,
    ) + text::named("    prior done_at: "@, e.prior_done_at) + (match e.prior_report {
        Some(r) => snapshot_lines(r),
        None => Seq::empty(),
    })
}

fn event_text(e: &LifecycleEvent) -> (r: String)
    ensures
        r@ == event_lines(e@),
{
    let mut out = cat3("  ", e.at.as_str(), " ");
    let from = match e.from {
        Some(f) => f.as_str(),
        None => "?",
    };
    out.append(from);
    out.append(" -> ");
    out.append(e.to.as_str());
    out.append(" by ");
    out.append(e.actor.as_str());
    out.append("\n");
    let reason = named_line("    reason: ", &e.reason);
    let done = named_line("    prior done_at: ", &e.prior_done_at);
    out.append(reason.as_str());
    out.append(done.as_str());
    let ghost so_far = out@;
    if let Some(r) = &e.prior_report {
        let s = snapshot_text(r);
        out.append(s.as_str());
    } else {
        assert(so_far =~= so_far + Seq::<char>::empty());
    }
    out
}

/// The lifecycle events of a task, one after the other.
pub open spec fn history_lines(v: Seq<LifecycleEventView>) -> Seq<char> {
    text::joined(v.map_values(|e: LifecycleEventView| event_lines(e)), ""@)
}

fn history_text(t: &Task) -> (r: String)
    ensures
        r@ == history_lines(t@.history),
{
    let mut out: Vec<String> = Vec::new();
    let mut i: usize = 0;
    while i < t.history.len()
        invariant
            i <= t.history.len(),
            out.len() == i,
            forall|j: int| 0 <= j < i ==> #[trigger] out@[j]@ == event_lines(t.history@[j]@),
        decreases t.history.len() - i,
    {
        out.push(event_text(&t.history[i]));
        i += 1;
    }
    assert(text::texts(out@) =~= t@.history.map_values(|e: LifecycleEventView| event_lines(e)));
    join(&out, "")
}

/// The full detail of a task.
pub open spec fn detail(t: TaskView, all: Seq<TaskView>) -> Seq<char> {
    detail_head(t) + detail_estimate(t.estimate_points, t.estimate_hours) + text::named(
        "deadline: "@,
        t.deadline,
    ) + section("\ndescription:\n"@, t.description + "\n"@, t.description.len() > 0) + section(
        "\nacceptance:\n"@,
        text::lined("  - "@, t.acceptance),
        t.acceptance.len() > 0,
    ) + section("\ncontext:\n"@, t.context + "\n"@, t.context.len() > 0) + section(
        "\ndepends on:\n"@,
        text::lined("  - "@, dependency_states(t.depends_on, all)),
        t.depends_on.len() > 0,
    ) + section("\nlinks:\n"@, text::lined("  - "@, t.links), t.links.len() > 0) + detail_times(t)
        + section("\nreport:\n"@, detail_report(t), has_report(t)) + (match t.follow_up_of {
        Some(id) => "\nfollow-up of: #"@ + text::decimal(id as int) + "\n"@,
        None => Seq::empty(),
    }) + section(
        "\ngit integration diagnostics:\n"@,
        text::lined("  "@, diagnostic_lines(t.git_diagnostics)),
        t.git_diagnostics.len() > 0,
    ) + section("\nhistory:\n"@, history_lines(t.history), t.history.len() > 0)
}

/// The detail of a task explains each of its dependencies on a line of its own:
/// by id, as UNMET exactly when the dependency is unmet, and as closed exactly
/// when it is met.
pub proof fn law_detail_explains_dependencies(t: TaskView, all: Seq<TaskView>, k: int)
    requires
        forall|i: int, j: int|
            0 <= i < j < all.len() ==> (#[trigger] all[i]).id != (#[trigger] all[j]).id,
        0 <= k < t.depends_on.len(),
    ensures
        ({
            let d = t.depends_on[k];
            let state = dependency_state(d, all);
            let id = "#"@ + text::decimal(d as int);
            &&& text::has_text(detail(t, all), "  - "@ + state + "\n"@)
            &&& text::begins(state, id + " ("@)
            &&& text::has_text(state, "UNMET"@) <==> service::unmet(all, t).contains(d)
            &&& state == id + " (closed)"@ <==> !service::unmet(all, t).contains(d)
        }),
{
    let d = t.depends_on[k];
    let state = dependency_state(d, all);
    let states = dependency_states(t.depends_on, all);
    assert(states[k] == state);
    text::lemma_lined_has("  - "@, states, k);
    lemma_detail_has_states(t, all, "  - "@ + state + "\n"@);
    lemma_dependency_state(d, all);
    let keep = |x: i64| !service::is_met(all, x);
    lemma_met_is_closed(all, d);
    assert(service::unmet(all, t).contains(d) == !service::is_met(all, d)) by {
        if service::is_met(all, d) {
            if service::unmet(all, t).contains(d) {
                let i = choose|i: int|
                    0 <= i < service::unmet(all, t).len() && service::unmet(all, t)[i] == d;
                text::lemma_filter_keeps(t.depends_on, keep, i);
            }
        } else {
            t.depends_on.lemma_filter_contains_rev(keep, d);
        }
    }
}

/// What is said of the dependencies of a task occurs in its detail.
proof fn lemma_detail_has_states(t: TaskView, all: Seq<TaskView>, line: Seq<char>)
    requires
        t.depends_on.len() > 0,
        text::has_text(text::lined("  - "@, dependency_states(t.depends_on, all)), line),
    ensures
        text::has_text(detail(t, all), line),
{
    let lines = text::lined("  - "@, dependency_states(t.depends_on, all));
    let s0 = detail_head(t) + detail_estimate(t.estimate_points, t.estimate_hours) + text::named(
        "deadline: "@,
        t.deadline,
    ) + section("\ndescription:\n"@, t.description + "\n"@, t.description.len() > 0) + section(
        "\nacceptance:\n"@,
        text::lined("  - "@, t.acceptance),
        t.acceptance.len() > 0,
    ) + section("\ncontext:\n"@, t.context + "\n"@, t.context.len() > 0);
    let states = "\ndepends on:\n"@ + lines;
    text::lemma_has_text_back("\ndepends on:\n"@, lines, line);
    text::lemma_has_text_back(s0, states, line);
    let x1 = section("\nlinks:\n"@, text::lined("  - "@, t.links), t.links.len() > 0);
    let s1 = s0 + states + x1;
    text::lemma_has_text_front(s0 + states, x1, line);
    let s2 = s1 + detail_times(t);
    text::lemma_has_text_front(s1, detail_times(t), line);
    let x3 = section("\nreport:\n"@, detail_report(t), has_report(t));
    let s3 = s2 + x3;
    text::lemma_has_text_front(s2, x3, line);
    let x4 = match t.follow_up_of {
        Some(id) => "\nfollow-up of: #"@ + text::decimal(id as int) + "\n"@,
        None => Seq::empty(),
    };
    let s4 = s3 + x4;
    text::lemma_has_text_front(s3, x4, line);
    let x5 = section(
        "\ngit integration diagnostics:\n"@,
        text::lined("  "@, diagnostic_lines(t.git_diagnostics)),
        t.git_diagnostics.len() > 0,
    );
    let s5 = s4 + x5;
    text::lemma_has_text_front(s4, x5, line);
    let x6 = section("\nhistory:\n"@, history_lines(t.history), t.history.len() > 0);
    text::lemma_has_text_front(s5, x6, line);
}

/// Where ids are distinct, a dependency is met exactly when the task with its id
/// is closed.
proof fn lemma_met_is_closed(all: Seq<TaskView>, id: i64)
    requires
        forall|i: int, j: int|
            0 <= i < j < all.len() ==> (#[trigger] all[i]).id != (#[trigger] all[j]).id,
    ensures
        service::is_met(all, id) == (diag::find_task(all, id) matches Some(o) && o.status
            == TaskStatus::Closed),
    decreases all.len(),
{
    if all.len() > 0 {
        let rest = all.skip(1);
        assert forall|i: int, j: int| 0 <= i < j < rest.len() implies (#[trigger] rest[i]).id != (
        #[trigger] rest[j]).id by {
            assert(all[i + 1].id != all[j + 1].id);
        }
        lemma_met_is_closed(rest, id);
        if service::is_met(all, id) {
            let i = choose|i: int|
                0 <= i < all.len() && (#[trigger] all[i]).id == id && all[i].status
                    == TaskStatus::Closed;
            if i > 0 {
                assert(rest[i - 1] == all[i]);
                assert(all[0].id != all[i].id);
            }
        }
        if service::is_met(rest, id) {
            let i = choose|i: int|
                0 <= i < rest.len() && (#[trigger] rest[i]).id == id && rest[i].status
                    == TaskStatus::Closed;
            assert(all[i + 1] == rest[i]);
        }
    }
}

/// What a task says of a dependency names it, and says UNMET unless it is closed.
proof fn lemma_dependency_state(d: i64, all: Seq<TaskView>)
    ensures
        ({
            let state = dependency_state(d, all);
            let id = "#"@ + text::decimal(d as int);
            let closed = diag::find_task(all, d) matches Some(o) && o.status == TaskStatus::Closed;
            &&& text::begins(state, id + " ("@)
            &&& text::has_text(state, "UNMET"@) == !closed
            &&& (state == id + " (closed)"@) == closed
        }),
{
    let state = dependency_state(d, all);
    let id = "#"@ + text::decimal(d as int);
    let closed = id + " (closed)"@;
    reveal_strlit("#");
    reveal_strlit(" (");
    reveal_strlit(" (closed)");
    reveal_strlit("UNMET");
    assert(!text::has_text(closed, "UNMET"@)) by {
        text::lemma_decimal_chars(d as int);
        if text::has_text(closed, "UNMET"@) {
            let i = choose|i: int| text::occurs_at(closed, "UNMET"@, i);
            assert(closed.subrange(i, i + 5)[0] == closed[i]);
            assert(closed[i] == 'U');
            if 1 <= i < id.len() {
                assert(closed[i] == text::decimal(d as int)[i - 1]);
            }
        }
    }
    match diag::find_task(all, d) {
        Some(o) => if o.status == TaskStatus::Closed {
            assert(state.subrange(0, id.len() as int + 2) =~= id + " ("@);
        } else {
            let head = id + " ("@ + model::status_name(o.status);
            let tail = ") — UNMET: prerequisite must be closed (cancelled does not count)"@;
            reveal_strlit(") — UNMET: prerequisite must be closed (cancelled does not count)");
            assert(tail.subrange(4, 9) =~= "UNMET"@);
            assert(text::occurs_at(tail, "UNMET"@, 4));
            text::lemma_has_text_back(head, tail, "UNMET"@);
            assert(state.subrange(0, id.len() as int + 2) =~= id + " ("@);
        },
        None => {
            let tail = " (missing) — UNMET"@;
            reveal_strlit(" (missing) — UNMET");
            assert(tail.subrange(13, 18) =~= "UNMET"@);
            assert(text::occurs_at(tail, "UNMET"@, 13));
            text::lemma_has_text_back(id, tail, "UNMET"@);
            assert(state.subrange(0, id.len() as int + 2) =~= id + " ("@);
        },
    }
}

/// The full detail of a task: its contract, dependencies, report, diagnostics
/// and history.
pub fn format_task_detail(t: &Task, all: &Vec<Task>) -> (r: String)
    ensures
        r@ == detail(t@, model::tasks(all@)),
{
    let mut out = head_text(t);
    let estimate = estimate_text(t.estimate_points, &t.estimate_hours);
    out.append(estimate.as_str());
    let deadline = named_line("deadline: ", &t.deadline);
    out.append(deadline.as_str());
    let body = cat(t.description.as_str(), "\n");
    let part = section_text(
        "\ndescription:\n",
        body.as_str(),
        chars_of(t.description.as_str()).len() > 0,
    );
    out.append(part.as_str());
    let body = lines_of("  - ", &t.acceptance);
    let part = section_text("\nacceptance:\n", body.as_str(), t.acceptance.len() > 0);
    out.append(part.as_str());
    let body = cat(t.context.as_str(), "\n");
    let part = section_text(
        "\ncontext:\n",
        body.as_str(),
        chars_of(t.context.as_str()).len() > 0,
    );
    out.append(part.as_str());
    let states = dependency_texts(&t.depends_on, all);
    let body = lines_of("  - ", &states);
    let part = section_text("\ndepends on:\n", body.as_str(), t.depends_on.len() > 0);
    out.append(part.as_str());
    let body = lines_of("  - ", &t.links);
    let part = section_text("\nlinks:\n", body.as_str(), t.links.len() > 0);
    out.append(part.as_str());
    let times = times_text(t);
    out.append(times.as_str());
    let shown = t.report_result.is_some() || t.report_validation.is_some()
        || t.report_problems.len() > 0 || t.report_ideas.len() > 0 || t.report_decisions.len() > 0;
    let body = report_text(t);
    let part = section_text("\nreport:\n", body.as_str(), shown);
    out.append(part.as_str());
    let ghost so_far = out@;
    if let Some(id) = t.follow_up_of {
        let n = int_text(id);
        let line = cat3("\nfollow-up of: #", n.as_str(), "\n");
        out.append(line.as_str());
    } else {
        assert(so_far =~= so_far + Seq::<char>::empty());
    }
    let lines = diagnostic_texts(t);
    let body = lines_of("  ", &lines);
    let part = section_text(
        "\ngit integration diagnostics:\n",
        body.as_str(),
        t.git_diagnostics.len() > 0,
    );
    out.append(part.as_str());
    let body = history_text(t);
    let part = section_text("\nhistory:\n", body.as_str(), t.history.len() > 0);
    out.append(part.as_str());
    out
}

// ===== overview =====

/// The git branch that `git branch --show-current` reported.
pub fn current_branch(success: bool, out: &str) -> (r: Option<String>)
    ensures
        text::opt_text(r) == project::printed(success, out@),
{
    detect_git_repo(success, out)
}

/// A status that occurs, and how often.
pub open spec fn count_line(c: (TaskStatus, nat)) -> Seq<char> {
    text::left_aligned(model::status_name(c.0), 12) + " "@ + text::numeral(c.1)
}

/// The counts of a project, one by one.
pub open spec fn count_lines(c: Seq<(TaskStatus, nat)>) -> Seq<Seq<char>> {
    c.map_values(|p: (TaskStatus, nat)| count_line(p))
}

fn count_texts(c: &Vec<(TaskStatus, usize)>) -> (r: Vec<String>)
    ensures
        text::texts(r@) == count_lines(service::counts(c@)),
{
    let ghost all = service::counts(c@);
    let mut out: Vec<String> = Vec::new();
    let mut i: usize = 0;
    while i < c.len()
        invariant
            i <= c.len(),
            all == service::counts(c@),
            out.len() == i,
            forall|j: int| 0 <= j < i ==> #[trigger] out@[j]@ == count_line(all[j]),
        decreases c.len() - i,
    {
        let name = align_left(c[i].0.as_str(), 12);
        let n = natural_text(c[i].1 as u128);
        out.push(cat3(name.as_str(), " ", n.as_str()));
        i += 1;
    }
    assert(text::texts(out@) =~= count_lines(all));
    out
}

/// A task by its id and title.
pub open spec fn task_line(t: TaskView) -> Seq<char> {
    text::right_aligned(text::decimal(t.id as int), 3) + " "@ + t.title
}

/// A task by its id, priority and title.
pub open spec fn ready_line(t: TaskView) -> Seq<char> {
    text::right_aligned(text::decimal(t.id as int), 3) + " ["@ + model::priority_name(t.priority)
        + "] "@ + t.title
}

fn task_text(t: &Task) -> (r: String)
    ensures
        r@ == task_line(t@),
{
    let id = int_text(t.id);
    let id = align_right(id.as_str(), 3);
    cat3(id.as_str(), " ", t.title.as_str())
}

fn ready_text(t: &Task) -> (r: String)
    ensures
        r@ == ready_line(t@),
{
    let id = int_text(t.id);
    let id = align_right(id.as_str(), 3);
    let a = cat3(id.as_str(), " [", t.priority.as_str());
    cat3(a.as_str(), "] ", t.title.as_str())
}

/// Tasks by their ids and titles.
pub open spec fn task_lines(v: Seq<TaskView>) -> Seq<Seq<char>> {
    v.map_values(|t: TaskView| task_line(t))
}

/// Tasks by their ids, priorities and titles.
pub open spec fn ready_lines(v: Seq<TaskView>) -> Seq<Seq<char>> {
    v.map_values(|t: TaskView| ready_line(t))
}

fn active_texts(all: &Vec<Task>) -> (r: Vec<String>)
    ensures
        text::texts(r@) == task_lines(service::active_among(model::tasks(all@))),
{
    let ghost list = model::tasks(all@);
    let ghost keep = |t: TaskView| t.status == TaskStatus::Started;
    let mut out: Vec<String> = Vec::new();
    let mut i: usize = 0;
    assert(list.take(0).filter(keep) =~= Seq::empty()) by {
        reveal(Seq::filter);
    }
    assert(text::texts(out@) =~= task_lines(list.take(0).filter(keep)));
    while i < all.len()
        invariant
            i <= all.len(),
            list == model::tasks(all@),
            keep == (|t: TaskView| t.status == TaskStatus::Started),
            text::texts(out@) == task_lines(list.take(i as int).filter(keep)),
        decreases all.len() - i,
    {
        proof {
            text::lemma_filter_take(list, keep, i as int);
        }
        if all[i].status == TaskStatus::Started {
            let ghost before = text::texts(out@);
            let line = task_text(&all[i]);
            out.push(line);
            assert(text::texts(out@) =~= before.push(line@));
            assert(task_lines(list.take(i + 1).filter(keep)) =~= before.push(
                task_line(list[i as int]),
            ));
        }
        i += 1;
    }
    assert(list.take(i as int) =~= list);
    out
}

fn blocked_texts(all: &Vec<Task>) -> (r: Vec<String>)
    ensures
        text::texts(r@) == task_lines(service::blocked_among(model::tasks(all@))),
{
    let ghost list = model::tasks(all@);
    let ghost keep = |t: TaskView| t.blocked;
    let mut out: Vec<String> = Vec::new();
    let mut i: usize = 0;
    assert(list.take(0).filter(keep) =~= Seq::empty()) by {
        reveal(Seq::filter);
    }
    assert(text::texts(out@) =~= task_lines(list.take(0).filter(keep)));
    while i < all.len()
        invariant
            i <= all.len(),
            list == model::tasks(all@),
            keep == (|t: TaskView| t.blocked),
            text::texts(out@) == task_lines(list.take(i as int).filter(keep)),
        decreases all.len() - i,
    {
        proof {
            text::lemma_filter_take(list, keep, i as int);
        }
        if all[i].blocked {
            let ghost before = text::texts(out@);
            let line = task_text(&all[i]);
            out.push(line);
            assert(text::texts(out@) =~= before.push(line@));
            assert(task_lines(list.take(i + 1).filter(keep)) =~= before.push(
                task_line(list[i as int]),
            ));
        }
        i += 1;
    }
    assert(list.take(i as int) =~= list);
    out
}

/// How many ready tasks the overview names.
pub const READY_SHOWN: usize = 10;

/// The first ready tasks, and how many more there are.
pub open spec fn ready_part(ready: Seq<TaskView>) -> Seq<char> {
    if ready.len() > READY_SHOWN {
        text::lined("  "@, ready_lines(ready.take(READY_SHOWN as int))) + ("  ... "@
            + text::numeral((ready.len() - READY_SHOWN) as nat) + " more (jay next)\n"@)
    } else {
        text::lined("  "@, ready_lines(ready))
    }
}

fn ready_part_text(ready: &Vec<Task>) -> (r: String)
    ensures
        r@ == ready_part(model::tasks(ready@)),
{
    let ghost list = model::tasks(ready@);
    let shown = if ready.len() > READY_SHOWN {
        READY_SHOWN
    } else {
        ready.len()
    };
    let mut lines: Vec<String> = Vec::new();
    let mut i: usize = 0;
    while i < shown
        invariant
            i <= shown <= ready.len(),
            list == model::tasks(ready@),
            lines.len() == i,
            forall|j: int| 0 <= j < i ==> #[trigger] lines@[j]@ == ready_line(list[j]),
        decreases shown - i,
    {
        lines.push(ready_text(&ready[i]));
        i += 1;
    }
    let mut out = lines_of("  ", &lines);
    if ready.len() > READY_SHOWN {
        assert(text::texts(lines@) =~= ready_lines(list.take(READY_SHOWN as int)));
        let n = natural_text((ready.len() - READY_SHOWN) as u128);
        let more = cat3("  ... ", n.as_str(), " more (jay next)\n");
        out.append(more.as_str());
    } else {
        assert(text::texts(lines@) =~= ready_lines(list));
    }
    out
}

/// The label of a summary: a fallback is never presented as authoritative.
pub open spec fn summary_label(s: CurrentStatusView) -> Seq<char> {
    if s.designated {
        "current summary"@
    } else {
        FALLBACK_NOTE@
    }
}

/// What the overview says of the current summary.
pub open spec fn summary_part(s: CurrentStatusView, f: FreshnessView) -> Seq<char> {
    "\n"@ + summary_label(s) + ":\n  status #"@ + text::decimal(s.entry.id as int) + " "@
        + s.entry.title + "\n"@ + section(
        ""@,
        text::lined("  possibly stale: "@, f.facts),
        f.possibly_stale,
    )
}

fn summary_part_text(s: &CurrentStatus, f: &Freshness) -> (r: String)
    ensures
        r@ == summary_part(s@, f@),
{
    let label = if s.designated {
        "current summary"
    } else {
        FALLBACK_NOTE
    };
    let id = int_text(s.entry.id);
    let mut out = cat3("\n", label, ":\n  status #");
    out.append(id.as_str());
    out.append(" ");
    out.append(s.entry.title.as_str());
    out.append("\n");
    let facts = lines_of("  possibly stale: ", &f.facts);
    let part = section_text("", facts.as_str(), f.possibly_stale);
    out.append(part.as_str());
    out
}

/// The overview of a project: tasks by status, active, blocked and ready work,
/// the current summary and the branch.
pub open spec fn overview(
    name: Seq<char>,
    root: Seq<char>,
    all: Seq<TaskView>,
    summary: Option<(CurrentStatusView, FreshnessView)>,
    branch: Option<Seq<char>>,
) -> Seq<char> {
    let active = service::active_among(all);
    let blocked = service::blocked_among(all);
    let ready = order::sorted_by(service::ready_among(all), service::urgency());
    "project: "@ + name + " ("@ + root + ")\n\n"@ + text::lined(
        "  "@,
        count_lines(service::counted(all)),
    ) + section("\nactive:\n"@, text::lined("  "@, task_lines(active)), active.len() > 0) + section(
        "\nblocked:\n"@,
        text::lined("  "@, task_lines(blocked)),
        blocked.len() > 0,
    ) + section(
        "\nready (open, unblocked, deps closed):\n"@,
        ready_part(ready),
        ready.len() > 0,
    ) + (match summary {
        Some((s, f)) => summary_part(s, f),
        None => Seq::empty(),
    }) + text::named("\nbranch: "@, branch)
}

/// The overview of a project.
pub fn status_overview(
    name: &str,
    root: &str,
    all: &Vec<Task>,
    summary: &Option<(CurrentStatus, Freshness)>,
    branch: &Option<String>,
) -> (r: String)
    ensures
        r@ == overview(
            name@,
            root@,
            model::tasks(all@),
            service::summary_of(*summary),
            text::opt_text(*branch),
        ),
{
    let mut out = cat3("project: ", name, " (");
    out.append(root);
    out.append(")\n\n");
    let c = status_counts(all);
    let lines = count_texts(&c);
    let body = lines_of("  ", &lines);
    out.append(body.as_str());
    let lines = active_texts(all);
    let body = lines_of("  ", &lines);
    assert(text::texts(lines@).len() == lines.len());
    let part = section_text("\nactive:\n", body.as_str(), lines.len() > 0);
    out.append(part.as_str());
    let lines = blocked_texts(all);
    let body = lines_of("  ", &lines);
    assert(text::texts(lines@).len() == lines.len());
    let part = section_text("\nblocked:\n", body.as_str(), lines.len() > 0);
    out.append(part.as_str());
    let ready = ready_tasks(all);
    assert(model::tasks(ready@).len() == ready.len());
    let body = ready_part_text(&ready);
    let part = section_text(
        "\nready (open, unblocked, deps closed):\n",
        body.as_str(),
        ready.len() > 0,
    );
    out.append(part.as_str());
    let ghost so_far = out@;
    if let Some((s, f)) = summary {
        let part = summary_part_text(s, f);
        out.append(part.as_str());
    } else {
        assert(so_far =~= so_far + Seq::<char>::empty());
    }
    let line = named_line("\nbranch: ", branch);
    out.append(line.as_str());
    out
}

/// What the list of projects says of one: how many tasks it has, and how many
/// of them are active.
pub fn project_figures(all: &Vec<Task>) -> (r: (usize, usize))
    ensures
        r.0 == all.len(),
        r.1 == service::count_of(model::tasks(all@), TaskStatus::Started),
{
    (all.len(), count_status(all, TaskStatus::Started))
}

/// A project of a workspace as JSON.
pub fn project_json(name: &str, path: &str, all: &Vec<Task>) -> (r: Json)
    ensures
        r@ == JsonView::Object(
            seq![
                json::member("name"@, JsonView::Text(name@)),
                json::member("path"@, JsonView::Text(path@)),
                json::member(
                    "counts"@,
                    service::counts_value(service::counted(model::tasks(all@))),
                ),
            ],
        ),
{
    let mut m = no_members();
    add_member(&mut m, "name", from_text(name));
    add_member(&mut m, "path", from_text(path));
    let c = status_counts(all);
    add_member(&mut m, "counts", service::counts_json(&c));
    assert(json::members(m@) =~= seq![
        json::member("name"@, JsonView::Text(name@)),
        json::member("path"@, JsonView::Text(path@)),
        json::member("counts"@, service::counts_value(service::counted(model::tasks(all@)))),
    ]);
    from_members(m)
}

// ===== knowledge base =====

/// A knowledge base entry.
pub open spec fn entry_lines(e: KnowledgeEntryView) -> Seq<char> {
    "["@ + model::kind_name(e.kind) + "] #"@ + text::decimal(e.id as int) + " "@ + e.title + "\n"@
        + section("tags: "@, text::joined(e.tags, ", "@) + "\n"@, e.tags.len() > 0) + (
    match e.related_task {
        Some(t) => "related task: #"@ + text::decimal(t as int) + "\n"@,
        None => Seq::empty(),
    }) + text::named("actor: "@, e.actor) + "created: "@ + e.created_at + "\nupdated: "@
        + e.updated_at + "\n\n"@ + e.content + "\n"@
}

/// A knowledge base entry.
pub fn kb_entry_text(e: &KnowledgeEntry) -> (r: String)
    ensures
        r@ == entry_lines(e@),
{
    let id = int_text(e.id);
    let mut out = cat3("[", e.kind.as_str(), "] #");
    out.append(id.as_str());
    out.append(" ");
    out.append(e.title.as_str());
    out.append("\n");
    let tags = join(&e.tags, ", ");
    let tags = cat(tags.as_str(), "\n");
    let part = section_text("tags: ", tags.as_str(), e.tags.len() > 0);
    out.append(part.as_str());
    let ghost so_far = out@;
    if let Some(t) = e.related_task {
        let n = int_text(t);
        let line = cat3("related task: #", n.as_str(), "\n");
        out.append(line.as_str());
    } else {
        assert(so_far =~= so_far + Seq::<char>::empty());
    }
    let actor = named_line("actor: ", &e.actor);
    out.append(actor.as_str());
    out.append("created: ");
    out.append(e.created_at.as_str());
    out.append("\nupdated: ");
    out.append(e.updated_at.as_str());
    out.append("\n\n");
    out.append(e.content.as_str());
    out.append("\n");
    out
}

/// Who designated a summary, and the commit it claims to describe.
pub open spec fn designation_lines(o: Option<CurrentSummaryView>) -> Seq<char> {
    match o {
        Some(c) => "designated by "@ + c.set_by + " at "@ + c.set_at + "\n"@ + text::named(
            "recorded commit: "@,
            c.commit,
        ),
        None => Seq::empty(),
    }
}

fn designation_text(o: &Option<CurrentSummary>) -> (r: String)
    ensures
        r@ == designation_lines(knowledge::opt_summary(*o)),
{
    match o {
        Some(c) => {
            let mut out = cat3("designated by ", c.set_by.as_str(), " at ");
            out.append(c.set_at.as_str());
            out.append("\n");
            let commit = named_line("recorded commit: ", &c.commit);
            out.append(commit.as_str());
            out
        },
        None => {
            let r = String::new();
            assert(r@ =~= Seq::<char>::empty());
            r
        },
    }
}

/// Freshness facts: evidence, never a verdict on the prose.
pub open spec fn freshness_lines(f: FreshnessView) -> Seq<char> {
    if f.possibly_stale {
        "\nfreshness (facts, not a verdict on the prose):\n"@ + text::lined("  - "@, f.facts)
    } else if f.commit_matches_head == Some(true) {
        "freshness: no task/KB updates postdate this summary; commit matches local HEAD\n"@
    } else {
        "freshness: no task/KB updates postdate this summary\n"@
    }
}

fn freshness_text(f: &Freshness) -> (r: String)
    ensures
        r@ == freshness_lines(f@),
{
    if f.possibly_stale {
        let facts = lines_of("  - ", &f.facts);
        cat("\nfreshness (facts, not a verdict on the prose):\n", facts.as_str())
    } else {
        let matches_head = match f.commit_matches_head {
            Some(b) => b,
            None => false,
        };
        if matches_head {
            owned("freshness: no task/KB updates postdate this summary; commit matches local HEAD\n")
        } else {
            owned("freshness: no task/KB updates postdate this summary\n")
        }
    }
}

/// The current project summary, with provenance and freshness facts, or the
/// labeled fallback.
pub open spec fn status_lines(summary: Option<(CurrentStatusView, FreshnessView)>) -> Seq<char> {
    match summary {
        Some((s, f)) => (if s.designated {
            "== current summary (designated) ==\n"@
        } else {
            "== "@ + FALLBACK_NOTE@ + " ==\n"@
        }) + entry_lines(s.entry) + designation_lines(s.designation) + freshness_lines(f),
        None => "no status recorded\n"@,
    }
}

/// The current project summary, with provenance and freshness facts, or the
/// labeled fallback.
pub fn kb_status_text(summary: &Option<(CurrentStatus, Freshness)>) -> (r: String)
    ensures
        r@ == status_lines(service::summary_of(*summary)),
{
    match summary {
        Some((s, f)) => {
            let mut out = if s.designated {
                owned("== current summary (designated) ==\n")
            } else {
                cat3("== ", FALLBACK_NOTE, " ==\n")
            };
            let entry = kb_entry_text(&s.entry);
            let by = designation_text(&s.designation);
            let fresh = freshness_text(f);
            out.append(entry.as_str());
            out.append(by.as_str());
            out.append(fresh.as_str());
            out
        },
        None => owned("no status recorded\n"),
    }
}

/// Whether a new entry may be designated as the current summary: only status
/// entries are.
pub fn check_set_current(kind: KnowledgeKind, set_current: bool) -> (r: Result<(), Error>)
    ensures
        match r {
            Ok(_) => kind == KnowledgeKind::Status || !set_current,
            Err(e) => kind != KnowledgeKind::Status && set_current && e@
                == "--set-current only applies to status entries"@,
        },
{
    if kind != KnowledgeKind::Status && set_current {
        Err(Error::fixed("--set-current only applies to status entries"))
    } else {
        Ok(())
    }
}

/// The change that the arguments of an edit ask for: empty lists leave lists
/// as they are.
pub fn kb_change(
    title: Option<String>,
    content: Option<String>,
    tags: Vec<String>,
    related_task: Option<i64>,
    supersedes: Vec<i64>,
    actor: &str,
) -> (r: EntryChange)
    ensures
        r.title == title,
        r.content == content,
        json::opt_texts(r.tags) == (if tags.len() == 0 {
            None
        } else {
            Some(text::texts(tags@))
        }),
        r.related_task == related_task,
        match r.supersedes {
            Some(s) => supersedes.len() > 0 && s@ == supersedes@,
            None => supersedes.len() == 0,
        },
        text::opt_text(r.actor) == Some(actor@),
{
    EntryChange {
        title,
        content,
        tags: if tags.len() == 0 {
            None
        } else {
            Some(tags)
        },
        related_task,
        supersedes: if supersedes.len() == 0 {
            None
        } else {
            Some(supersedes)
        },
        actor: Some(owned(actor)),
    }
}

/// What a draft says of a task.
pub open spec fn draft_part(t: TaskView) -> Seq<char> {
    "\nTask #"@ + text::decimal(t.id as int) + " ["@ + model::status_name(t.status) + "] "@ + t.title
        + "\n"@ + detail_report(t)
}

/// The tasks of a draft: those that changed after the summary, or every task
/// where there is no summary.
pub open spec fn drafted(all: Seq<TaskView>, changed: Option<Seq<i64>>) -> Seq<TaskView> {
    all.filter(
        |t: TaskView|
            match changed {
                Some(ids) => ids.contains(t.id),
                None => true,
            },
    )
}

/// A draft of a status entry.
pub open spec fn draft(all: Seq<TaskView>, changed: Option<Seq<i64>>) -> Seq<char> {
    "DRAFT ONLY: review and edit before recording it as a status entry.\n"@ + text::joined(
        drafted(all, changed).map_values(|t: TaskView| draft_part(t)),
        ""@,
    )
}

/// The ids of the tasks that changed after a summary.
pub open spec fn changed_ids(f: Option<&Freshness>) -> Option<Seq<i64>> {
    match f {
        Some(f) => Some(f.tasks_updated_after@),
        None => None,
    }
}

/// Drafts a status entry from the reports of the tasks that changed after the
/// current summary. Nothing is recorded.
pub fn draft_status(all: &Vec<Task>, freshness: Option<&Freshness>) -> (r: String)
    ensures
        r@ == draft(model::tasks(all@), changed_ids(freshness)),
{
    let ghost list = model::tasks(all@);
    let ghost ids = changed_ids(freshness);
    let ghost keep = |t: TaskView|
        match ids {
            Some(ids) => ids.contains(t.id),
            None => true,
        };
    let ghost form = |t: TaskView| draft_part(t);
    let mut out: Vec<String> = Vec::new();
    let mut i: usize = 0;
    assert(list.take(0).filter(keep) =~= Seq::empty()) by {
        reveal(Seq::filter);
    }
    assert(text::texts(out@) =~= list.take(0).filter(keep).map_values(form));
    while i < all.len()
        invariant
            i <= all.len(),
            list == model::tasks(all@),
            ids == changed_ids(freshness),
            keep == (|t: TaskView|
                match ids {
                    Some(ids) => ids.contains(t.id),
                    None => true,
                }),
            form == (|t: TaskView| draft_part(t)),
            text::texts(out@) == list.take(i as int).filter(keep).map_values(form),
        decreases all.len() - i,
    {
        proof {
            text::lemma_filter_take(list, keep, i as int);
        }
        let t = &all[i];
        let kept = match freshness {
            Some(f) => graph::holds(&f.tasks_updated_after, t.id),
            None => true,
        };
        assert(kept == keep(list[i as int]));
        if kept {
            let ghost before = text::texts(out@);
            let id = int_text(t.id);
            let mut part = cat3("\nTask #", id.as_str(), " [");
            part.append(t.status.as_str());
            part.append("] ");
            part.append(t.title.as_str());
            part.append("\n");
            let report = report_text(t);
            part.append(report.as_str());
            out.push(part);
            assert(text::texts(out@) =~= before.push(part@));
            assert(list.take(i + 1).filter(keep).map_values(form) =~= before.push(
                draft_part(list[i as int]),
            ));
        }
        i += 1;
    }
    assert(list.take(i as int) =~= list);
    assert(drafted(list, ids) == list.filter(keep));
    let body = join(&out, "");
    cat(
        "DRAFT ONLY: review and edit before recording it as a status entry.\n",
        body.as_str(),
    )
}

// ===== doctor and repair =====

/// How many findings are errors.
pub open spec fn error_count(f: Seq<FindingView>) -> nat {
    f.filter(|x: FindingView| x.severity == Severity::Error).len()
}

/// How many findings are errors, and how many are warnings.
pub fn finding_counts(findings: &Vec<Finding>) -> (r: (usize, usize))
    ensures
        r.0 == error_count(diag::findings(findings@)),
        r.0 + r.1 == findings.len(),
{
    let ghost all = diag::findings(findings@);
    let ghost keep = |x: FindingView| x.severity == Severity::Error;
    let mut errors: usize = 0;
    let mut i: usize = 0;
    assert(all.take(0).filter(keep).len() == 0) by {
        reveal(Seq::filter);
    }
    while i < findings.len()
        invariant
            i <= findings.len(),
            errors <= i,
            all == diag::findings(findings@),
            keep == (|x: FindingView| x.severity == Severity::Error),
            errors == all.take(i as int).filter(keep).len(),
        decreases findings.len() - i,
    {
        proof {
            text::lemma_filter_take(all, keep, i as int);
        }
        if findings[i].severity == Severity::Error {
            errors += 1;
        }
        i += 1;
    }
    assert(all.take(i as int) =~= all);
    (errors, findings.len() - errors)
}

/// The exit code of the doctor: errors fail, warnings alone do not.
pub fn doctor_code(errors: usize) -> (r: i32)
    ensures
        r == if errors > 0 {
            1int
        } else {
            0
        },
{
    if errors > 0 {
        1
    } else {
        0
    }
}

/// A finding and the action it suggests.
pub open spec fn finding_lines(f: FindingView) -> Seq<char> {
    diag::severity_name(f.severity) + "["@ + f.code + "] "@ + f.file + (match f.field {
        Some(x) => " field="@ + x,
        None => Seq::empty(),
    }) + ": "@ + f.message + "\n    -> "@ + f.suggestion + "\n"@
}

fn finding_text(f: &Finding) -> (r: String)
    ensures
        r@ == finding_lines(f@),
{
    let mut out = cat3(f.severity.as_str(), "[", f.code);
    out.append("] ");
    out.append(f.file.as_str());
    let ghost so_far = out@;
    if let Some(x) = &f.field {
        let field = cat(" field=", x.as_str());
        out.append(field.as_str());
    } else {
        assert(so_far =~= so_far + Seq::<char>::empty());
    }
    out.append(": ");
    out.append(f.message.as_str());
    out.append("\n    -> ");
    out.append(f.suggestion.as_str());
    out.append("\n");
    out
}

/// What the doctor says of the repository of a project whose config loads.
pub open spec fn repo_line(
    mode: Option<GitIntegration>,
    has_git: bool,
    branch: Option<Seq<char>>,
) -> Seq<char> {
    match mode {
        Some(m) => if has_git {
            match branch {
                Some(b) => "repo ok, branch: "@ + b + "\n"@,
                None => "repo present (no current branch / detached)\n"@,
            }
        } else if m == GitIntegration::Auto {
            "note: git_integration is 'auto' but this folder is not a git repo\n"@
        } else {
            Seq::empty()
        },
        None => Seq::empty(),
    }
}

fn repo_text(mode: Option<GitIntegration>, has_git: bool, branch: &Option<String>) -> (r: String)
    ensures
        r@ == repo_line(mode, has_git, text::opt_text(*branch)),
{
    let nothing = String::new();
    assert(nothing@ =~= Seq::<char>::empty());
    match mode {
        Some(m) => if has_git {
            match branch {
                Some(b) => cat3("repo ok, branch: ", b.as_str(), "\n"),
                None => owned("repo present (no current branch / detached)\n"),
            }
        } else if m == GitIntegration::Auto {
            owned("note: git_integration is 'auto' but this folder is not a git repo\n")
        } else {
            nothing
        },
        None => nothing,
    }
}

/// What the doctor says of the findings.
pub open spec fn findings_part(f: Seq<FindingView>) -> Seq<char> {
    if f.len() == 0 {
        "ok\n"@
    } else {
        text::joined(f.map_values(|x: FindingView| finding_lines(x)), ""@) + text::numeral(
            error_count(f),
        ) + " error(s), "@ + text::numeral((f.len() - error_count(f)) as nat) + " warning(s)\n"@
            + section(
            ""@,
            "hint: run `jay repair` to preview safe explicit repairs (dry run by default)\n"@,
            error_count(f) > 0,
        )
    }
}

fn findings_text(findings: &Vec<Finding>) -> (r: String)
    ensures
        r@ == findings_part(diag::findings(findings@)),
{
    if findings.len() == 0 {
        return owned("ok\n");
    }
    let ghost all = diag::findings(findings@);
    let mut parts: Vec<String> = Vec::new();
    let mut i: usize = 0;
    while i < findings.len()
        invariant
            i <= findings.len(),
            all == diag::findings(findings@),
            parts.len() == i,
            forall|j: int| 0 <= j < i ==> #[trigger] parts@[j]@ == finding_lines(all[j]),
        decreases findings.len() - i,
    {
        parts.push(finding_text(&findings[i]));
        i += 1;
    }
    assert(text::texts(parts@) =~= all.map_values(|x: FindingView| finding_lines(x)));
    let (errors, warnings) = finding_counts(findings);
    let e = natural_text(errors as u128);
    let w = natural_text(warnings as u128);
    let mut out = join(&parts, "");
    out.append(e.as_str());
    out.append(" error(s), ");
    out.append(w.as_str());
    out.append(" warning(s)\n");
    let hint = section_text(
        "",
        "hint: run `jay repair` to preview safe explicit repairs (dry run by default)\n",
        errors > 0,
    );
    out.append(hint.as_str());
    out
}

/// The findings of a project as the doctor shows them; `mode` is the policy of
/// a config that loads.
pub fn doctor_text(
    findings: &Vec<Finding>,
    mode: Option<GitIntegration>,
    has_git: bool,
    branch: &Option<String>,
) -> (r: String)
    ensures
        r@ == repo_line(mode, has_git, text::opt_text(*branch)) + findings_part(
            diag::findings(findings@),
        ),
{
    let mut out = repo_text(mode, has_git, branch);
    let part = findings_text(findings);
    out.append(part.as_str());
    out
}

/// A finding as JSON.
pub open spec fn finding_value(f: FindingView) -> JsonView {
    JsonView::Object(
        seq![
            json::member("file"@, JsonView::Text(f.file)),
            json::member("field"@, json::text_or_null(f.field)),
            json::member("severity"@, JsonView::Text(diag::severity_name(f.severity))),
            json::member("code"@, JsonView::Text(f.code)),
            json::member("message"@, JsonView::Text(f.message)),
            json::member("suggestion"@, JsonView::Text(f.suggestion)),
        ],
    )
}

fn finding_json(f: &Finding) -> (r: Json)
    ensures
        r@ == finding_value(f@),
{
    let mut m = no_members();
    add_member(&mut m, "file", from_text(f.file.as_str()));
    add_member(&mut m, "field", from_opt_text(&f.field));
    add_member(&mut m, "severity", from_text(f.severity.as_str()));
    add_member(&mut m, "code", from_text(f.code));
    add_member(&mut m, "message", from_text(f.message.as_str()));
    add_member(&mut m, "suggestion", from_text(f.suggestion.as_str()));
    assert(json::members(m@) =~= finding_value(f@)->Object_0);
    from_members(m)
}

/// The findings of a project as JSON.
pub open spec fn doctor_value(f: Seq<FindingView>) -> JsonView {
    JsonView::Object(
        seq![
            json::member("ok"@, JsonView::Bool(error_count(f) == 0)),
            json::member("errors"@, json::natural(error_count(f))),
            json::member("warnings"@, json::natural((f.len() - error_count(f)) as nat)),
            json::member(
                "findings"@,
                JsonView::Array(f.map_values(|x: FindingView| finding_value(x))),
            ),
        ],
    )
}

/// The findings of a project as JSON.
pub fn doctor_json(findings: &Vec<Finding>) -> (r: Json)
    ensures
        r@ == doctor_value(diag::findings(findings@)),
{
    let ghost all = diag::findings(findings@).map_values(|x: FindingView| finding_value(x));
    let (errors, warnings) = finding_counts(findings);
    let mut list = no_values();
    let mut i: usize = 0;
    assert(all.take(0) =~= Seq::empty());
    while i < findings.len()
        invariant
            i <= findings.len(),
            all == diag::findings(findings@).map_values(|x: FindingView| finding_value(x)),
            json::jsons(list@) == all.take(i as int),
        decreases findings.len() - i,
    {
        assert(all.take(i + 1) =~= all.take(i as int).push(all[i as int]));
        add_value(&mut list, finding_json(&findings[i]));
        i += 1;
    }
    assert(all.take(i as int) =~= all);
    let mut m = no_members();
    add_member(&mut m, "ok", Json::Bool(errors == 0));
    add_member(&mut m, "errors", from_natural(errors));
    add_member(&mut m, "warnings", from_natural(warnings));
    add_member(&mut m, "findings", from_values(list));
    assert(json::members(m@) =~= doctor_value(diag::findings(findings@))->Object_0);
    from_members(m)
}

/// An operation that repair proposes or applied.
pub open spec fn op_line(applied: bool, o: RepairOpView) -> Seq<char> {
    (if applied {
        "applied"@
    } else {
        "proposed (dry run)"@
    }) + " ["@ + o.code + "] "@ + o.file + ": "@ + o.description
}

/// A finding that repair cannot fix.
pub open spec fn unresolved_line(f: FindingView) -> Seq<char> {
    diag::severity_name(f.severity) + "["@ + f.code + "] "@ + f.file + ": "@ + f.message
}

/// What a repair run proposes or applied, backed up and left open.
pub open spec fn repair_lines(
    applied: bool,
    ops: Seq<RepairOpView>,
    backups: Seq<Seq<char>>,
    left: Seq<FindingView>,
) -> Seq<char> {
    (if ops.len() == 0 {
        "no repairable issues found\n"@
    } else {
        text::lined(""@, ops.map_values(|o: RepairOpView| op_line(applied, o)))
    }) + text::lined("backup: "@, backups) + section(
        "\nunresolved (repair cannot fix these — they need explicit user/agent updates; jay never fabricates evidence):\n"@,
        text::lined("  "@, left.map_values(|f: FindingView| unresolved_line(f))),
        left.len() > 0,
    ) + section(
        ""@,
        "\nre-run with --apply to write these changes (backups are created automatically)\n"@,
        !applied && ops.len() > 0,
    )
}

/// What a repair run proposes or applied, backed up and left open.
pub fn repair_text(report: &RepairReport, apply: bool) -> (r: String)
    ensures
        r@ == repair_lines(
            apply,
            diag::repair_ops(report.proposed@),
            text::texts(report.backups@),
            diag::findings(report.unresolved@),
        ),
{
    let ghost ops = diag::repair_ops(report.proposed@);
    let ghost left = diag::findings(report.unresolved@);
    let mode = if apply {
        "applied"
    } else {
        "proposed (dry run)"
    };
    let mut lines: Vec<String> = Vec::new();
    let mut i: usize = 0;
    while i < report.proposed.len()
        invariant
            i <= report.proposed.len(),
            ops == diag::repair_ops(report.proposed@),
            mode@ == (if apply {
                "applied"@
            } else {
                "proposed (dry run)"@
            }),
            lines.len() == i,
            forall|j: int| 0 <= j < i ==> #[trigger] lines@[j]@ == op_line(apply, ops[j]),
        decreases report.proposed.len() - i,
    {
        let o = &report.proposed[i];
        let mut line = cat3(mode, " [", o.code);
        line.append("] ");
        line.append(o.file.as_str());
        line.append(": ");
        line.append(o.description.as_str());
        lines.push(line);
        i += 1;
    }
    assert(text::texts(lines@) =~= ops.map_values(|o: RepairOpView| op_line(apply, o)));
    let mut out = if report.proposed.len() == 0 {
        owned("no repairable issues found\n")
    } else {
        lines_of("", &lines)
    };
    let backups = lines_of("backup: ", &report.backups);
    out.append(backups.as_str());
    let mut open: Vec<String> = Vec::new();
    let mut i: usize = 0;
    while i < report.unresolved.len()
        invariant
            i <= report.unresolved.len(),
            left == diag::findings(report.unresolved@),
            open.len() == i,
            forall|j: int| 0 <= j < i ==> #[trigger] open@[j]@ == unresolved_line(left[j]),
        decreases report.unresolved.len() - i,
    {
        let f = &report.unresolved[i];
        let mut line = cat3(f.severity.as_str(), "[", f.code);
        line.append("] ");
        line.append(f.file.as_str());
        line.append(": ");
        line.append(f.message.as_str());
        open.push(line);
        i += 1;
    }
    assert(text::texts(open@) =~= left.map_values(|f: FindingView| unresolved_line(f)));
    let body = lines_of("  ", &open);
    let part = section_text(
        "\nunresolved (repair cannot fix these — they need explicit user/agent updates; jay never fabricates evidence):\n",
        body.as_str(),
        report.unresolved.len() > 0,
    );
    out.append(part.as_str());
    let part = section_text(
        "",
        "\nre-run with --apply to write these changes (backups are created automatically)\n",
        !apply && report.proposed.len() > 0,
    );
    out.append(part.as_str());
    out
}

/// The doctor fails exactly on errors: its exit code is 0 on a project whose
/// findings are all warnings, and 1 on any other.
pub proof fn law_warnings_do_not_fail(f: Seq<FindingView>)
    ensures
        error_count(f) == 0 <==> forall|i: int|
            0 <= i < f.len() ==> (#[trigger] f[i]).severity == Severity::Warning,
{
    let is_error = |x: FindingView| x.severity == Severity::Error;
    let errors = f.filter(is_error);
    if errors.len() > 0 {
        text::lemma_filter_keeps(f, is_error, 0);
        let i = choose|i: int| 0 <= i < f.len() && f[i] == errors[0];
        assert(f[i].severity == Severity::Error);
    } else {
        assert forall|i: int| 0 <= i < f.len() implies (#[trigger] f[i]).severity
            == Severity::Warning by {
            if is_error(f[i]) {
                f.lemma_filter_contains(is_error, i);
            }
        }
    }
}

// ===== finding tasks =====

/// Whether `needle` is a subsequence of `hay`.
pub open spec fn subsequence(needle: Seq<char>, hay: Seq<char>) -> bool
    decreases hay.len(),
{
    if needle.len() == 0 {
        true
    } else if hay.len() == 0 {
        false
    } else if needle.last() == hay.last() {
        subsequence(needle.drop_last(), hay.drop_last())
    } else {
        subsequence(needle, hay.drop_last())
    }
}

/// True if `needle` is a subsequence of `hay`, both in lower case.
pub fn is_subsequence(needle: &str, hay: &str) -> (r: bool)
    ensures
        r == subsequence(needle@, hay@),
{
    let n = chars_of(needle);
    let h = chars_of(hay);
    let mut i: usize = n.len();
    let mut j: usize = h.len();
    assert(n@.take(i as int) =~= needle@);
    assert(h@.take(j as int) =~= hay@);
    while i > 0 && j > 0
        invariant
            i <= n.len(),
            j <= h.len(),
            n@ == needle@,
            h@ == hay@,
            subsequence(needle@, hay@) == subsequence(n@.take(i as int), h@.take(j as int)),
        decreases j,
    {
        assert(h@.take(j as int).drop_last() =~= h@.take(j - 1));
        assert(n@.take(i as int).drop_last() =~= n@.take(i - 1));
        assert(n@.take(i as int).last() == n@[i - 1]);
        assert(h@.take(j as int).last() == h@[j - 1]);
        if n[i - 1] == h[j - 1] {
            i -= 1;
        }
        j -= 1;
    }
    i == 0
}

/// True if `needle` is a subsequence of `hay` (case-insensitive).
pub fn fuzzy_match(needle: &str, hay: &str) -> (r: bool)
    ensures
        r == subsequence(text::lowercase(needle@), text::lowercase(hay@)),
{
    let n = to_lower(needle);
    let h = to_lower(hay);
    is_subsequence(n.as_str(), h.as_str())
}

/// Whether `picks` tells which characters of `hay` make up `needle`, in order.
pub open spec fn picked(needle: Seq<char>, hay: Seq<char>, picks: Seq<int>) -> bool {
    &&& picks.len() == needle.len()
    &&& forall|i: int|
        0 <= i < picks.len() ==> 0 <= #[trigger] picks[i] < hay.len() && hay[picks[i]] == needle[i]
    &&& forall|i: int, j: int| 0 <= i < j < picks.len() ==> #[trigger] picks[i] < #[trigger] picks[j]
}

proof fn lemma_subsequence_picks(needle: Seq<char>, hay: Seq<char>) -> (picks: Seq<int>)
    requires
        subsequence(needle, hay),
    ensures
        picked(needle, hay, picks),
    decreases hay.len(),
{
    if needle.len() == 0 {
        Seq::empty()
    } else if needle.last() == hay.last() {
        let p = lemma_subsequence_picks(needle.drop_last(), hay.drop_last());
        let q = p.push(hay.len() - 1);
        assert forall|i: int| 0 <= i < q.len() implies 0 <= #[trigger] q[i] < hay.len()
            && hay[q[i]] == needle[i] by {
            if i < p.len() {
                assert(q[i] == p[i]);
            }
        }
        q
    } else {
        let p = lemma_subsequence_picks(needle, hay.drop_last());
        assert forall|i: int| 0 <= i < p.len() implies 0 <= #[trigger] p[i] < hay.len()
            && hay[p[i]] == needle[i] by {
            assert(hay.drop_last()[p[i]] == needle[i]);
        }
        p
    }
}

proof fn lemma_picks_subsequence(needle: Seq<char>, hay: Seq<char>, picks: Seq<int>)
    requires
        picked(needle, hay, picks),
    ensures
        subsequence(needle, hay),
    decreases hay.len(),
{
    if needle.len() > 0 {
        let k = needle.len() - 1;
        assert(0 <= picks[k] < hay.len());
        let front = hay.drop_last();
        if needle.last() == hay.last() {
            let p = picks.drop_last();
            assert forall|i: int| 0 <= i < p.len() implies 0 <= #[trigger] p[i] < front.len()
                && front[p[i]] == needle.drop_last()[i] by {
                assert(p[i] == picks[i]);
                assert(picks[i] < picks[k]);
            }
            assert forall|i: int, j: int| 0 <= i < j < p.len() implies #[trigger] p[i]
                < #[trigger] p[j] by {
                assert(picks[i] < picks[j]);
            }
            lemma_picks_subsequence(needle.drop_last(), front, p);
        } else {
            assert(hay[picks[k]] == needle[k]);
            assert forall|i: int| 0 <= i < picks.len() implies 0 <= #[trigger] picks[i]
                < front.len() && front[picks[i]] == needle[i] by {
                if i < k {
                    assert(picks[i] < picks[k]);
                }
            }
            lemma_picks_subsequence(needle, front, picks);
        }
    }
}

/// A fuzzy match is exactly one in which the characters of the needle occur in
/// the hay, in their order.
pub proof fn law_fuzzy_match_picks(needle: Seq<char>, hay: Seq<char>)
    ensures
        subsequence(needle, hay) <==> exists|picks: Seq<int>| picked(needle, hay, picks),
{
    if subsequence(needle, hay) {
        let picks = lemma_subsequence_picks(needle, hay);
        assert(picked(needle, hay, picks));
    }
    if exists|picks: Seq<int>| picked(needle, hay, picks) {
        let picks = choose|picks: Seq<int>| picked(needle, hay, picks);
        lemma_picks_subsequence(needle, hay, picks);
    }
}

/// Filters of a task search.
#[derive(Debug)]
pub struct TaskFilter {
    /// A fuzzy title fragment (every title matches where there is none).
    pub term: Option<String>,
    pub priority: Option<Priority>,
    pub label: Option<String>,
    pub status: Option<TaskStatus>,
}

/// Whether a task passes the filters of a search.
pub open spec fn passes(f: TaskFilter, t: TaskView) -> bool {
    &&& match f.term {
        Some(term) => subsequence(text::lowercase(term@), text::lowercase(t.title)),
        None => true,
    }
    &&& match f.priority {
        Some(p) => t.priority == p,
        None => true,
    }
    &&& match f.label {
        Some(l) => text::among(l@, t.labels),
        None => true,
    }
    &&& match f.status {
        Some(s) => t.status == s,
        None => true,
    }
}

fn does_pass(f: &TaskFilter, t: &Task) -> (r: bool)
    ensures
        r == passes(*f, t@),
{
    let named = match &f.term {
        Some(term) => fuzzy_match(term.as_str(), t.title.as_str()),
        None => true,
    };
    let urgent = match f.priority {
        Some(p) => t.priority == p,
        None => true,
    };
    let labelled = match &f.label {
        Some(l) => is_among(l.as_str(), &t.labels),
        None => true,
    };
    let there = match f.status {
        Some(s) => t.status == s,
        None => true,
    };
    named && urgent && labelled && there
}

/// The tasks that pass the filters of a search, in order.
pub fn find_tasks(all: &Vec<Task>, f: &TaskFilter) -> (r: Vec<Task>)
    ensures
        model::tasks(r@) == model::tasks(all@).filter(|t: TaskView| passes(*f, t)),
{
    let ghost list = model::tasks(all@);
    let ghost keep = |t: TaskView| passes(*f, t);
    let mut out: Vec<Task> = Vec::new();
    let mut i: usize = 0;
    assert(list.take(0).filter(keep) =~= Seq::empty()) by {
        reveal(Seq::filter);
    }
    assert(model::tasks(out@) =~= list.take(0).filter(keep));
    while i < all.len()
        invariant
            i <= all.len(),
            list == model::tasks(all@),
            keep == (|t: TaskView| passes(*f, t)),
            model::tasks(out@) == list.take(i as int).filter(keep),
        decreases all.len() - i,
    {
        proof {
            text::lemma_filter_take(list, keep, i as int);
        }
        if does_pass(f, &all[i]) {
            let ghost before = model::tasks(out@);
            out.push(all[i].clone());
            assert(model::tasks(out@) =~= before.push(list[i as int]));
        }
        i += 1;
    }
    assert(list.take(i as int) =~= list);
    out
}

// ===== config =====

/// The fields of a project config.
pub const CONFIG_FIELDS: [&'static str; 7] = [
    "name",
    "description",
    "goal",
    "git_repo",
    "branch_template",
    "git_integration",
    "links",
];

/// A text, or the empty one.
pub open spec fn or_empty(o: Option<Seq<char>>) -> Seq<char> {
    match o {
        Some(s) => s,
        None => Seq::empty(),
    }
}

fn opt_or_empty(o: &Option<String>) -> (r: String)
    ensures
        r@ == or_empty(text::opt_text(*o)),
{
    match o {
        Some(s) => s.clone(),
        None => {
            let r = String::new();
            assert(r@ =~= Seq::<char>::empty());
            r
        },
    }
}

/// The value of a field in the config file.
pub open spec fn local_field(c: ProjectConfigView, field: Seq<char>) -> Option<Seq<char>> {
    if field == "name"@ {
        Some(c.name)
    } else if field == "description"@ {
        Some(c.description)
    } else if field == "goal"@ {
        Some(or_empty(c.goal))
    } else if field == "git_repo"@ {
        Some(or_empty(c.git_repo))
    } else if field == "branch_template"@ {
        Some(or_empty(c.branch_template))
    } else if field == "git_integration"@ {
        match c.git_integration {
            Some(g) => Some(project::integration_name(g)),
            None => Some(
                project::integration_name(project::effective_integration(c))
                    + " (legacy default)"@,
            ),
        }
    } else if field == "links"@ {
        Some(text::joined(c.links, ","@))
    } else {
        None
    }
}

/// The value of a config field: that of the environment, where it sets one,
/// and that of the config file otherwise.
pub fn get_config_field(cfg: &ProjectConfig, field: &str, env: Option<String>) -> (r: Result<
    String,
    Error,
>)
    ensures
        match (text::opt_text(env), local_field(cfg@, field@)) {
            (Some(v), _) => r matches Ok(x) && x@ == v,
            (None, Some(v)) => r matches Ok(x) && x@ == v,
            (None, None) => r matches Err(e) && e@ == "unknown config field: "@ + field@,
        },
{
    if let Some(v) = env {
        return Ok(v);
    }
    if same(field, "name") {
        Ok(cfg.name.clone())
    } else if same(field, "description") {
        Ok(cfg.description.clone())
    } else if same(field, "goal") {
        Ok(opt_or_empty(&cfg.goal))
    } else if same(field, "git_repo") {
        Ok(opt_or_empty(&cfg.git_repo))
    } else if same(field, "branch_template") {
        Ok(opt_or_empty(&cfg.branch_template))
    } else if same(field, "git_integration") {
        match cfg.git_integration {
            Some(g) => Ok(owned(g.as_str())),
            None => Ok(cat(cfg.effective_git_integration().as_str(), " (legacy default)")),
        }
    } else if same(field, "links") {
        Ok(join(&cfg.links, ","))
    } else {
        Err(Error::new(cat("unknown config field: ", field)))
    }
}

/// The items of a comma-separated list, without blank ones.
pub open spec fn list_items(value: Seq<char>) -> Seq<Seq<char>> {
    text::nonempty(text::split_on(value, ',').map_values(|s: Seq<char>| text::trim(s)))
}

fn items_of(value: &str) -> (r: Vec<String>)
    ensures
        text::texts(r@) == list_items(value@),
{
    let chars = chars_of(value);
    let parts = split(&chars, ',');
    let ghost all = text::split_on(value@, ',');
    let mut items: Vec<String> = Vec::new();
    let mut i: usize = 0;
    while i < parts.len()
        invariant
            i <= parts.len(),
            all == text::texts(parts@),
            items.len() == i,
            forall|j: int| 0 <= j < i ==> #[trigger] items@[j]@ == text::trim(all[j]),
        decreases parts.len() - i,
    {
        items.push(trimmed(parts[i].as_str()));
        i += 1;
    }
    assert(text::texts(items@) =~= all.map_values(|s: Seq<char>| text::trim(s)));
    keep_nonempty(items)
}

/// A config with a field set, or the message with which it is refused.
pub open spec fn config_set(
    c: ProjectConfigView,
    field: Seq<char>,
    value: Seq<char>,
) -> Result<ProjectConfigView, Seq<char>> {
    if field == "name"@ {
        Ok(ProjectConfigView { name: value, ..c })
    } else if field == "description"@ {
        Ok(ProjectConfigView { description: value, ..c })
    } else if field == "goal"@ {
        Ok(ProjectConfigView { goal: Some(value), ..c })
    } else if field == "git_repo"@ {
        Ok(ProjectConfigView { git_repo: Some(value), ..c })
    } else if field == "branch_template"@ {
        Ok(ProjectConfigView { branch_template: Some(value), ..c })
    } else if field == "git_integration"@ {
        match project::integration_of(value) {
            Some(g) => Ok(ProjectConfigView { git_integration: Some(g), ..c }),
            None => Err(
                "unknown git_integration mode: "@ + text::trim(value) + " (use off|auto)"@,
            ),
        }
    } else if field == "links"@ {
        Ok(ProjectConfigView { links: list_items(value), ..c })
    } else {
        Err("unknown config field: "@ + field)
    }
}

/// Sets a config field; a refused value changes nothing.
pub fn set_config_field(cfg: &mut ProjectConfig, field: &str, value: &str) -> (r: Result<
    (),
    Error,
>)
    ensures
        match (r, config_set(old(cfg)@, field@, value@)) {
            (Ok(_), Ok(c)) => final(cfg)@ == c,
            (Err(e), Err(m)) => final(cfg)@ == old(cfg)@ && e@ == m,
            _ => false,
        },
{
    if same(field, "name") {
        cfg.name = owned(value);
    } else if same(field, "description") {
        cfg.description = owned(value);
    } else if same(field, "goal") {
        cfg.goal = Some(owned(value));
    } else if same(field, "git_repo") {
        cfg.git_repo = Some(owned(value));
    } else if same(field, "branch_template") {
        cfg.branch_template = Some(owned(value));
    } else if same(field, "git_integration") {
        match GitIntegration::parse(value) {
            Ok(g) => {
                cfg.git_integration = Some(g);
            },
            Err(e) => {
                return Err(e);
            },
        }
    } else if same(field, "links") {
        cfg.links = items_of(value);
    } else {
        return Err(Error::new(cat("unknown config field: ", field)));
    }
    Ok(())
}

/// Where the effective value of a field comes from.
pub open spec fn origin(c: ProjectConfigView, field: Seq<char>, in_env: bool) -> Seq<char> {
    if in_env {
        "env"@
    } else if field == "git_integration"@ {
        if c.git_integration is Some {
            "local"@
        } else {
            "default"@
        }
    } else {
        match local_field(c, field) {
            Some(v) => if v.len() > 0 {
                "local"@
            } else {
                "default"@
            },
            None => "default"@,
        }
    }
}

/// Where the effective value of a field comes from: the environment, the
/// config file, or the default.
pub fn field_origin(cfg: &ProjectConfig, field: &str, in_env: bool) -> (r: &'static str)
    ensures
        r@ == origin(cfg@, field@, in_env),
{
    if in_env {
        return "env";
    }
    if same(field, "git_integration") {
        return if cfg.git_integration.is_some() {
            "local"
        } else {
            "default"
        };
    }
    match get_config_field(cfg, field, None) {
        Ok(v) => if chars_of(v.as_str()).len() > 0 {
            "local"
        } else {
            "default"
        },
        Err(_) => "default",
    }
}

/// Where the effective value of each field comes from; `env` lists the fields
/// that the environment sets.
pub fn config_origins(cfg: &ProjectConfig, env: &Vec<String>) -> (r: Vec<(String, String)>)
    ensures
        r.len() == 7,
        forall|i: int|
            0 <= i < 7 ==> (#[trigger] r@[i]).0@ == CONFIG_FIELDS@[i]@ && r@[i].1@ == origin(
                cfg@,
                CONFIG_FIELDS@[i]@,
                text::among(CONFIG_FIELDS@[i]@, text::texts(env@)),
            ),
{
    let mut out: Vec<(String, String)> = Vec::new();
    let mut i: usize = 0;
    while i < 7
        invariant
            i <= 7,
            out.len() == i,
            forall|j: int|
                0 <= j < i ==> (#[trigger] out@[j]).0@ == CONFIG_FIELDS@[j]@ && out@[j].1@
                    == origin(
                    cfg@,
                    CONFIG_FIELDS@[j]@,
                    text::among(CONFIG_FIELDS@[j]@, text::texts(env@)),
                ),
        decreases 7 - i,
    {
        let field = CONFIG_FIELDS[i];
        let from = field_origin(cfg, field, is_among(field, env));
        out.push((owned(field), owned(from)));
        i += 1;
    }
    out
}

/// A value that is set is read back: a text field as it was given, the policy
/// under its name.
pub proof fn law_set_field_reads_back(c: ProjectConfigView, field: Seq<char>, value: Seq<char>)
    requires
        config_set(c, field, value) is Ok,
        field != "links"@,
    ensures
        local_field(config_set(c, field, value)->Ok_0, field) == Some(
            if field == "git_integration"@ {
                text::trim(value)
            } else {
                value
            },
        ),
{
    reveal_strlit("name");
    reveal_strlit("description");
    reveal_strlit("goal");
    reveal_strlit("git_repo");
    reveal_strlit("branch_template");
    reveal_strlit("git_integration");
    reveal_strlit("links");
    assert("name"@[0] == 'n' && "description"@[0] == 'd' && "goal"@[1] == 'o' && "git_repo"@.len()
        == 8 && "branch_template"@.len() == 15 && "git_integration"@[0] == 'g'
        && "branch_template"@[0] == 'b');
}

/// Setting a field touches no other field.
pub proof fn law_set_field_touches_one(
    c: ProjectConfigView,
    field: Seq<char>,
    value: Seq<char>,
    other: Seq<char>,
)
    requires
        config_set(c, field, value) is Ok,
        other != field,
        // A legacy policy follows the fields that it is resolved from.
        other != "git_integration"@ || c.git_integration is Some,
    ensures
        local_field(config_set(c, field, value)->Ok_0, other) == local_field(c, other),
{
}

// ===== sessions =====

/// Whether a text names an actor: a human, or an agent by its name.
pub open spec fn is_actor(s: Seq<char>) -> bool {
    s == "human"@ || (match text::after_prefix(s, "agent:"@) {
        Some(name) => !text::blank(name),
        None => false,
    })
}

/// The actor of a session: that of the flag, else that of the environment,
/// else a human.
pub open spec fn actor_of(flag: Option<Seq<char>>, env: Option<Seq<char>>) -> Seq<char> {
    match flag {
        Some(a) => a,
        None => match env {
            Some(a) => a,
            None => "human"@,
        },
    }
}

/// The actor of a session. The flag overrides the environment.
pub fn resolve_actor(flag: Option<String>, env: Option<String>) -> (r: Result<String, Error>)
    ensures
        match r {
            Ok(a) => a@ == actor_of(text::opt_text(flag), text::opt_text(env)) && is_actor(a@),
            Err(e) => !is_actor(actor_of(text::opt_text(flag), text::opt_text(env))) && e@
                == "actor must be 'human' or 'agent:<name>', not '"@ + actor_of(
                text::opt_text(flag),
                text::opt_text(env),
            ) + "'"@,
        },
{
    let actor = match flag {
        Some(a) => a,
        None => match env {
            Some(a) => a,
            None => owned("human"),
        },
    };
    let known = if same(actor.as_str(), "human") {
        true
    } else {
        match strip_prefix(actor.as_str(), "agent:") {
            Some(name) => !is_blank(name.as_str()),
            None => false,
        }
    };
    if known {
        Ok(actor)
    } else {
        Err(
            Error::new(
                cat3("actor must be 'human' or 'agent:<name>', not '", actor.as_str(), "'"),
            ),
        )
    }
}

/// The project folder of a context; a workspace has none.
pub fn require_project(ctx: Context) -> (r: Result<String, Error>)
    ensures
        match ctx {
            Context::Project(p) => r matches Ok(x) && x@ == p@,
            Context::Workspace(_) => r matches Err(e) && e@
                == "this command needs a project — cd into a project folder (or a subfolder)"@,
        },
{
    match ctx {
        Context::Project(p) => Ok(p),
        Context::Workspace(_) => Err(
            Error::fixed(
                "this command needs a project — cd into a project folder (or a subfolder)",
            ),
        ),
    }
}

/// The project folder that a task moves to.
pub fn require_destination(ctx: Context) -> (r: Result<String, Error>)
    ensures
        match ctx {
            Context::Project(p) => r matches Ok(x) && x@ == p@,
            Context::Workspace(_) => r matches Err(e) && e@
                == "destination must be a project folder (with .nest)"@,
        },
{
    match ctx {
        Context::Project(p) => Ok(p),
        Context::Workspace(_) => Err(
            Error::fixed("destination must be a project folder (with .nest)"),
        ),
    }
}

/// The kind of a context.
pub open spec fn context_kind(ctx: Context) -> Seq<char> {
    match ctx {
        Context::Project(_) => "project"@,
        Context::Workspace(_) => "workspace"@,
    }
}

/// The kind of a context.
pub fn kind_of_context(ctx: &Context) -> (r: &'static str)
    ensures
        r@ == context_kind(*ctx),
{
    match ctx {
        Context::Project(_) => "project",
        Context::Workspace(_) => "workspace",
    }
}

/// How many of the diagnostics of a task were there before.
pub open spec fn seen(t: TaskView, before: nat) -> int {
    if before < t.git_diagnostics.len() {
        before as int
    } else {
        t.git_diagnostics.len() as int
    }
}

/// What an action did to a task that had `before` diagnostics.
pub open spec fn action_lines(id: i64, t: TaskView, before: nat) -> Seq<char> {
    "task "@ + text::decimal(id as int) + (if t.blocked {
        " is blocked: "@ + (match t.block_reason {
            Some(r) => r,
            None => "no reason"@,
        })
    } else {
        " -> "@ + model::status_name(t.status)
    }) + "\n"@ + text::joined(
        t.git_diagnostics.skip(seen(t, before)).map_values(
            |d: GitDiagnosticView|
                "git integration ("@ + d.operation + "): "@ + d.message + "\n"@,
        ),
        ""@,
    )
}

/// What an action did to a task that had `before` diagnostics.
pub fn action_text(id: i64, t: &Task, before: usize) -> (r: String)
    ensures
        r@ == action_lines(id, t@, before as nat),
{
    let n = int_text(id);
    let what = if t.blocked {
        let reason = match &t.block_reason {
            Some(r) => r.as_str(),
            None => "no reason",
        };
        cat(" is blocked: ", reason)
    } else {
        cat(" -> ", t.status.as_str())
    };
    let mut out = cat3("task ", n.as_str(), what.as_str());
    out.append("\n");
    let ghost form = |d: GitDiagnosticView|
        "git integration ("@ + d.operation + "): "@ + d.message + "\n"@;
    let first: usize = if before < t.git_diagnostics.len() {
        before
    } else {
        t.git_diagnostics.len()
    };
    let ghost new = t@.git_diagnostics.skip(first as int);
    let mut lines: Vec<String> = Vec::new();
    let mut i: usize = first;
    while i < t.git_diagnostics.len()
        invariant
            first <= i <= t.git_diagnostics.len(),
            new == t@.git_diagnostics.skip(first as int),
            form == (|d: GitDiagnosticView|
                "git integration ("@ + d.operation + "): "@ + d.message + "\n"@),
            lines.len() == i - first,
            forall|j: int| 0 <= j < i - first ==> #[trigger] lines@[j]@ == form(new[j]),
        decreases t.git_diagnostics.len() - i,
    {
        let d = &t.git_diagnostics[i];
        assert(new[i - first] == d@);
        let mut line = cat3("git integration (", d.operation.as_str(), "): ");
        line.append(d.message.as_str());
        line.append("\n");
        lines.push(line);
        i += 1;
    }
    assert(text::texts(lines@) =~= new.map_values(form));
    let rest = join(&lines, "");
    out.append(rest.as_str());
    out
}

/// The link of a commit that `git rev-parse --verify` found; the commit is
/// verified before it is linked.
pub fn commit_link(reference: &str, success: bool, out: &str) -> (r: Result<String, Error>)
    ensures
        match (r, project::printed(success, out@)) {
            (Ok(l), Some(sha)) => l@ == "commit:"@ + sha,
            (Err(e), None) => e@ == "commit '"@ + reference@ + "' not found in this repository"@,
            _ => false,
        },
{
    match detect_git_repo(success, out) {
        Some(sha) => Ok(cat("commit:", sha.as_str())),
        None => Err(
            Error::new(cat3("commit '", reference, "' not found in this repository")),
        ),
    }
}

/// Whether a text is so long that it is shown in a pager: more than twenty
/// lines.
pub open spec fn is_paged(s: Seq<char>) -> bool {
    line_count(s) > 20
}

/// How many lines a text has.
pub open spec fn line_count(s: Seq<char>) -> nat {
    let breaks = s.filter(|c: char| c == '\n').len();
    if s.len() == 0 || s.last() == '\n' {
        breaks
    } else {
        breaks + 1
    }
}

/// Whether a text is so long that it is shown in a pager.
pub fn needs_pager(s: &str) -> (r: bool)
    ensures
        r == is_paged(s@),
{
    let v = chars_of(s);
    let ghost keep = |c: char| c == '\n';
    let mut n: usize = 0;
    let mut i: usize = 0;
    assert(v@.take(0).filter(keep).len() == 0) by {
        reveal(Seq::filter);
    }
    while i < v.len()
        invariant
            i <= v.len(),
            n <= i,
            keep == (|c: char| c == '\n'),
            n == v@.take(i as int).filter(keep).len(),
        decreases v.len() - i,
    {
        proof {
            text::lemma_filter_take(v@, keep, i as int);
        }
        if v[i] == '\n' {
            n += 1;
        }
        i += 1;
    }
    assert(v@.take(i as int) =~= v@);
    if v.len() == 0 || v[v.len() - 1] == '\n' {
        n > 20
    } else {
        n >= 20
    }
}

/// The pager: that of the environment, where it names one, and `less`
/// otherwise.
pub fn pager_of(env: Option<String>) -> (r: String)
    ensures
        r@ == match text::opt_text(env) {
            Some(p) => if p.len() > 0 {
                p
            } else {
                "less"@
            },
            None => "less"@,
        },
{
    if let Some(p) = env {
        if chars_of(p.as_str()).len() > 0 {
            return p;
        }
    }
    owned("less")
}

/// The fields of a new task.
#[derive(Debug)]
pub struct NewTask {
    pub title: String,
    pub description: String,
    pub priority: Priority,
    pub labels: Vec<String>,
    pub estimate_points: Option<i64>,
    pub estimate_hours: Option<String>,
    pub deadline: Option<String>,
    pub links: Vec<String>,
    pub acceptance: Vec<String>,
    pub context: String,
    pub assignee: Option<String>,
    pub parent_id: Option<i64>,
    pub epic_id: Option<i64>,
    pub milestone_id: Option<i64>,
    pub depends_on: Vec<i64>,
}

/// A new task with the given fields.
pub open spec fn filled(id: i64, n: NewTask, actor: Seq<char>, now: Seq<char>) -> TaskView {
    TaskView {
        priority: n.priority,
        labels: text::texts(n.labels@),
        estimate_points: n.estimate_points,
        estimate_hours: text::opt_text(n.estimate_hours),
        deadline: text::opt_text(n.deadline),
        links: text::texts(n.links@),
        acceptance: text::texts(n.acceptance@),
        context: n.context@,
        assignee: text::opt_text(n.assignee),
        parent_id: n.parent_id,
        epic_id: n.epic_id,
        milestone_id: n.milestone_id,
        depends_on: n.depends_on@,
        actor: Some(actor),
        ..model::fresh_task(id, n.title@, n.description@, now)
    }
}

/// A new task with the given fields.
pub fn new_task_at(id: i64, n: NewTask, actor: &str, now: &str) -> (r: Task)
    ensures
        r@ == filled(id, n, actor@, now@),
{
    let mut t = Task::new_at(id, n.title, n.description, now);
    t.priority = n.priority;
    t.labels = n.labels;
    t.estimate_points = n.estimate_points;
    t.estimate_hours = n.estimate_hours;
    t.deadline = n.deadline;
    t.links = n.links;
    t.acceptance = n.acceptance;
    t.context = n.context;
    t.assignee = n.assignee;
    t.parent_id = n.parent_id;
    t.epic_id = n.epic_id;
    t.milestone_id = n.milestone_id;
    t.depends_on = n.depends_on;
    t.actor = Some(owned(actor));
    t
}

} // verus!
