//! What is shown: every part of a task, an entry, a finding or a project has its
//! place in the text.
use vstd::prelude::*;

use crate::cli;
use crate::diag;
use crate::diag::{FindingView, RepairOpView, Severity};
use crate::knowledge::{CurrentStatusView, FreshnessView};
use crate::laws::search::holds_text;
use crate::mcp;
use crate::model;
use crate::model::{KnowledgeEntryView, LifecycleEventView, TaskStatus, TaskView};
use crate::order;
use crate::project::ProjectConfigView;
use crate::service;
use crate::text;

verus! {

/// A text holds itself.
pub proof fn lemma_itself(s: Seq<char>)
    ensures
        holds_text(s, s),
{
    let none = Seq::<char>::empty();
    assert(s =~= none + s + none);
}

/// What a part of a text holds, the text holds.
pub proof fn lemma_either(a: Seq<char>, b: Seq<char>, p: Seq<char>)
    ensures
        holds_text(a, p) || holds_text(b, p) ==> holds_text(a + b, p),
{
    if holds_text(a, p) {
        let (x, y) = choose|x: Seq<char>, y: Seq<char>| a == #[trigger] (x + p + y);
        assert(a + b =~= x + p + (y + b));
    }
    if holds_text(b, p) {
        let (x, y) = choose|x: Seq<char>, y: Seq<char>| b == #[trigger] (x + p + y);
        assert(a + b =~= (a + x) + p + y);
    }
}

spec fn ends_in(a: Seq<char>, p: Seq<char>) -> bool {
    exists|x: Seq<char>| a == #[trigger] (x + p)
}

proof fn lemma_end(a: Seq<char>, p: Seq<char>)
    ensures
        ends_in(a + p, p),
{
}

proof fn lemma_longer_end(a: Seq<char>, p: Seq<char>, b: Seq<char>)
    requires
        ends_in(a, p),
    ensures
        ends_in(a + b, p + b),
{
    let x = choose|x: Seq<char>| a == #[trigger] (x + p);
    assert(a + b =~= x + (p + b));
}

proof fn lemma_end_is_held(a: Seq<char>, p: Seq<char>)
    requires
        ends_in(a, p),
    ensures
        holds_text(a, p),
{
    let x = choose|x: Seq<char>| a == #[trigger] (x + p);
    assert(a =~= x + p + Seq::<char>::empty());
}

/// A list on lines holds the line of each item.
pub proof fn lemma_lined(mark: Seq<char>, items: Seq<Seq<char>>, k: int)
    requires
        0 <= k < items.len(),
    ensures
        holds_text(text::lined(mark, items), mark + items[k] + "\n"@),
{
    text::lemma_lined_has(mark, items, k);
    text::law_has_text(text::lined(mark, items), mark + items[k] + "\n"@);
}

/// What an item of a joined list holds, the whole holds.
pub proof fn lemma_joined(items: Seq<Seq<char>>, sep: Seq<char>, k: int, p: Seq<char>)
    requires
        0 <= k < items.len(),
        holds_text(items[k], p),
    ensures
        holds_text(text::joined(items, sep), p),
    decreases items.len(),
{
    if items.len() > 1 {
        let front = items.drop_last();
        let a = text::joined(front, sep);
        if k < front.len() {
            lemma_joined(front, sep, k, p);
        }
        lemma_either(a, sep, p);
        lemma_either(a + sep, items.last(), p);
    }
}

/// A value is shown behind its name, on a line of its own, exactly where there is
/// one.
pub proof fn law_named_values(label: Seq<char>, value: Option<Seq<char>>)
    ensures
        value matches Some(v) ==> text::named(label, value) == label + v + seq!['\n'],
        value is None ==> text::named(label, value).len() == 0,
{
    reveal_strlit("\n");
    assert("\n"@ =~= seq!['\n']);
}

spec fn follow_up(t: TaskView) -> Seq<char> {
    match t.follow_up_of {
        Some(id) => "\nfollow-up of: #"@ + text::decimal(id as int) + "\n"@,
        None => Seq::empty(),
    }
}

spec fn in_detail(t: TaskView, p: Seq<char>) -> bool {
    ||| holds_text(cli::detail_head(t), p)
    ||| holds_text(cli::detail_estimate(t.estimate_points, t.estimate_hours), p)
    ||| holds_text(text::named("deadline: "@, t.deadline), p)
    ||| t.description.len() > 0 && holds_text("\ndescription:\n"@ + (t.description + "\n"@), p)
    ||| t.acceptance.len() > 0 && holds_text(text::lined("  - "@, t.acceptance), p)
    ||| t.context.len() > 0 && holds_text("\ncontext:\n"@ + (t.context + "\n"@), p)
    ||| t.links.len() > 0 && holds_text(text::lined("  - "@, t.links), p)
    ||| holds_text(cli::detail_times(t), p)
    ||| cli::has_report(t) && holds_text(cli::detail_report(t), p)
    ||| holds_text(follow_up(t), p)
    ||| t.git_diagnostics.len() > 0 && holds_text(
        text::lined("  "@, cli::diagnostic_lines(t.git_diagnostics)),
        p,
    )
    ||| t.history.len() > 0 && holds_text(cli::history_lines(t.history), p)
}

proof fn lemma_detail(t: TaskView, all: Seq<TaskView>, p: Seq<char>)
    ensures
        in_detail(t, p) ==> holds_text(cli::detail(t, all), p),
{
    let follow = follow_up(t);
    let b1 = cli::detail_estimate(t.estimate_points, t.estimate_hours);
    let b2 = text::named("deadline: "@, t.deadline);
    let b3 = cli::section("\ndescription:\n"@, t.description + "\n"@, t.description.len() > 0);
    let b4 = cli::section(
        "\nacceptance:\n"@,
        text::lined("  - "@, t.acceptance),
        t.acceptance.len() > 0,
    );
    lemma_either("\nacceptance:\n"@, text::lined("  - "@, t.acceptance), p);
    let b5 = cli::section("\ncontext:\n"@, t.context + "\n"@, t.context.len() > 0);
    let b6 = cli::section(
        "\ndepends on:\n"@,
        text::lined("  - "@, cli::dependency_states(t.depends_on, all)),
        t.depends_on.len() > 0,
    );
    let b7 = cli::section("\nlinks:\n"@, text::lined("  - "@, t.links), t.links.len() > 0);
    lemma_either("\nlinks:\n"@, text::lined("  - "@, t.links), p);
    let b8 = cli::detail_times(t);
    let b9 = cli::section("\nreport:\n"@, cli::detail_report(t), cli::has_report(t));
    lemma_either("\nreport:\n"@, cli::detail_report(t), p);
    let d = text::lined("  "@, cli::diagnostic_lines(t.git_diagnostics));
    let b11 = cli::section("\ngit integration diagnostics:\n"@, d, t.git_diagnostics.len() > 0);
    lemma_either("\ngit integration diagnostics:\n"@, d, p);
    let b12 = cli::section(
        "\nhistory:\n"@,
        cli::history_lines(t.history),
        t.history.len() > 0,
    );
    lemma_either("\nhistory:\n"@, cli::history_lines(t.history), p);
    let a0 = cli::detail_head(t);
    let a1 = a0 + b1;
    let a2 = a1 + b2;
    let a3 = a2 + b3;
    let a4 = a3 + b4;
    let a5 = a4 + b5;
    let a6 = a5 + b6;
    let a7 = a6 + b7;
    let a8 = a7 + b8;
    let a9 = a8 + b9;
    let a10 = a9 + follow;
    let a11 = a10 + b11;
    lemma_either(a0, b1, p);
    lemma_either(a1, b2, p);
    lemma_either(a2, b3, p);
    lemma_either(a3, b4, p);
    lemma_either(a4, b5, p);
    lemma_either(a5, b6, p);
    lemma_either(a6, b7, p);
    lemma_either(a7, b8, p);
    lemma_either(a8, b9, p);
    lemma_either(a9, follow, p);
    lemma_either(a10, b11, p);
    lemma_either(a11, b12, p);
}

/// A named value is held behind its name.
pub proof fn lemma_named_in(label: Seq<char>, value: Option<Seq<char>>)
    ensures
        value matches Some(v) ==> holds_text(text::named(label, value), label + v),
{
    if let Some(v) = value {
        let none = Seq::<char>::empty();
        assert(text::named(label, value) =~= none + (label + v) + "\n"@);
    }
}

/// The detail of a task shows its id and title, its status, its priority, its
/// deadline, description and context, where they are there, its times and its last
/// writer.
pub proof fn law_detail_shows_the_task(t: TaskView, all: Seq<TaskView>)
    ensures
        ({
            let d = cli::detail(t, all);
            &&& holds_text(d, "#"@ + text::decimal(t.id as int) + " "@ + t.title)
            &&& holds_text(d, "\nstatus: "@ + model::status_name(t.status))
            &&& holds_text(d, "\npriority: "@ + model::priority_name(t.priority))
            &&& t.labels.len() > 0 ==> holds_text(d, "labels: "@ + text::joined(t.labels, ", "@))
            &&& t.estimate_points matches Some(n) ==> holds_text(
                d,
                "estimate: "@ + text::decimal(n as int) + " points"@,
            )
            &&& t.estimate_hours matches Some(h) ==> holds_text(d, " / "@ + h + "h"@)
            &&& t.deadline matches Some(v) ==> holds_text(d, "deadline: "@ + v)
            &&& t.description.len() > 0 ==> holds_text(d, "\ndescription:\n"@ + t.description)
            &&& t.context.len() > 0 ==> holds_text(d, "\ncontext:\n"@ + t.context)
            &&& holds_text(d, "\ncreated: "@ + t.created_at)
            &&& t.started_at matches Some(v) ==> holds_text(d, "started: "@ + v)
            &&& t.done_at matches Some(v) ==> holds_text(d, "done: "@ + v)
            &&& t.actor matches Some(v) ==> holds_text(d, "actor: "@ + v)
            &&& t.follow_up_of matches Some(id) ==> holds_text(
                d,
                "\nfollow-up of: #"@ + text::decimal(id as int),
            )
        }),
{
    let none = Seq::<char>::empty();
    let id = text::decimal(t.id as int);
    let h = cli::detail_head(t);
    let title = "#"@ + id + " "@ + t.title;
    let status = "\nstatus: "@ + model::status_name(t.status);
    let priority = "\npriority: "@ + model::priority_name(t.priority);
    let labels = if t.labels.len() > 0 {
        "labels: "@ + text::joined(t.labels, ", "@) + "\n"@
    } else {
        none
    };
    assert(h =~= none + title + (status + priority + "\n"@ + labels));
    assert(h =~= title + status + (priority + "\n"@ + labels));
    assert(h =~= (title + status) + priority + ("\n"@ + labels));
    lemma_detail(t, all, title);
    lemma_detail(t, all, status);
    lemma_detail(t, all, priority);
    if t.labels.len() > 0 {
        let p = "labels: "@ + text::joined(t.labels, ", "@);
        assert(h =~= (title + status + priority + "\n"@) + p + "\n"@);
        lemma_detail(t, all, p);
    }
    let e = cli::detail_estimate(t.estimate_points, t.estimate_hours);
    if let Some(n) = t.estimate_points {
        let p = "estimate: "@ + text::decimal(n as int) + " points"@;
        let rest = (match t.estimate_hours {
            Some(v) => " / "@ + v + "h"@,
            None => none,
        }) + "\n"@;
        assert(e =~= none + p + rest);
        lemma_detail(t, all, p);
    }
    if let Some(v) = t.estimate_hours {
        let p = " / "@ + v + "h"@;
        let first = match t.estimate_points {
            Some(n) => "estimate: "@ + text::decimal(n as int) + " points"@,
            None => none,
        };
        assert(e =~= first + p + "\n"@);
        lemma_detail(t, all, p);
    }
    if let Some(v) = t.deadline {
        lemma_named_in("deadline: "@, t.deadline);
        lemma_detail(t, all, "deadline: "@ + v);
    }
    let p = "\ndescription:\n"@ + t.description;
    assert("\ndescription:\n"@ + (t.description + "\n"@) =~= none + p + "\n"@);
    lemma_detail(t, all, p);
    let q = "\ncontext:\n"@ + t.context;
    assert("\ncontext:\n"@ + (t.context + "\n"@) =~= none + q + "\n"@);
    lemma_detail(t, all, q);
    let s = text::named("started: "@, t.started_at);
    let d = text::named("done: "@, t.done_at);
    let a = text::named("actor: "@, t.actor);
    let times = cli::detail_times(t);
    let c = "\ncreated: "@ + t.created_at;
    assert(times =~= none + c + ("\n"@ + s + d + a));
    lemma_detail(t, all, c);
    let head = c + "\n"@;
    if let Some(v) = t.started_at {
        let p = "started: "@ + v;
        lemma_named_in("started: "@, t.started_at);
        lemma_either(head, s, p);
        lemma_either(head + s, d, p);
        lemma_either(head + s + d, a, p);
        lemma_detail(t, all, p);
    }
    if let Some(v) = t.done_at {
        let p = "done: "@ + v;
        lemma_named_in("done: "@, t.done_at);
        lemma_either(head + s, d, p);
        lemma_either(head + s + d, a, p);
        lemma_detail(t, all, p);
    }
    if let Some(v) = t.actor {
        let p = "actor: "@ + v;
        lemma_named_in("actor: "@, t.actor);
        lemma_either(head + s + d, a, p);
        lemma_detail(t, all, p);
    }
    if let Some(id) = t.follow_up_of {
        let p = "\nfollow-up of: #"@ + text::decimal(id as int);
        assert("\nfollow-up of: #"@ + text::decimal(id as int) + "\n"@ =~= none + p + "\n"@);
        lemma_detail(t, all, p);
    }
}

spec fn in_report(t: TaskView, p: Seq<char>) -> bool {
    ||| holds_text(text::named("  result: "@, t.report_result), p)
    ||| holds_text(text::named("  validation: "@, t.report_validation), p)
    ||| holds_text(text::lined("  problem: "@, t.report_problems), p)
    ||| holds_text(text::lined("  idea: "@, t.report_ideas), p)
    ||| holds_text(text::lined("  decision: "@, t.report_decisions), p)
}

proof fn lemma_report(t: TaskView, p: Seq<char>)
    ensures
        in_report(t, p) ==> holds_text(cli::detail_report(t), p),
{
    let a = text::named("  result: "@, t.report_result);
    let b = text::named("  validation: "@, t.report_validation);
    let c = text::lined("  problem: "@, t.report_problems);
    let d = text::lined("  idea: "@, t.report_ideas);
    let e = text::lined("  decision: "@, t.report_decisions);
    lemma_either(a, b, p);
    lemma_either(a + b, c, p);
    lemma_either(a + b + c, d, p);
    lemma_either(a + b + c + d, e, p);
}

/// The report of a task shows each of its sections, each item of a list on its own
/// line; the detail of the task and a draft show the report.
pub proof fn law_report_is_shown(t: TaskView, all: Seq<TaskView>, k: int)
    ensures
        ({
            let d = cli::detail(t, all);
            let f = cli::draft_part(t);
            &&& t.report_result matches Some(v) ==> holds_text(d, "  result: "@ + v) && holds_text(
                f,
                "  result: "@ + v,
            )
            &&& t.report_validation matches Some(v) ==> holds_text(d, "  validation: "@ + v)
                && holds_text(f, "  validation: "@ + v)
            &&& 0 <= k < t.report_problems.len() ==> holds_text(
                d,
                "  problem: "@ + t.report_problems[k] + "\n"@,
            ) && holds_text(f, "  problem: "@ + t.report_problems[k] + "\n"@)
            &&& 0 <= k < t.report_ideas.len() ==> holds_text(
                d,
                "  idea: "@ + t.report_ideas[k] + "\n"@,
            ) && holds_text(f, "  idea: "@ + t.report_ideas[k] + "\n"@)
            &&& 0 <= k < t.report_decisions.len() ==> holds_text(
                d,
                "  decision: "@ + t.report_decisions[k] + "\n"@,
            ) && holds_text(f, "  decision: "@ + t.report_decisions[k] + "\n"@)
        }),
{
    if let Some(v) = t.report_result {
        lemma_named_in("  result: "@, t.report_result);
        lemma_report_shown(t, all, "  result: "@ + v);
    }
    if let Some(v) = t.report_validation {
        lemma_named_in("  validation: "@, t.report_validation);
        lemma_report_shown(t, all, "  validation: "@ + v);
    }
    if 0 <= k < t.report_problems.len() {
        lemma_lined("  problem: "@, t.report_problems, k);
        lemma_report_shown(t, all, "  problem: "@ + t.report_problems[k] + "\n"@);
    }
    if 0 <= k < t.report_ideas.len() {
        lemma_lined("  idea: "@, t.report_ideas, k);
        lemma_report_shown(t, all, "  idea: "@ + t.report_ideas[k] + "\n"@);
    }
    if 0 <= k < t.report_decisions.len() {
        lemma_lined("  decision: "@, t.report_decisions, k);
        lemma_report_shown(t, all, "  decision: "@ + t.report_decisions[k] + "\n"@);
    }
}

proof fn lemma_report_shown(t: TaskView, all: Seq<TaskView>, p: Seq<char>)
    ensures
        in_report(t, p) ==> (cli::has_report(t) ==> holds_text(cli::detail(t, all), p)) && holds_text(
            cli::draft_part(t),
            p,
        ),
{
    lemma_report(t, p);
    lemma_detail(t, all, p);
    lemma_either(
        "\nTask #"@ + text::decimal(t.id as int) + " ["@ + model::status_name(t.status) + "] "@
            + t.title + "\n"@,
        cli::detail_report(t),
        p,
    );
}

/// The detail of a task shows each acceptance criterion, link, diagnostic of git
/// work and event of its history, each on its own line.
pub proof fn law_detail_shows_the_lists(t: TaskView, all: Seq<TaskView>, k: int)
    ensures
        ({
            let d = cli::detail(t, all);
            &&& 0 <= k < t.acceptance.len() ==> holds_text(d, "  - "@ + t.acceptance[k] + "\n"@)
            &&& 0 <= k < t.links.len() ==> holds_text(d, "  - "@ + t.links[k] + "\n"@)
            &&& 0 <= k < t.git_diagnostics.len() ==> holds_text(
                d,
                "["@ + t.git_diagnostics[k].operation + "] "@ + t.git_diagnostics[k].message + " ("@
                    + t.git_diagnostics[k].at + ")"@,
            )
            &&& 0 <= k < t.history.len() ==> holds_text(d, cli::event_lines(t.history[k]))
        }),
{
    if 0 <= k < t.acceptance.len() {
        lemma_lined("  - "@, t.acceptance, k);
        lemma_detail(t, all, "  - "@ + t.acceptance[k] + "\n"@);
    }
    if 0 <= k < t.links.len() {
        lemma_lined("  - "@, t.links, k);
        lemma_detail(t, all, "  - "@ + t.links[k] + "\n"@);
    }
    if 0 <= k < t.git_diagnostics.len() {
        let g = t.git_diagnostics[k];
        let p = "["@ + g.operation + "] "@ + g.message + " ("@ + g.at + ")"@;
        let lines = cli::diagnostic_lines(t.git_diagnostics);
        assert(lines[k] == p);
        lemma_lined("  "@, lines, k);
        let all_lines = text::lined("  "@, lines);
        let (x, y) = choose|x: Seq<char>, y: Seq<char>|
            all_lines == #[trigger] (x + ("  "@ + p + "\n"@) + y);
        assert(all_lines =~= (x + "  "@) + p + ("\n"@ + y));
        lemma_detail(t, all, p);
    }
    if 0 <= k < t.history.len() {
        let p = cli::event_lines(t.history[k]);
        let items = t.history.map_values(|e: LifecycleEventView| cli::event_lines(e));
        lemma_itself(p);
        assert(items[k] == p);
        lemma_joined(items, ""@, k, p);
        lemma_detail(t, all, p);
    }
}

/// An event shows when it was, from which status to which, by whom and why.
pub proof fn law_event_is_shown(e: LifecycleEventView)
    ensures
        ({
            let s = cli::event_lines(e);
            let from = if e.from is Some {
                model::status_name(e.from->0)
            } else {
                "?"@
            };
            &&& holds_text(
                s,
                e.at + " "@ + from + " -> "@ + model::status_name(e.to) + " by "@ + e.actor + "\n"@,
            )
            &&& e.reason matches Some(r) ==> holds_text(s, "    reason: "@ + r)
            &&& e.prior_done_at matches Some(r) ==> holds_text(s, "    prior done_at: "@ + r)
            &&& e.prior_report matches Some(r) ==> holds_text(s, cli::snapshot_lines(r))
        }),
{
    let from = if e.from is Some {
        model::status_name(e.from->0)
    } else {
        "?"@
    };
    let to = model::status_name(e.to);
    let x0 = "  "@ + e.at;
    let x1 = x0 + " "@;
    let x2 = x1 + from;
    let x3 = x2 + " -> "@;
    let x4 = x3 + to;
    let x5 = x4 + " by "@;
    let x6 = x5 + e.actor;
    let head = x6 + "\n"@;
    let y1 = e.at + " "@;
    let y2 = y1 + from;
    let y3 = y2 + " -> "@;
    let y4 = y3 + to;
    let y5 = y4 + " by "@;
    let y6 = y5 + e.actor;
    let p = y6 + "\n"@;
    lemma_end("  "@, e.at);
    lemma_longer_end(x0, e.at, " "@);
    lemma_longer_end(x1, y1, from);
    lemma_longer_end(x2, y2, " -> "@);
    lemma_longer_end(x3, y3, to);
    lemma_longer_end(x4, y4, " by "@);
    lemma_longer_end(x5, y5, e.actor);
    lemma_longer_end(x6, y6, "\n"@);
    lemma_end_is_held(head, p);
    let a = text::named("    reason: "@, e.reason);
    let b = text::named("    prior done_at: "@, e.prior_done_at);
    let c = match e.prior_report {
        Some(r) => cli::snapshot_lines(r),
        None => Seq::empty(),
    };
    lemma_event_tail(head, a, b, c, p);
    if let Some(r) = e.reason {
        lemma_named_in("    reason: "@, e.reason);
        lemma_event_tail(head, a, b, c, "    reason: "@ + r);
    }
    if let Some(r) = e.prior_done_at {
        lemma_named_in("    prior done_at: "@, e.prior_done_at);
        lemma_event_tail(head, a, b, c, "    prior done_at: "@ + r);
    }
    if let Some(r) = e.prior_report {
        lemma_itself(c);
        lemma_event_tail(head, a, b, c, c);
    }
}

proof fn lemma_event_tail(h: Seq<char>, a: Seq<char>, b: Seq<char>, c: Seq<char>, p: Seq<char>)
    ensures
        holds_text(h, p) || holds_text(a, p) || holds_text(b, p) || holds_text(c, p) ==> holds_text(
            h + a + b + c,
            p,
        ),
{
    lemma_either(h, a, p);
    lemma_either(h + a, b, p);
    lemma_either(h + a + b, c, p);
}

/// An entry shows its kind, id and title, its tags, its task, its writer, its times
/// and its content.
pub proof fn law_entry_is_shown(e: KnowledgeEntryView)
    ensures
        ({
            let s = cli::entry_lines(e);
            &&& holds_text(
                s,
                "["@ + model::kind_name(e.kind) + "] #"@ + text::decimal(e.id as int) + " "@
                    + e.title + "\n"@,
            )
            &&& e.tags.len() > 0 ==> holds_text(s, "tags: "@ + (text::joined(e.tags, ", "@) + "\n"@))
            &&& e.related_task matches Some(t) ==> holds_text(
                s,
                "related task: #"@ + text::decimal(t as int) + "\n"@,
            )
            &&& e.actor matches Some(a) ==> holds_text(s, "actor: "@ + a)
            &&& holds_text(
                s,
                "created: "@ + e.created_at + "\nupdated: "@ + e.updated_at + "\n\n"@ + e.content
                    + "\n"@,
            )
        }),
{
    let h = "["@ + model::kind_name(e.kind) + "] #"@ + text::decimal(e.id as int) + " "@ + e.title
        + "\n"@;
    let a = cli::section("tags: "@, text::joined(e.tags, ", "@) + "\n"@, e.tags.len() > 0);
    let b = match e.related_task {
        Some(t) => "related task: #"@ + text::decimal(t as int) + "\n"@,
        None => Seq::empty(),
    };
    let c = text::named("actor: "@, e.actor);
    let front = h + a + b + c;
    lemma_itself(h);
    lemma_event_tail(h, a, b, c, h);
    lemma_entry_tail(front, e, h);
    lemma_itself(a);
    lemma_event_tail(h, a, b, c, a);
    lemma_entry_tail(front, e, a);
    lemma_itself(b);
    lemma_event_tail(h, a, b, c, b);
    lemma_entry_tail(front, e, b);
    if let Some(v) = e.actor {
        lemma_named_in("actor: "@, e.actor);
        lemma_event_tail(h, a, b, c, "actor: "@ + v);
        lemma_entry_tail(front, e, "actor: "@ + v);
    }
}

proof fn lemma_entry_tail(front: Seq<char>, e: KnowledgeEntryView, p: Seq<char>)
    ensures
        ({
            let s = front + "created: "@ + e.created_at + "\nupdated: "@ + e.updated_at + "\n\n"@
                + e.content + "\n"@;
            &&& holds_text(front, p) ==> holds_text(s, p)
            &&& holds_text(
                s,
                "created: "@ + e.created_at + "\nupdated: "@ + e.updated_at + "\n\n"@ + e.content
                    + "\n"@,
            )
        }),
{
    let y0 = "created: "@;
    let x0 = front + y0;
    let (x1, y1) = (x0 + e.created_at, y0 + e.created_at);
    let (x2, y2) = (x1 + "\nupdated: "@, y1 + "\nupdated: "@);
    let (x3, y3) = (x2 + e.updated_at, y2 + e.updated_at);
    let (x4, y4) = (x3 + "\n\n"@, y3 + "\n\n"@);
    let (x5, y5) = (x4 + e.content, y4 + e.content);
    lemma_end(front, y0);
    lemma_longer_end(x0, y0, e.created_at);
    lemma_longer_end(x1, y1, "\nupdated: "@);
    lemma_longer_end(x2, y2, e.updated_at);
    lemma_longer_end(x3, y3, "\n\n"@);
    lemma_longer_end(x4, y4, e.content);
    lemma_longer_end(x5, y5, "\n"@);
    lemma_end_is_held(x5 + "\n"@, y5 + "\n"@);
    lemma_either(front, y0, p);
    lemma_either(x0, e.created_at, p);
    lemma_either(x1, "\nupdated: "@, p);
    lemma_either(x2, e.updated_at, p);
    lemma_either(x3, "\n\n"@, p);
    lemma_either(x4, e.content, p);
    lemma_either(x5, "\n"@, p);
}

/// A finding shows how bad it is, its code, its file, its field, its message and
/// what to do; the findings of a project show each of them and how many there are.
pub proof fn law_findings_are_shown(f: Seq<FindingView>, k: int)
    requires
        0 <= k < f.len(),
    ensures
        ({
            let x = f[k];
            let s = cli::finding_lines(x);
            let sort = if x.severity == Severity::Error {
                "error"@
            } else {
                "warning"@
            };
            let errors = f.filter(|y: FindingView| y.severity == Severity::Error).len();
            &&& holds_text(s, sort + "["@ + x.code + "] "@ + x.file)
            &&& x.field matches Some(v) ==> holds_text(s, " field="@ + v)
            &&& holds_text(s, ": "@ + x.message + "\n    -> "@ + x.suggestion + "\n"@)
            &&& holds_text(cli::findings_part(f), s)
            &&& holds_text(
                cli::findings_part(f),
                text::numeral(errors) + " error(s), "@ + text::numeral((f.len() - errors) as nat)
                    + " warning(s)\n"@,
            )
        }),
{
    let none = Seq::<char>::empty();
    let x = f[k];
    let s = cli::finding_lines(x);
    let h = diag::severity_name(x.severity) + "["@ + x.code + "] "@ + x.file;
    let d = match x.field {
        Some(v) => " field="@ + v,
        None => none,
    };
    let m = ": "@ + x.message + "\n    -> "@ + x.suggestion + "\n"@;
    assert(s =~= none + h + (d + m));
    assert(s =~= h + d + m);
    assert(s =~= (h + d) + m + none);
    let items = f.map_values(|y: FindingView| cli::finding_lines(y));
    let all = text::joined(items, ""@);
    lemma_itself(s);
    assert(items[k] == s);
    lemma_joined(items, ""@, k, s);
    let n = cli::error_count(f);
    let c = text::numeral(n) + " error(s), "@ + text::numeral((f.len() - n) as nat)
        + " warning(s)\n"@;
    let hint = cli::section(
        ""@,
        "hint: run `jay repair` to preview safe explicit repairs (dry run by default)\n"@,
        n > 0,
    );
    assert(cli::findings_part(f) =~= all + c + hint);
    lemma_either(all, c + hint, s);
    assert(cli::findings_part(f) =~= all + (c + hint));
}

/// What a repair run proposes, backs up and leaves open is shown, line by line.
pub proof fn law_repair_is_shown(
    applied: bool,
    ops: Seq<RepairOpView>,
    backups: Seq<Seq<char>>,
    left: Seq<FindingView>,
    k: int,
)
    ensures
        ({
            let s = cli::repair_lines(applied, ops, backups, left);
            &&& 0 <= k < ops.len() ==> holds_text(s, cli::op_line(applied, ops[k]) + "\n"@)
            &&& 0 <= k < backups.len() ==> holds_text(s, "backup: "@ + backups[k] + "\n"@)
            &&& 0 <= k < left.len() ==> holds_text(
                s,
                "  "@ + cli::unresolved_line(left[k]) + "\n"@,
            )
            &&& ops.len() == 0 ==> holds_text(s, "no repairable issues found\n"@)
        }),
{
    let lines = ops.map_values(|o: RepairOpView| cli::op_line(applied, o));
    let a = if ops.len() == 0 {
        "no repairable issues found\n"@
    } else {
        text::lined(""@, lines)
    };
    let b = text::lined("backup: "@, backups);
    let open = left.map_values(|f: FindingView| cli::unresolved_line(f));
    let head = "\nunresolved (repair cannot fix these — they need explicit user/agent updates; jay never fabricates evidence):\n"@;
    let body = text::lined("  "@, open);
    let c = cli::section(head, body, left.len() > 0);
    let d = cli::section(
        ""@,
        "\nre-run with --apply to write these changes (backups are created automatically)\n"@,
        !applied && ops.len() > 0,
    );
    if 0 <= k < ops.len() {
        let p = cli::op_line(applied, ops[k]) + "\n"@;
        lemma_lined(""@, lines, k);
        reveal_strlit("");
        assert(""@ + lines[k] + "\n"@ =~= p);
        lemma_either(a, b, p);
        lemma_either(a + b, c, p);
        lemma_either(a + b + c, d, p);
    }
    if 0 <= k < backups.len() {
        let p = "backup: "@ + backups[k] + "\n"@;
        lemma_lined("backup: "@, backups, k);
        lemma_either(a, b, p);
        lemma_either(a + b, c, p);
        lemma_either(a + b + c, d, p);
    }
    if 0 <= k < left.len() {
        let p = "  "@ + cli::unresolved_line(left[k]) + "\n"@;
        lemma_lined("  "@, open, k);
        assert(open[k] == cli::unresolved_line(left[k]));
        lemma_either(head, body, p);
        lemma_either(a + b, c, p);
        lemma_either(a + b + c, d, p);
    }
    if ops.len() == 0 {
        lemma_itself(a);
        lemma_either(a, b, a);
        lemma_either(a + b, c, a);
        lemma_either(a + b + c, d, a);
    }
}

/// The overview of a project names the project and its folder, and lists the tasks
/// that are started, those that are blocked and the first ten that are ready, each
/// by its title.
pub proof fn law_overview_shows_the_work(
    name: Seq<char>,
    root: Seq<char>,
    all: Seq<TaskView>,
    summary: Option<(CurrentStatusView, FreshnessView)>,
    branch: Option<Seq<char>>,
    k: int,
)
    ensures
        ({
            let s = cli::overview(name, root, all, summary, branch);
            let active = all.filter(|t: TaskView| t.status == TaskStatus::Started);
            let blocked = all.filter(|t: TaskView| t.blocked);
            let ready = order::sorted_by(service::ready_among(all), service::urgency());
            &&& holds_text(s, "project: "@ + name + " ("@ + root + ")\n"@)
            &&& 0 <= k < active.len() ==> holds_text(s, cli::task_line(active[k]) + "\n"@)
            &&& 0 <= k < blocked.len() ==> holds_text(s, cli::task_line(blocked[k]) + "\n"@)
            &&& 0 <= k < ready.len() && k < 10 ==> holds_text(s, cli::ready_line(ready[k]) + "\n"@)
            &&& branch matches Some(b) ==> holds_text(s, "\nbranch: "@ + b)
            &&& summary matches Some((x, f)) ==> holds_text(
                s,
                "status #"@ + text::decimal(x.entry.id as int) + " "@ + x.entry.title + "\n"@,
            )
        }),
{
    let none = Seq::<char>::empty();
    let active = service::active_among(all);
    let blocked = service::blocked_among(all);
    let ready = order::sorted_by(service::ready_among(all), service::urgency());
    let h = "project: "@ + name + " ("@ + root + ")\n\n"@;
    let b1 = text::lined("  "@, cli::count_lines(service::counted(all)));
    let l2 = text::lined("  "@, cli::task_lines(active));
    let b2 = cli::section("\nactive:\n"@, l2, active.len() > 0);
    let l3 = text::lined("  "@, cli::task_lines(blocked));
    let b3 = cli::section("\nblocked:\n"@, l3, blocked.len() > 0);
    let l4 = cli::ready_part(ready);
    let b4 = cli::section("\nready (open, unblocked, deps closed):\n"@, l4, ready.len() > 0);
    let b5 = match summary {
        Some((x, f)) => cli::summary_part(x, f),
        None => none,
    };
    let b6 = text::named("\nbranch: "@, branch);
    let s = cli::overview(name, root, all, summary, branch);
    let a1 = h + b1;
    let a2 = a1 + b2;
    let a3 = a2 + b3;
    let a4 = a3 + b4;
    let a5 = a4 + b5;
    assert(s == a5 + b6);
    let p0 = "project: "@ + name + " ("@ + root + ")\n"@;
    reveal_strlit(")\n\n");
    reveal_strlit(")\n");
    assert(")\n\n"@ =~= ")\n"@ + seq!['\n']);
    assert(h =~= none + p0 + seq!['\n']);
    lemma_either(h, b1, p0);
    lemma_either(a1, b2, p0);
    lemma_either(a2, b3, p0);
    lemma_either(a3, b4, p0);
    lemma_either(a4, b5, p0);
    lemma_either(a5, b6, p0);
    if 0 <= k < active.len() {
        let p = cli::task_line(active[k]) + "\n"@;
        assert(cli::task_lines(active)[k] == cli::task_line(active[k]));
        lemma_line_only("  "@, cli::task_lines(active), k);
        lemma_either("\nactive:\n"@, l2, p);
        lemma_either(a1, b2, p);
        lemma_either(a2, b3, p);
        lemma_either(a3, b4, p);
        lemma_either(a4, b5, p);
        lemma_either(a5, b6, p);
    }
    if 0 <= k < blocked.len() {
        let p = cli::task_line(blocked[k]) + "\n"@;
        assert(cli::task_lines(blocked)[k] == cli::task_line(blocked[k]));
        lemma_line_only("  "@, cli::task_lines(blocked), k);
        lemma_either("\nblocked:\n"@, l3, p);
        lemma_either(a2, b3, p);
        lemma_either(a3, b4, p);
        lemma_either(a4, b5, p);
        lemma_either(a5, b6, p);
    }
    if 0 <= k < ready.len() && k < 10 {
        let p = cli::ready_line(ready[k]) + "\n"@;
        let shown = if ready.len() > 10 {
            ready.take(10)
        } else {
            ready
        };
        let lines = cli::ready_lines(shown);
        assert(lines[k] == cli::ready_line(ready[k]));
        lemma_line_only("  "@, lines, k);
        if ready.len() > 10 {
            let more = "  ... "@ + text::numeral((ready.len() - 10) as nat) + " more (jay next)\n"@;
            lemma_either(text::lined("  "@, lines), more, p);
        }
        lemma_either("\nready (open, unblocked, deps closed):\n"@, l4, p);
        lemma_either(a3, b4, p);
        lemma_either(a4, b5, p);
        lemma_either(a5, b6, p);
    }
    if let Some(b) = branch {
        let p = "\nbranch: "@ + b;
        lemma_named_in("\nbranch: "@, branch);
        lemma_either(a5, b6, p);
    }
    if let Some((x, f)) = summary {
        let p = "status #"@ + text::decimal(x.entry.id as int) + " "@ + x.entry.title + "\n"@;
        let stale = cli::section(
            ""@,
            text::lined("  possibly stale: "@, f.facts),
            f.possibly_stale,
        );
        reveal_strlit(":\n  status #");
        reveal_strlit("status #");
        assert(":\n  status #"@ =~= seq![':', '\n', ' ', ' '] + "status #"@);
        assert(b5 =~= ("\n"@ + cli::summary_label(x) + seq![':', '\n', ' ', ' ']) + p + stale);
        lemma_either(a4, b5, p);
        lemma_either(a5, b6, p);
    }
}

proof fn lemma_line_only(mark: Seq<char>, items: Seq<Seq<char>>, k: int)
    requires
        0 <= k < items.len(),
    ensures
        holds_text(text::lined(mark, items), items[k] + "\n"@),
{
    let all = text::lined(mark, items);
    lemma_lined(mark, items, k);
    let (x, y) = choose|x: Seq<char>, y: Seq<char>|
        all == #[trigger] (x + (mark + items[k] + "\n"@) + y);
    assert(all =~= (x + mark) + (items[k] + "\n"@) + y);
}

/// A task on a line shows its id and its title, behind at most as many blanks as
/// the id lacks.
pub proof fn law_tasks_on_a_line(t: TaskView)
    ensures
        holds_text(cli::task_line(t), text::decimal(t.id as int) + " "@ + t.title),
        holds_text(
            cli::ready_line(t),
            text::decimal(t.id as int) + " ["@ + model::priority_name(t.priority) + "] "@ + t.title,
        ),
{
    let none = Seq::<char>::empty();
    let id = text::decimal(t.id as int);
    let pad = text::spaces(3 - id.len());
    let p = id + " "@ + t.title;
    assert(cli::task_line(t) =~= pad + p + none);
    let q = id + " ["@ + model::priority_name(t.priority) + "] "@ + t.title;
    assert(cli::ready_line(t) =~= pad + q + none);
}

/// The prompt for a sub-agent shows the project and the task: its id and title, its
/// description, its status, each acceptance criterion and its context.
pub proof fn law_prompt_shows_the_task(t: TaskView, c: ProjectConfigView, k: int)
    ensures
        ({
            let s = mcp::prompt(t, c);
            &&& holds_text(s, "Project: "@ + c.name + " — "@ + c.description)
            &&& holds_text(
                s,
                "TASK (id "@ + text::decimal(t.id as int) + "): "@ + t.title + "\n\n"@
                    + t.description + "\n\nStatus: "@ + model::status_name(t.status),
            )
            &&& 0 <= k < t.acceptance.len() ==> holds_text(s, "- "@ + t.acceptance[k])
            &&& t.acceptance.len() == 0 ==> holds_text(s, "\nAcceptance criteria:\n"@ + "(none)"@)
            &&& t.context.len() > 0 ==> holds_text(s, "\nContext:\n"@ + t.context)
        }),
{
    let id = text::decimal(t.id as int);
    let open = "You are a sub-agent working on a task in the jay project management tool.\nProject: "@;
    reveal_strlit(
        "You are a sub-agent working on a task in the jay project management tool.\nProject: ",
    );
    reveal_strlit("Project: ");
    let p0 = "Project: "@;
    let lead = open.take(open.len() - 9);
    assert(open =~= lead + p0);
    lemma_end(lead, p0);
    let (x1, p1) = (open + c.name, p0 + c.name);
    let (x2, p2) = (x1 + " — "@, p1 + " — "@);
    let (x3, p3) = (x2 + c.description, p2 + c.description);
    lemma_longer_end(open, p0, c.name);
    lemma_longer_end(x1, p1, " — "@);
    lemma_longer_end(x2, p2, c.description);
    lemma_end_is_held(x3, p3);
    let x4 = x3 + "\n\nTASK (id "@;
    reveal_strlit("\n\nTASK (id ");
    reveal_strlit("TASK (id ");
    let q0 = "TASK (id "@;
    assert("\n\nTASK (id "@ =~= seq!['\n', '\n'] + q0);
    assert(x4 =~= (x3 + seq!['\n', '\n']) + q0);
    lemma_end(x3 + seq!['\n', '\n'], q0);
    let (x5, q1) = (x4 + id, q0 + id);
    let (x6, q2) = (x5 + "): "@, q1 + "): "@);
    let (x7, q3) = (x6 + t.title, q2 + t.title);
    let (x8, q4) = (x7 + "\n\n"@, q3 + "\n\n"@);
    let (x9, q5) = (x8 + t.description, q4 + t.description);
    let (y1, q6) = (x9 + "\n\nStatus: "@, q5 + "\n\nStatus: "@);
    let (y2, q7) = (y1 + model::status_name(t.status), q6 + model::status_name(t.status));
    lemma_longer_end(x4, q0, id);
    lemma_longer_end(x5, q1, "): "@);
    lemma_longer_end(x6, q2, t.title);
    lemma_longer_end(x7, q3, "\n\n"@);
    lemma_longer_end(x8, q4, t.description);
    lemma_longer_end(x9, q5, "\n\nStatus: "@);
    lemma_longer_end(y1, q6, model::status_name(t.status));
    lemma_end_is_held(y2, q7);
    lemma_either(x3, "\n\nTASK (id "@, p3);
    lemma_either(x4, id, p3);
    lemma_either(x5, "): "@, p3);
    lemma_either(x6, t.title, p3);
    lemma_either(x7, "\n\n"@, p3);
    lemma_either(x8, t.description, p3);
    lemma_either(x9, "\n\nStatus: "@, p3);
    lemma_either(y1, model::status_name(t.status), p3);
    lemma_prompt_tail(y2, t, p3, k);
    lemma_prompt_tail(y2, t, q7, k);
}

proof fn lemma_prompt_tail(head: Seq<char>, t: TaskView, p: Seq<char>, k: int)
    ensures
        ({
            let s = head + "\nAcceptance criteria:\n"@ + mcp::criteria(t.acceptance) + "\nContext:\n"@
                + mcp::or_none(t.context) + "\n\n"@ + mcp::prompt_steps(text::decimal(t.id as int));
            &&& holds_text(head, p) ==> holds_text(s, p)
            &&& 0 <= k < t.acceptance.len() ==> holds_text(s, "- "@ + t.acceptance[k])
            &&& t.acceptance.len() == 0 ==> holds_text(s, "\nAcceptance criteria:\n"@ + "(none)"@)
            &&& t.context.len() > 0 ==> holds_text(s, "\nContext:\n"@ + t.context)
        }),
{
    let crit = mcp::criteria(t.acceptance);
    let ctx = mcp::or_none(t.context);
    let x1 = head + "\nAcceptance criteria:\n"@;
    let x2 = x1 + crit;
    let x3 = x2 + "\nContext:\n"@;
    let x4 = x3 + ctx;
    lemma_either(head, "\nAcceptance criteria:\n"@, p);
    lemma_either(x1, crit, p);
    lemma_prompt_end(x2, t, p);
    if 0 <= k < t.acceptance.len() {
        let items = t.acceptance.map_values(|a: Seq<char>| "- "@ + a);
        let x = "- "@ + t.acceptance[k];
        lemma_itself(x);
        assert(items[k] == x);
        lemma_joined(items, "\n"@, k, x);
        lemma_either(x1, crit, x);
        lemma_prompt_end(x2, t, x);
    }
    if t.acceptance.len() == 0 {
        lemma_end(head, "\nAcceptance criteria:\n"@);
        lemma_longer_end(x1, "\nAcceptance criteria:\n"@, crit);
        lemma_end_is_held(x2, "\nAcceptance criteria:\n"@ + crit);
        lemma_prompt_end(x2, t, "\nAcceptance criteria:\n"@ + crit);
    }
    if t.context.len() > 0 {
        lemma_end(x2, "\nContext:\n"@);
        lemma_longer_end(x3, "\nContext:\n"@, ctx);
        lemma_end_is_held(x4, "\nContext:\n"@ + ctx);
        let q = "\nContext:\n"@ + ctx;
        lemma_either(x4, "\n\n"@, q);
        lemma_either(x4 + "\n\n"@, mcp::prompt_steps(text::decimal(t.id as int)), q);
    }
}

proof fn lemma_prompt_end(front: Seq<char>, t: TaskView, p: Seq<char>)
    ensures
        holds_text(front, p) ==> holds_text(
            front + "\nContext:\n"@ + mcp::or_none(t.context) + "\n\n"@ + mcp::prompt_steps(
                text::decimal(t.id as int),
            ),
            p,
        ),
{
    let x3 = front + "\nContext:\n"@;
    let x4 = x3 + mcp::or_none(t.context);
    lemma_either(front, "\nContext:\n"@, p);
    lemma_either(x3, mcp::or_none(t.context), p);
    lemma_either(x4, "\n\n"@, p);
    lemma_either(x4 + "\n\n"@, mcp::prompt_steps(text::decimal(t.id as int)), p);
}

} // verus!
