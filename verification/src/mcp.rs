//! The tools of the MCP server (Model Context Protocol): what agents are told,
//! and what their arguments mean.
use vstd::prelude::*;

use crate::cli;
use crate::cli::NewTask;
use crate::error::Error;
use crate::json;
use crate::json::{add_member, from_members, no_members, Json, JsonView};
use crate::knowledge;
use crate::knowledge::{entry_json, CurrentSummary};
use crate::model;
use crate::model::{KnowledgeEntry, KnowledgeEntryView, KnowledgeKind, Priority, Task, TaskView};
use crate::project::{Context, ProjectConfig, ProjectConfigView};
use crate::service;
use crate::service::ReportMode;
use crate::text;
use crate::text::{
    cat, cat3, chars_of, int_text, join, keep_nonempty, owned, split_where, white_space,
};

verus! {

/// Parses an optional priority string, defaulting to medium.
pub fn parse_priority(s: Option<&str>) -> (r: Result<Priority, Error>)
    ensures
        match text::given(s) {
            None => r == Ok::<Priority, Error>(Priority::Medium),
            Some(p) => match r {
                Ok(x) => model::priority_of(p) == Some(x),
                Err(e) => model::priority_of(p) is None && e@ == "unknown priority: "@ + text::trim(
                    p,
                ) + " (use highest|high|medium|low|lowest, or 0..4)"@,
            },
        },
{
    match s {
        Some(p) => Priority::parse(p),
        None => Ok(Priority::Medium),
    }
}

/// Parses an optional report mode, defaulting to replace.
pub fn parse_mode(s: Option<&str>) -> (r: Result<ReportMode, Error>)
    ensures
        match text::given(s) {
            None => r == Ok::<ReportMode, Error>(ReportMode::Replace),
            Some(m) => match r {
                Ok(x) => service::mode_of(m) == Some(x),
                Err(e) => service::mode_of(m) is None && e@ == "unknown report mode: "@ + text::trim(m)
                    + " (use replace|append)"@,
            },
        },
{
    match s {
        Some(m) => ReportMode::parse(m),
        None => Ok(ReportMode::Replace),
    }
}

/// The name under which an agent acts.
pub open spec fn agent_name(actor: Option<Seq<char>>) -> Seq<char> {
    match actor {
        Some(a) => "agent:"@ + a,
        None => "agent:agent"@,
    }
}

/// The name under which an agent acts.
pub fn agent_actor(actor: Option<&str>) -> (r: String)
    ensures
        r@ == agent_name(text::given(actor)),
{
    match actor {
        Some(a) => cat("agent:", a),
        None => owned("agent:agent"),
    }
}

/// The message about a folder that is no project.
pub fn not_a_project(dir: &str) -> (r: String)
    ensures
        r@ == dir@ + " is not a jay project folder"@,
{
    cat(dir, " is not a jay project folder")
}

/// The project folder for task operations; `dir` is the folder that a request
/// names. A workspace, or a folder without a context, is refused.
pub fn target_root(context: Option<Context>, dir: Option<&str>) -> (r: Result<String, Error>)
    ensures
        match context {
            Some(Context::Project(p)) => r matches Ok(x) && x@ == p@,
            _ => r matches Err(e) && e@ == match text::given(dir) {
                Some(d) => d + " is not a jay project folder"@,
                None => "the MCP server's cwd is not a jay project folder"@,
            },
        },
{
    match context {
        Some(Context::Project(p)) => Ok(p),
        _ => match dir {
            Some(d) => Err(Error::new(not_a_project(d))),
            None => Err(Error::fixed("the MCP server's cwd is not a jay project folder")),
        },
    }
}

/// Whether a new entry may be designated as the current summary: only status
/// entries are.
pub fn check_set_current(kind: KnowledgeKind, set_current: bool) -> (r: Result<(), Error>)
    ensures
        match r {
            Ok(_) => kind == KnowledgeKind::Status || !set_current,
            Err(e) => kind != KnowledgeKind::Status && set_current && e@
                == "set_current only applies to status entries"@,
        },
{
    if kind != KnowledgeKind::Status && set_current {
        Err(Error::fixed("set_current only applies to status entries"))
    } else {
        Ok(())
    }
}

/// The reported idea that is promoted into a task.
pub fn promote_idea(task: &Task, idx: i64) -> (r: Result<String, Error>)
    ensures
        match r {
            Ok(idea) => 0 <= idx < task@.report_ideas.len() && idea@ == task@.report_ideas[idx as int],
            Err(e) => !(0 <= idx < task@.report_ideas.len()) && e@ == "idea index "@
                + text::decimal(idx as int) + " out of range"@,
        },
{
    if idx >= 0 && (idx as u128) < task.report_ideas.len() as u128 {
        Ok(task.report_ideas[idx as usize].clone())
    } else {
        let n = int_text(idx);
        Err(Error::new(cat3("idea index ", n.as_str(), " out of range")))
    }
}

/// A text, or a mark where it is empty.
pub open spec fn or_none(s: Seq<char>) -> Seq<char> {
    if s.len() == 0 {
        "(none)"@
    } else {
        s
    }
}

fn text_or_none(s: &str) -> (r: String)
    ensures
        r@ == or_none(s@),
{
    if chars_of(s).len() == 0 {
        owned("(none)")
    } else {
        owned(s)
    }
}

/// The acceptance criteria in a prompt, one to a line.
pub open spec fn criteria(acceptance: Seq<Seq<char>>) -> Seq<char> {
    if acceptance.len() == 0 {
        "(none)"@
    } else {
        text::joined(acceptance.map_values(|a: Seq<char>| "- "@ + a), "\n"@)
    }
}

fn criteria_text(acceptance: &Vec<String>) -> (r: String)
    ensures
        r@ == criteria(text::texts(acceptance@)),
{
    if acceptance.len() == 0 {
        return owned("(none)");
    }
    let ghost all = text::texts(acceptance@);
    let mut lines: Vec<String> = Vec::new();
    let mut i: usize = 0;
    while i < acceptance.len()
        invariant
            i <= acceptance.len(),
            all == text::texts(acceptance@),
            lines.len() == i,
            forall|j: int| 0 <= j < i ==> #[trigger] lines@[j]@ == "- "@ + all[j],
        decreases acceptance.len() - i,
    {
        lines.push(cat("- ", acceptance[i].as_str()));
        i += 1;
    }
    assert(text::texts(lines@) =~= all.map_values(|a: Seq<char>| "- "@ + a));
    join(&lines, "\n")
}

/// What a sub-agent is told to do with a task.
pub open spec fn prompt_steps(id: Seq<char>) -> Seq<char> {
    "Instructions (in this order):\n1. Start the task: update_task_status(id="@ + id
        + ", action='start').\n2. Do the work to satisfy the acceptance criteria.\n3. Send it to review: update_task_status(id="@
        + id
        + ", action='review').\n4. Finish with ONE typed completion call carrying all five report sections:\ncomplete_task(id="@
        + id + PROMPT_TAIL@
}

/// The end of what a sub-agent is told.
pub const PROMPT_TAIL: &'static str =
    ", result=..., validation=..., problems=[...], ideas=[...], decisions=[...])\n- result and validation must be nonblank; problems/ideas/decisions may be empty arrays.\n- complete_task saves the report and closes the task in one atomic mutation;\nit requires the task to be in review and never skips it.\n5. Partial edits: patch_task (fields) and update_report (report sections,\nreplace|append). update_task and update_report_section are legacy\nreplacement-style APIs — prefer the typed operations.\n6. Keep artifacts in English.";

/// The standardized prompt for a task.
pub open spec fn prompt(t: TaskView, c: ProjectConfigView) -> Seq<char> {
    "You are a sub-agent working on a task in the jay project management tool.\nProject: "@ + c.name
        + " — "@ + c.description + "\n\nTASK (id "@ + text::decimal(t.id as int) + "): "@ + t.title
        + "\n\n"@ + t.description + "\n\nStatus: "@ + model::status_name(t.status)
        + "\nAcceptance criteria:\n"@ + criteria(t.acceptance) + "\nContext:\n"@ + or_none(
        t.context,
    ) + "\n\n"@ + prompt_steps(text::decimal(t.id as int))
}

fn steps_text(id: &str) -> (r: String)
    ensures
        r@ == prompt_steps(id@),
{
    let mut out = cat(
        "Instructions (in this order):\n1. Start the task: update_task_status(id=",
        id,
    );
    out.append(
        ", action='start').\n2. Do the work to satisfy the acceptance criteria.\n3. Send it to review: update_task_status(id=",
    );
    out.append(id);
    out.append(
        ", action='review').\n4. Finish with ONE typed completion call carrying all five report sections:\ncomplete_task(id=",
    );
    out.append(id);
    out.append(PROMPT_TAIL);
    out
}

/// Builds the standardized sub-agent prompt for a task.
pub fn build_prompt(task: &Task, config: &ProjectConfig) -> (r: String)
    ensures
        r@ == prompt(task@, config@),
{
    let id = int_text(task.id);
    let mut out = cat(
        "You are a sub-agent working on a task in the jay project management tool.\nProject: ",
        config.name.as_str(),
    );
    out.append(" — ");
    out.append(config.description.as_str());
    out.append("\n\nTASK (id ");
    out.append(id.as_str());
    out.append("): ");
    out.append(task.title.as_str());
    out.append("\n\n");
    out.append(task.description.as_str());
    out.append("\n\nStatus: ");
    out.append(task.status.as_str());
    out.append("\nAcceptance criteria:\n");
    let list = criteria_text(&task.acceptance);
    out.append(list.as_str());
    out.append("\nContext:\n");
    let context = text_or_none(task.context.as_str());
    out.append(context.as_str());
    out.append("\n\n");
    let steps = steps_text(id.as_str());
    out.append(steps.as_str());
    out
}

/// What separates the words of a command line.
pub open spec fn word_gap() -> spec_fn(char) -> bool {
    |c: char| text::is_space(c)
}

/// The words of a command line.
pub open spec fn command_words(line: Seq<char>) -> Seq<Seq<char>> {
    text::nonempty(text::pieces(line, word_gap()))
}

/// The program of a sub-agent and its arguments, the prompt last.
pub open spec fn agent_words(command: Option<Seq<char>>, prompt: Seq<char>) -> Seq<Seq<char>> {
    (match command {
        Some(line) => command_words(line),
        None => seq!["dsh"@, "--profile"@, "headless"@],
    }).push(prompt)
}

/// The program of a sub-agent and its arguments, the prompt last. A command
/// without words is refused.
pub fn agent_command(command: Option<&str>, prompt: &str) -> (r: Result<Vec<String>, Error>)
    ensures
        match r {
            Ok(words) => text::texts(words@) == agent_words(text::given(command), prompt@)
                && words.len() >= 2,
            Err(e) => e@ == "empty command"@ && text::given(command) is Some && command_words(
                text::given(command)->0,
            ).len() == 0,
        },
{
    let mut words: Vec<String> = match command {
        Some(line) => {
            let chars = chars_of(line);
            let mut cut: Vec<bool> = Vec::new();
            let mut i: usize = 0;
            while i < chars.len()
                invariant
                    i <= chars.len(),
                    cut.len() == i,
                    forall|j: int| 0 <= j < i ==> #[trigger] cut@[j] == word_gap()(chars@[j]),
                decreases chars.len() - i,
            {
                cut.push(white_space(chars[i]));
                i += 1;
            }
            let all = split_where(&chars, &cut, Ghost(word_gap()));
            let kept = keep_nonempty(all);
            assert(text::texts(kept@).len() == kept.len());
            if kept.len() == 0 {
                return Err(Error::fixed("empty command"));
            }
            kept
        },
        None => {
            let mut w: Vec<String> = Vec::new();
            w.push(owned("dsh"));
            w.push(owned("--profile"));
            w.push(owned("headless"));
            assert(text::texts(w@) =~= seq!["dsh"@, "--profile"@, "headless"@]);
            w
        },
    };
    let ghost before = text::texts(words@);
    words.push(owned(prompt));
    assert(text::texts(words@) =~= before.push(prompt@));
    Ok(words)
}

/// What a sub-agent left behind (its exit code is -1 where a signal ended it).
pub fn agent_reply(code: Option<i32>, stdout: &str, stderr: &str) -> (r: String)
    ensures
        r@ == "exit="@ + text::decimal(
            match code {
                Some(c) => c as int,
                None => -1,
            },
        ) + "\nstdout:\n"@ + stdout@ + "\nstderr:\n"@ + stderr@,
{
    let c: i64 = match code {
        Some(c) => c as i64,
        None => -1,
    };
    let n = int_text(c);
    let mut out = cat3("exit=", n.as_str(), "\nstdout:\n");
    out.append(stdout);
    out.append("\nstderr:\n");
    out.append(stderr);
    out
}

/// Whether a search result is the designated current summary.
pub open spec fn is_designated(current: Option<i64>, e: KnowledgeEntryView) -> bool {
    current == Some(e.id) && e.kind == KnowledgeKind::Status
}

/// Whether a search result is the designated current summary.
pub fn is_current_summary(current: Option<i64>, e: &KnowledgeEntry) -> (r: bool)
    ensures
        r == is_designated(current, e@),
{
    match current {
        Some(id) => id == e.id && e.kind == KnowledgeKind::Status,
        None => false,
    }
}

/// What adding a status entry replies.
pub fn added_status_json(entry: &KnowledgeEntry, current: &Option<CurrentSummary>) -> (r: Json)
    ensures
        r@ == JsonView::Object(
            seq![
                json::member("entry"@, knowledge::entry_value(entry@)),
                json::member(
                    "current_summary"@,
                    knowledge::designation_value(knowledge::opt_summary(*current)),
                ),
            ],
        ),
{
    let mut m = no_members();
    add_member(&mut m, "entry", entry_json(entry));
    add_member(&mut m, "current_summary", knowledge::designation_json(current));
    assert(json::members(m@) =~= seq![
        json::member("entry"@, knowledge::entry_value(entry@)),
        json::member(
            "current_summary"@,
            knowledge::designation_value(knowledge::opt_summary(*current)),
        ),
    ]);
    from_members(m)
}

/// The fields of the task that an idea is promoted into.
pub fn idea_task(idea: String) -> (r: NewTask)
    ensures
        forall|id: i64, actor: Seq<char>, now: Seq<char>|
            cli::filled(id, r, actor, now) == (TaskView {
                actor: Some(actor),
                ..model::fresh_task(id, idea@, Seq::empty(), now)
            }),
{
    let r = NewTask {
        title: idea,
        description: String::new(),
        priority: Priority::Medium,
        labels: Vec::new(),
        estimate_points: None,
        estimate_hours: None,
        deadline: None,
        links: Vec::new(),
        acceptance: Vec::new(),
        context: String::new(),
        assignee: None,
        parent_id: None,
        epic_id: None,
        milestone_id: None,
        depends_on: Vec::new(),
    };
    assert(text::texts(r.labels@) =~= Seq::empty());
    assert(r.description@ =~= Seq::empty());
    assert(r.context@ =~= Seq::empty());
    assert(r.depends_on@ =~= Seq::empty());
    r
}

} // verus!
