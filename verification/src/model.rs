//! Tasks, their lifecycle, knowledge base entries and milestones.
use vstd::prelude::*;

use crate::clock;
use crate::clock::now_ts;
use crate::error::Error;
use crate::text;
use crate::text::{
    cat, cat3, contains_text, is_opt_blank, opt_clone, opt_owned, owned, same, starts_with, texts_clone,
    trimmed,
};

verus! {

/// Status of a task: a fixed, ordered state machine.
///
/// `open -> started -> review -> closed` is the happy path; `cancelled` is a
/// side exit (reopenable); `blocked` is not a status but a flag on the task.
#[derive(Debug, Clone, Copy, PartialEq, Eq, PartialOrd, Ord, Structural)]
pub enum TaskStatus {
    /// Backlog, not started.
    Open,
    /// Work in progress (a branch may be created).
    Started,
    /// Ready for or under review (a PR may be open).
    Review,
    /// Finished successfully (terminal, no rewind).
    Closed,
    /// Abandoned (reopenable back to open).
    Cancelled,
}

/// The text form of a status.
pub open spec fn status_name(s: TaskStatus) -> Seq<char> {
    match s {
        TaskStatus::Open => "open"@,
        TaskStatus::Started => "started"@,
        TaskStatus::Review => "review"@,
        TaskStatus::Closed => "closed"@,
        TaskStatus::Cancelled => "cancelled"@,
    }
}

/// The status that a text names.
pub open spec fn status_of(s: Seq<char>) -> Option<TaskStatus> {
    if s == "open"@ {
        Some(TaskStatus::Open)
    } else if s == "started"@ {
        Some(TaskStatus::Started)
    } else if s == "review"@ {
        Some(TaskStatus::Review)
    } else if s == "closed"@ {
        Some(TaskStatus::Closed)
    } else if s == "cancelled"@ {
        Some(TaskStatus::Cancelled)
    } else {
        None
    }
}

impl TaskStatus {
    /// All statuses in board and display order.
    pub const ALL: [TaskStatus; 5] = [
        TaskStatus::Open,
        TaskStatus::Started,
        TaskStatus::Review,
        TaskStatus::Closed,
        TaskStatus::Cancelled,
    ];

    /// The text form of the status (also its form in a task file).
    pub fn as_str(self) -> (r: &'static str)
        ensures
            r@ == status_name(self),
    {
        match self {
            TaskStatus::Open => "open",
            TaskStatus::Started => "started",
            TaskStatus::Review => "review",
            TaskStatus::Closed => "closed",
            TaskStatus::Cancelled => "cancelled",
        }
    }

    /// True for the successful terminal state, which records `done_at`.
    pub fn is_terminal(self) -> (r: bool)
        ensures
            r == (self == TaskStatus::Closed),
    {
        matches!(self, TaskStatus::Closed)
    }

    /// The status that `s` names.
    pub fn parse(s: &str) -> (r: Result<TaskStatus, Error>)
        ensures
            match r {
                Ok(status) => status_of(s@) == Some(status),
                Err(e) => status_of(s@) is None && e@ == "unknown task status: "@ + s@,
            },
    {
        if same(s, "open") {
            Ok(TaskStatus::Open)
        } else if same(s, "started") {
            Ok(TaskStatus::Started)
        } else if same(s, "review") {
            Ok(TaskStatus::Review)
        } else if same(s, "closed") {
            Ok(TaskStatus::Closed)
        } else if same(s, "cancelled") {
            Ok(TaskStatus::Cancelled)
        } else {
            Err(Error::new(cat("unknown task status: ", s)))
        }
    }
}

impl std::str::FromStr for TaskStatus {
    type Err = Error;

    fn from_str(s: &str) -> (r: Result<TaskStatus, Error>)
        ensures
            match r {
                Ok(status) => status_of(s@) == Some(status),
                Err(e) => status_of(s@) is None && e@ == "unknown task status: "@ + s@,
            },
    {
        TaskStatus::parse(s)
    }
}

/// Every status is read back from its text form.
pub proof fn law_status_name_reads_back(s: TaskStatus)
    ensures
        status_of(status_name(s)) == Some(s),
{
    reveal_strlit("open");
    reveal_strlit("started");
    reveal_strlit("review");
    reveal_strlit("closed");
    reveal_strlit("cancelled");
    assert("open"@.len() == 4 && "started"@.len() == 7 && "review"@.len() == 6);
    assert("closed"@.len() == 6 && "cancelled"@.len() == 9);
    assert("review"@[0] != "closed"@[0]);
}

/// A state-machine action: what a task command performs.
#[derive(Debug, Clone, Copy, PartialEq, Eq, Structural)]
pub enum TaskAction {
    /// open -> started (records `started_at`, creates a branch).
    Start,
    /// started -> review (opens a PR).
    Review,
    /// review -> closed (records `done_at`).
    Done,
    /// review -> started -> open (one step back; never from closed).
    Rewind,
    /// any (except closed) -> cancelled.
    Cancel,
    /// cancelled or closed -> open.
    Reopen,
    /// Set the `blocked` flag (with an optional reason).
    Block,
    /// Clear the `blocked` flag.
    Unblock,
}

/// The text form of an action.
pub open spec fn action_name(a: TaskAction) -> Seq<char> {
    match a {
        TaskAction::Start => "start"@,
        TaskAction::Review => "review"@,
        TaskAction::Done => "done"@,
        TaskAction::Rewind => "rewind"@,
        TaskAction::Cancel => "cancel"@,
        TaskAction::Reopen => "reopen"@,
        TaskAction::Block => "block"@,
        TaskAction::Unblock => "unblock"@,
    }
}

/// The action that a text names.
pub open spec fn action_of(s: Seq<char>) -> Option<TaskAction> {
    if s == "start"@ {
        Some(TaskAction::Start)
    } else if s == "review"@ {
        Some(TaskAction::Review)
    } else if s == "done"@ {
        Some(TaskAction::Done)
    } else if s == "rewind"@ {
        Some(TaskAction::Rewind)
    } else if s == "cancel"@ {
        Some(TaskAction::Cancel)
    } else if s == "reopen"@ {
        Some(TaskAction::Reopen)
    } else if s == "block"@ {
        Some(TaskAction::Block)
    } else if s == "unblock"@ {
        Some(TaskAction::Unblock)
    } else {
        None
    }
}

impl TaskAction {
    /// The text form of the action.
    pub fn as_str(self) -> (r: &'static str)
        ensures
            r@ == action_name(self),
    {
        match self {
            TaskAction::Start => "start",
            TaskAction::Review => "review",
            TaskAction::Done => "done",
            TaskAction::Rewind => "rewind",
            TaskAction::Cancel => "cancel",
            TaskAction::Reopen => "reopen",
            TaskAction::Block => "block",
            TaskAction::Unblock => "unblock",
        }
    }

    /// The action that `s` names.
    pub fn parse(s: &str) -> (r: Result<TaskAction, Error>)
        ensures
            match r {
                Ok(action) => action_of(s@) == Some(action),
                Err(e) => action_of(s@) is None && e@ == "unknown action: "@ + s@,
            },
    {
        if same(s, "start") {
            Ok(TaskAction::Start)
        } else if same(s, "review") {
            Ok(TaskAction::Review)
        } else if same(s, "done") {
            Ok(TaskAction::Done)
        } else if same(s, "rewind") {
            Ok(TaskAction::Rewind)
        } else if same(s, "cancel") {
            Ok(TaskAction::Cancel)
        } else if same(s, "reopen") {
            Ok(TaskAction::Reopen)
        } else if same(s, "block") {
            Ok(TaskAction::Block)
        } else if same(s, "unblock") {
            Ok(TaskAction::Unblock)
        } else {
            Err(Error::new(cat("unknown action: ", s)))
        }
    }
}

impl std::str::FromStr for TaskAction {
    type Err = Error;

    fn from_str(s: &str) -> (r: Result<TaskAction, Error>)
        ensures
            match r {
                Ok(action) => action_of(s@) == Some(action),
                Err(e) => action_of(s@) is None && e@ == "unknown action: "@ + s@,
            },
    {
        TaskAction::parse(s)
    }
}

/// Every action is read back from its text form.
pub proof fn law_action_name_reads_back(a: TaskAction)
    ensures
        action_of(action_name(a)) == Some(a),
{
    reveal_strlit("start");
    reveal_strlit("review");
    reveal_strlit("done");
    reveal_strlit("rewind");
    reveal_strlit("cancel");
    reveal_strlit("reopen");
    reveal_strlit("block");
    reveal_strlit("unblock");
    assert("start"@.len() == 5 && "review"@.len() == 6 && "done"@.len() == 4);
    assert("rewind"@.len() == 6 && "cancel"@.len() == 6 && "reopen"@.len() == 6);
    assert("block"@.len() == 5 && "unblock"@.len() == 7);
    assert("start"@[0] != "block"@[0]);
    assert("review"@[2] != "rewind"@[2]);
    assert("review"@[2] != "reopen"@[2]);
    assert("rewind"@[2] != "reopen"@[2]);
    assert("cancel"@[0] != "review"@[0]);
    assert("cancel"@[0] != "rewind"@[0]);
    assert("cancel"@[0] != "reopen"@[0]);
}

/// A snapshot of a prior completion cycle's report, preserved in history
/// when a closed task is reopened. Old reports are claims recorded at a
/// point in time, never silently reused as a new cycle's evidence.
#[derive(Debug, PartialEq)]
pub struct ReportSnapshot {
    pub result: Option<String>,
    pub validation: Option<String>,
    pub problems: Vec<String>,
    pub ideas: Vec<String>,
    pub decisions: Vec<String>,
    /// Integration links (branch, PR, commit) owned by that cycle.
    pub links: Vec<String>,
}

/// What a [`ReportSnapshot`] holds.
#[verifier::ext_equal]
pub struct ReportSnapshotView {
    pub result: Option<Seq<char>>,
    pub validation: Option<Seq<char>>,
    pub problems: Seq<Seq<char>>,
    pub ideas: Seq<Seq<char>>,
    pub decisions: Seq<Seq<char>>,
    pub links: Seq<Seq<char>>,
}

impl View for ReportSnapshot {
    type V = ReportSnapshotView;

    open spec fn view(&self) -> ReportSnapshotView {
        ReportSnapshotView {
            result: text::opt_text(self.result),
            validation: text::opt_text(self.validation),
            problems: text::texts(self.problems@),
            ideas: text::texts(self.ideas@),
            decisions: text::texts(self.decisions@),
            links: text::texts(self.links@),
        }
    }
}

impl Clone for ReportSnapshot {
    fn clone(&self) -> (r: ReportSnapshot)
        ensures
            r@ == self@,
    {
        ReportSnapshot {
            result: opt_clone(&self.result),
            validation: opt_clone(&self.validation),
            problems: texts_clone(&self.problems),
            ideas: texts_clone(&self.ideas),
            decisions: texts_clone(&self.decisions),
            links: texts_clone(&self.links),
        }
    }
}

/// One recorded lifecycle transition (actor, offset-bearing timestamp,
/// old and new state, reason, and for reopens the prior cycle's evidence).
#[derive(Debug, PartialEq)]
pub struct LifecycleEvent {
    /// RFC 3339 with offset.
    pub at: String,
    pub actor: String,
    pub from: Option<TaskStatus>,
    pub to: TaskStatus,
    pub reason: Option<String>,
    /// Prior completion timestamp preserved when reopening a closed task.
    pub prior_done_at: Option<String>,
    /// Prior report snapshot preserved when reopening a closed task.
    pub prior_report: Option<ReportSnapshot>,
}

/// What a [`LifecycleEvent`] holds.
#[verifier::ext_equal]
pub struct LifecycleEventView {
    pub at: Seq<char>,
    pub actor: Seq<char>,
    pub from: Option<TaskStatus>,
    pub to: TaskStatus,
    pub reason: Option<Seq<char>>,
    pub prior_done_at: Option<Seq<char>>,
    pub prior_report: Option<ReportSnapshotView>,
}

/// What an optional snapshot holds.
pub open spec fn opt_snapshot(o: Option<ReportSnapshot>) -> Option<ReportSnapshotView> {
    match o {
        Some(s) => Some(s@),
        None => None,
    }
}

impl View for LifecycleEvent {
    type V = LifecycleEventView;

    open spec fn view(&self) -> LifecycleEventView {
        LifecycleEventView {
            at: self.at@,
            actor: self.actor@,
            from: self.from,
            to: self.to,
            reason: text::opt_text(self.reason),
            prior_done_at: text::opt_text(self.prior_done_at),
            prior_report: opt_snapshot(self.prior_report),
        }
    }
}

impl Clone for LifecycleEvent {
    fn clone(&self) -> (r: LifecycleEvent)
        ensures
            r@ == self@,
    {
        LifecycleEvent {
            at: self.at.clone(),
            actor: self.actor.clone(),
            from: self.from,
            to: self.to,
            reason: opt_clone(&self.reason),
            prior_done_at: opt_clone(&self.prior_done_at),
            prior_report: match &self.prior_report {
                Some(s) => Some(s.clone()),
                None => None,
            },
        }
    }
}

/// What a list of events holds.
pub open spec fn events(v: Seq<LifecycleEvent>) -> Seq<LifecycleEventView> {
    v.map_values(|e: LifecycleEvent| e@)
}

/// Actor and reason supplied to a lifecycle transition.
#[derive(Debug)]
pub struct LifecycleCtx {
    pub actor: String,
    pub reason: Option<String>,
}

impl LifecycleCtx {
    /// The context of a transition by `actor`.
    pub fn new(actor: &str, reason: Option<&str>) -> (r: LifecycleCtx)
        ensures
            r.actor@ == actor@,
            text::opt_text(r.reason) == text::given(reason),
    {
        LifecycleCtx { actor: owned(actor), reason: opt_owned(reason) }
    }
}

impl Clone for LifecycleCtx {
    fn clone(&self) -> (r: LifecycleCtx)
        ensures
            r.actor@ == self.actor@,
            text::opt_text(r.reason) == text::opt_text(self.reason),
    {
        LifecycleCtx { actor: self.actor.clone(), reason: opt_clone(&self.reason) }
    }
}

/// Priority of a task.
#[derive(Debug, Clone, Copy, PartialEq, Eq, Structural)]
pub enum Priority {
    Highest,
    High,
    Medium,
    Low,
    Lowest,
}

/// The text form of a priority.
pub open spec fn priority_name(p: Priority) -> Seq<char> {
    match p {
        Priority::Highest => "highest"@,
        Priority::High => "high"@,
        Priority::Medium => "medium"@,
        Priority::Low => "low"@,
        Priority::Lowest => "lowest"@,
    }
}

/// The rank of a priority: 0 is the most urgent.
pub open spec fn priority_rank(p: Priority) -> int {
    match p {
        Priority::Highest => 0,
        Priority::High => 1,
        Priority::Medium => 2,
        Priority::Low => 3,
        Priority::Lowest => 4,
    }
}

/// The priority that a text names or ranks, surrounding white space aside.
pub open spec fn priority_of(text: Seq<char>) -> Option<Priority> {
    let s = text::trim(text);
    if s == "highest"@ || s == "0"@ {
        Some(Priority::Highest)
    } else if s == "high"@ || s == "1"@ {
        Some(Priority::High)
    } else if s == "medium"@ || s == "2"@ {
        Some(Priority::Medium)
    } else if s == "low"@ || s == "3"@ {
        Some(Priority::Low)
    } else if s == "lowest"@ || s == "4"@ {
        Some(Priority::Lowest)
    } else {
        None
    }
}

impl Default for Priority {
    fn default() -> (r: Priority)
        ensures
            r == Priority::Medium,
    {
        Priority::Medium
    }
}

impl Priority {
    /// All priorities, most urgent first.
    pub const ALL: [Priority; 5] = [
        Priority::Highest,
        Priority::High,
        Priority::Medium,
        Priority::Low,
        Priority::Lowest,
    ];

    /// The text form of the priority.
    pub fn as_str(self) -> (r: &'static str)
        ensures
            r@ == priority_name(self),
    {
        match self {
            Priority::Highest => "highest",
            Priority::High => "high",
            Priority::Medium => "medium",
            Priority::Low => "low",
            Priority::Lowest => "lowest",
        }
    }

    /// Numeric rank for ordering (0 = most urgent, first).
    pub fn rank(self) -> (r: i32)
        ensures
            r == priority_rank(self),
    {
        match self {
            Priority::Highest => 0,
            Priority::High => 1,
            Priority::Medium => 2,
            Priority::Low => 3,
            Priority::Lowest => 4,
        }
    }

    /// The priority that `s` names or ranks.
    pub fn parse(s: &str) -> (r: Result<Priority, Error>)
        ensures
            match r {
                Ok(p) => priority_of(s@) == Some(p),
                Err(e) => priority_of(s@) is None && e@ == "unknown priority: "@ + text::trim(s@)
                    + " (use highest|high|medium|low|lowest, or 0..4)"@,
            },
    {
        let t = trimmed(s);
        let t: &str = t.as_str();
        if same(t, "highest") || same(t, "0") {
            Ok(Priority::Highest)
        } else if same(t, "high") || same(t, "1") {
            Ok(Priority::High)
        } else if same(t, "medium") || same(t, "2") {
            Ok(Priority::Medium)
        } else if same(t, "low") || same(t, "3") {
            Ok(Priority::Low)
        } else if same(t, "lowest") || same(t, "4") {
            Ok(Priority::Lowest)
        } else {
            Err(
                Error::new(
                    cat3("unknown priority: ", t, " (use highest|high|medium|low|lowest, or 0..4)"),
                ),
            )
        }
    }
}

impl std::str::FromStr for Priority {
    type Err = Error;

    fn from_str(s: &str) -> (r: Result<Priority, Error>)
        ensures
            match r {
                Ok(p) => priority_of(s@) == Some(p),
                Err(e) => priority_of(s@) is None && e@ == "unknown priority: "@ + text::trim(s@)
                    + " (use highest|high|medium|low|lowest, or 0..4)"@,
            },
    {
        Priority::parse(s)
    }
}

/// Every priority is read back from its text form and from its rank.
pub proof fn law_priority_name_reads_back(p: Priority)
    ensures
        priority_of(priority_name(p)) == Some(p),
        priority_of(text::decimal(priority_rank(p))) == Some(p),
{
    reveal_strlit("highest");
    reveal_strlit("high");
    reveal_strlit("medium");
    reveal_strlit("low");
    reveal_strlit("lowest");
    reveal_strlit("0");
    reveal_strlit("1");
    reveal_strlit("2");
    reveal_strlit("3");
    reveal_strlit("4");
    assert("highest"@.len() == 7 && "high"@.len() == 4 && "medium"@.len() == 6);
    assert("low"@.len() == 3 && "lowest"@.len() == 6);
    assert("medium"@[0] != "lowest"@[0]);
    text::lemma_trim_tight(priority_name(p));
    let rank = text::decimal(priority_rank(p));
    reveal_with_fuel(text::numeral, 2);
    assert(rank =~= seq![text::digit(priority_rank(p))]);
    assert("0"@ =~= seq!['0'] && "1"@ =~= seq!['1'] && "2"@ =~= seq!['2'] && "3"@ =~= seq!['3']
        && "4"@ =~= seq!['4']);
    assert(seq!['0'][0] != seq!['1'][0]);
    assert(rank[0] == text::digit(priority_rank(p)) && rank.len() == 1);
    text::lemma_trim_tight(rank);
}

/// A structured Git/Forgejo integration diagnostic: recorded when an
/// automatic branch or PR operation fails in `auto` mode. Kept separate from
/// `report_problems` (which are implementation findings by the worker).
#[derive(Debug, PartialEq, Eq)]
pub struct GitDiagnostic {
    /// The attempted operation, e.g. "branch" or "pr".
    pub operation: String,
    /// What went wrong (or which prerequisite is missing).
    pub message: String,
    /// When it was recorded (RFC 3339 with offset for new records).
    pub at: String,
}

/// What a [`GitDiagnostic`] holds.
#[verifier::ext_equal]
pub struct GitDiagnosticView {
    pub operation: Seq<char>,
    pub message: Seq<char>,
    pub at: Seq<char>,
}

impl View for GitDiagnostic {
    type V = GitDiagnosticView;

    open spec fn view(&self) -> GitDiagnosticView {
        GitDiagnosticView { operation: self.operation@, message: self.message@, at: self.at@ }
    }
}

impl Clone for GitDiagnostic {
    fn clone(&self) -> (r: GitDiagnostic)
        ensures
            r@ == self@,
    {
        GitDiagnostic {
            operation: self.operation.clone(),
            message: self.message.clone(),
            at: self.at.clone(),
        }
    }
}

/// What a list of diagnostics holds.
pub open spec fn diagnostics(v: Seq<GitDiagnostic>) -> Seq<GitDiagnosticView> {
    v.map_values(|d: GitDiagnostic| d@)
}

/// A task is a work contract: whoever works on it (human or agent) fills in
/// every field and reports through the standard sections when done.
#[derive(Debug)]
pub struct Task {
    /// Unique id, also the task file name (`.nest/tasks/<id>.toml`).
    pub id: i64,
    pub title: String,
    pub description: String,
    pub status: TaskStatus,
    /// Blocked flag, orthogonal to `status`; a blocked task can't transition.
    pub blocked: bool,
    /// Optional reason recorded when the task is blocked.
    pub block_reason: Option<String>,
    pub acceptance: Vec<String>,
    pub context: String,
    pub assignee: Option<String>,
    pub priority: Priority,
    pub labels: Vec<String>,
    pub estimate_points: Option<i64>,
    /// Hours, as the shortest decimal text of the number.
    pub estimate_hours: Option<String>,
    pub deadline: Option<String>,
    pub links: Vec<String>,
    pub parent_id: Option<i64>,
    pub epic_id: Option<i64>,
    pub milestone_id: Option<i64>,
    /// Structured local dependencies (task ids in this project). Independent
    /// of parent/epic/milestone relationships. A task is "ready" when open,
    /// unblocked and every dependency is closed (cancelled does not count).
    pub depends_on: Vec<i64>,
    pub report_result: Option<String>,
    pub report_problems: Vec<String>,
    pub report_ideas: Vec<String>,
    pub report_decisions: Vec<String>,
    pub report_validation: Option<String>,
    pub created_at: String,
    pub started_at: Option<String>,
    pub done_at: Option<String>,
    /// Set on tasks created as an explicit follow-up of another task.
    /// Does not imply a dependency unless one is requested separately.
    pub follow_up_of: Option<i64>,
    /// Last writer: "human" (CLI) or "agent:<name>" (MCP).
    pub actor: Option<String>,
    /// Last change timestamp.
    pub updated_at: String,
    /// Structured Git/Forgejo integration failures (auto mode only).
    pub git_diagnostics: Vec<GitDiagnostic>,
    /// Recorded lifecycle transitions. Existing files default to empty
    /// history: their past transitions are never invented.
    pub history: Vec<LifecycleEvent>,
}

/// What a [`Task`] holds.
#[verifier::ext_equal]
pub struct TaskView {
    pub id: i64,
    pub title: Seq<char>,
    pub description: Seq<char>,
    pub status: TaskStatus,
    pub blocked: bool,
    pub block_reason: Option<Seq<char>>,
    pub acceptance: Seq<Seq<char>>,
    pub context: Seq<char>,
    pub assignee: Option<Seq<char>>,
    pub priority: Priority,
    pub labels: Seq<Seq<char>>,
    pub estimate_points: Option<i64>,
    pub estimate_hours: Option<Seq<char>>,
    pub deadline: Option<Seq<char>>,
    pub links: Seq<Seq<char>>,
    pub parent_id: Option<i64>,
    pub epic_id: Option<i64>,
    pub milestone_id: Option<i64>,
    pub depends_on: Seq<i64>,
    pub report_result: Option<Seq<char>>,
    pub report_problems: Seq<Seq<char>>,
    pub report_ideas: Seq<Seq<char>>,
    pub report_decisions: Seq<Seq<char>>,
    pub report_validation: Option<Seq<char>>,
    pub created_at: Seq<char>,
    pub started_at: Option<Seq<char>>,
    pub done_at: Option<Seq<char>>,
    pub follow_up_of: Option<i64>,
    pub actor: Option<Seq<char>>,
    pub updated_at: Seq<char>,
    pub git_diagnostics: Seq<GitDiagnosticView>,
    pub history: Seq<LifecycleEventView>,
}

impl View for Task {
    type V = TaskView;

    open spec fn view(&self) -> TaskView {
        TaskView {
            id: self.id,
            title: self.title@,
            description: self.description@,
            status: self.status,
            blocked: self.blocked,
            block_reason: text::opt_text(self.block_reason),
            acceptance: text::texts(self.acceptance@),
            context: self.context@,
            assignee: text::opt_text(self.assignee),
            priority: self.priority,
            labels: text::texts(self.labels@),
            estimate_points: self.estimate_points,
            estimate_hours: text::opt_text(self.estimate_hours),
            deadline: text::opt_text(self.deadline),
            links: text::texts(self.links@),
            parent_id: self.parent_id,
            epic_id: self.epic_id,
            milestone_id: self.milestone_id,
            depends_on: self.depends_on@,
            report_result: text::opt_text(self.report_result),
            report_problems: text::texts(self.report_problems@),
            report_ideas: text::texts(self.report_ideas@),
            report_decisions: text::texts(self.report_decisions@),
            report_validation: text::opt_text(self.report_validation),
            created_at: self.created_at@,
            started_at: text::opt_text(self.started_at),
            done_at: text::opt_text(self.done_at),
            follow_up_of: self.follow_up_of,
            actor: text::opt_text(self.actor),
            updated_at: self.updated_at@,
            git_diagnostics: diagnostics(self.git_diagnostics@),
            history: events(self.history@),
        }
    }
}

/// What a list of tasks holds.
pub open spec fn tasks(v: Seq<Task>) -> Seq<TaskView> {
    v.map_values(|t: Task| t@)
}

fn diagnostics_clone(v: &Vec<GitDiagnostic>) -> (r: Vec<GitDiagnostic>)
    ensures
        diagnostics(r@) == diagnostics(v@),
{
    let mut out: Vec<GitDiagnostic> = Vec::new();
    let mut i: usize = 0;
    while i < v.len()
        invariant
            i <= v.len(),
            diagnostics(out@) == diagnostics(v@).take(i as int),
        decreases v.len() - i,
    {
        out.push(v[i].clone());
        assert(diagnostics(v@).take(i + 1) =~= diagnostics(v@).take(i as int).push(v@[i as int]@));
        assert(diagnostics(out@) =~= diagnostics(v@).take(i + 1));
        i += 1;
    }
    assert(diagnostics(v@).take(i as int) =~= diagnostics(v@));
    out
}

fn events_clone(v: &Vec<LifecycleEvent>) -> (r: Vec<LifecycleEvent>)
    ensures
        events(r@) == events(v@),
{
    let mut out: Vec<LifecycleEvent> = Vec::new();
    let mut i: usize = 0;
    while i < v.len()
        invariant
            i <= v.len(),
            events(out@) == events(v@).take(i as int),
        decreases v.len() - i,
    {
        out.push(v[i].clone());
        assert(events(v@).take(i + 1) =~= events(v@).take(i as int).push(v@[i as int]@));
        assert(events(out@) =~= events(v@).take(i + 1));
        i += 1;
    }
    assert(events(v@).take(i as int) =~= events(v@));
    out
}

/// A copy of a list of ids.
pub fn ids_clone(v: &Vec<i64>) -> (r: Vec<i64>)
    ensures
        r@ == v@,
{
    let mut out: Vec<i64> = Vec::new();
    let mut i: usize = 0;
    while i < v.len()
        invariant
            i <= v.len(),
            out@ == v@.take(i as int),
        decreases v.len() - i,
    {
        out.push(v[i]);
        assert(v@.take(i + 1) =~= v@.take(i as int).push(v@[i as int]));
        i += 1;
    }
    assert(v@.take(i as int) =~= v@);
    out
}

impl Clone for Task {
    fn clone(&self) -> (r: Task)
        ensures
            r@ == self@,
    {
        Task {
            id: self.id,
            title: self.title.clone(),
            description: self.description.clone(),
            status: self.status,
            blocked: self.blocked,
            block_reason: opt_clone(&self.block_reason),
            acceptance: texts_clone(&self.acceptance),
            context: self.context.clone(),
            assignee: opt_clone(&self.assignee),
            priority: self.priority,
            labels: texts_clone(&self.labels),
            estimate_points: self.estimate_points,
            estimate_hours: opt_clone(&self.estimate_hours),
            deadline: opt_clone(&self.deadline),
            links: texts_clone(&self.links),
            parent_id: self.parent_id,
            epic_id: self.epic_id,
            milestone_id: self.milestone_id,
            depends_on: ids_clone(&self.depends_on),
            report_result: opt_clone(&self.report_result),
            report_problems: texts_clone(&self.report_problems),
            report_ideas: texts_clone(&self.report_ideas),
            report_decisions: texts_clone(&self.report_decisions),
            report_validation: opt_clone(&self.report_validation),
            created_at: self.created_at.clone(),
            started_at: opt_clone(&self.started_at),
            done_at: opt_clone(&self.done_at),
            follow_up_of: self.follow_up_of,
            actor: opt_clone(&self.actor),
            updated_at: self.updated_at.clone(),
            git_diagnostics: diagnostics_clone(&self.git_diagnostics),
            history: events_clone(&self.history),
        }
    }
}

/// A fresh task, created at `now`.
pub open spec fn fresh_task(
    id: i64,
    title: Seq<char>,
    description: Seq<char>,
    now: Seq<char>,
) -> TaskView {
    TaskView {
        id,
        title,
        description,
        status: TaskStatus::Open,
        blocked: false,
        block_reason: None,
        acceptance: Seq::empty(),
        context: Seq::empty(),
        assignee: None,
        priority: Priority::Medium,
        labels: Seq::empty(),
        estimate_points: None,
        estimate_hours: None,
        deadline: None,
        links: Seq::empty(),
        parent_id: None,
        epic_id: None,
        milestone_id: None,
        depends_on: Seq::empty(),
        report_result: None,
        report_problems: Seq::empty(),
        report_ideas: Seq::empty(),
        report_decisions: Seq::empty(),
        report_validation: None,
        created_at: now,
        started_at: None,
        done_at: None,
        follow_up_of: None,
        actor: None,
        updated_at: now,
        git_diagnostics: Seq::empty(),
        history: Seq::empty(),
    }
}

/// Whether a link is owned by git integration.
pub open spec fn integration_link(link: Seq<char>) -> bool {
    ||| text::begins(link, "branch:"@)
    ||| text::begins(link, "pr:"@)
    ||| text::begins(link, "commit:"@)
    ||| text::has_text(link, "/pulls/"@)
}

/// Whether a link is not owned by git integration.
pub open spec fn manual_link(link: Seq<char>) -> bool {
    !integration_link(link)
}

/// True for links owned by git integration (branch, PR and commit markers and
/// PR URLs): these belong to a completion cycle and are snapshotted into
/// history on reopen. Manual links stay on the task.
pub fn is_integration_link(link: &str) -> (r: bool)
    ensures
        r == integration_link(link@),
{
    starts_with(link, "branch:") || starts_with(link, "pr:") || starts_with(link, "commit:")
        || contains_text(link, "/pulls/")
}

/// The links owned by git integration, in order.
pub open spec fn integration_links(links: Seq<Seq<char>>) -> Seq<Seq<char>> {
    links.filter(|l: Seq<char>| integration_link(l))
}

/// The manual links, in order.
pub open spec fn manual_links(links: Seq<Seq<char>>) -> Seq<Seq<char>> {
    links.filter(|l: Seq<char>| manual_link(l))
}

/// Parts links into those owned by git integration and the manual ones.
fn part_links(links: &Vec<String>) -> (r: (Vec<String>, Vec<String>))
    ensures
        text::texts(r.0@) == integration_links(text::texts(links@)),
        text::texts(r.1@) == manual_links(text::texts(links@)),
{
    let mut owned_links: Vec<String> = Vec::new();
    let mut manual: Vec<String> = Vec::new();
    let ghost all = text::texts(links@);
    let ghost yes = |l: Seq<char>| integration_link(l);
    let ghost no = |l: Seq<char>| manual_link(l);
    let mut i: usize = 0;
    assert(all.take(0) =~= Seq::empty());
    reveal(Seq::filter);
    while i < links.len()
        invariant
            i <= links.len(),
            all == text::texts(links@),
            yes == (|l: Seq<char>| integration_link(l)),
            no == (|l: Seq<char>| manual_link(l)),
            text::texts(owned_links@) == all.take(i as int).filter(yes),
            text::texts(manual@) == all.take(i as int).filter(no),
        decreases links.len() - i,
    {
        proof {
            text::lemma_filter_take(all, yes, i as int);
            text::lemma_filter_take(all, no, i as int);
        }
        let ghost before_owned = owned_links@;
        let ghost before_manual = manual@;
        if is_integration_link(links[i].as_str()) {
            owned_links.push(links[i].clone());
            assert(text::texts(owned_links@) =~= text::texts(before_owned).push(all[i as int]));
        } else {
            manual.push(links[i].clone());
            assert(text::texts(manual@) =~= text::texts(before_manual).push(all[i as int]));
        }
        i += 1;
    }
    assert(all.take(i as int) =~= all);
    (owned_links, manual)
}

/// The timestamps that one transition records.
#[derive(Debug)]
pub struct Times {
    /// Start or completion of the cycle.
    pub cycle: String,
    /// When the lifecycle event happened.
    pub event: String,
    /// When the task was last changed.
    pub updated: String,
}

/// What [`Times`] holds.
pub struct TimesView {
    pub cycle: Seq<char>,
    pub event: Seq<char>,
    pub updated: Seq<char>,
}

/// Whether the timestamps of a transition are as the clock gives them.
pub open spec fn stamped(t: TimesView) -> bool {
    clock::is_stamp(t.cycle) && clock::is_stamp(t.event) && clock::is_stamp(t.updated)
}

impl View for Times {
    type V = TimesView;

    open spec fn view(&self) -> TimesView {
        TimesView { cycle: self.cycle@, event: self.event@, updated: self.updated@ }
    }
}

impl Times {
    /// The timestamps of a transition that happens now, each with its offset.
    pub fn now() -> (r: Times)
        ensures
            stamped(r@),
    {
        Times { cycle: now_ts(), event: now_ts(), updated: now_ts() }
    }

    /// The timestamps of a transition that happens entirely at `at`.
    pub fn all_at(at: &str) -> (r: Times)
        ensures
            r@ == (TimesView { cycle: at@, event: at@, updated: at@ }),
    {
        Times { cycle: owned(at), event: owned(at), updated: owned(at) }
    }
}

/// Whether a task carries completion evidence: a nonblank result and a
/// nonblank validation.
pub open spec fn has_evidence(t: TaskView) -> bool {
    !text::opt_blank(t.report_result) && !text::opt_blank(t.report_validation)
}

/// Why an action is refused on a task, if it is.
pub open spec fn refusal(t: TaskView, action: TaskAction, reason: Option<Seq<char>>) -> Option<
    Seq<char>,
> {
    match action {
        TaskAction::Block => if t.status == TaskStatus::Closed || t.status
            == TaskStatus::Cancelled {
            Some("cannot block a "@ + status_name(t.status) + " task"@)
        } else {
            None
        },
        TaskAction::Unblock => if !t.blocked {
            Some("task is not blocked"@)
        } else {
            None
        },
        TaskAction::Cancel => if t.status == TaskStatus::Closed {
            Some("cannot cancel a closed task"@)
        } else {
            None
        },
        TaskAction::Reopen => if t.status == TaskStatus::Closed {
            if text::opt_blank(reason) {
                Some(
                    "reopening a closed task requires a nonblank reason (e.g. --reason \"review fix\")"@,
                )
            } else {
                None
            }
        } else if t.status == TaskStatus::Cancelled {
            None
        } else {
            Some(
                "only a closed or cancelled task can be reopened (current: "@ + status_name(
                    t.status,
                ) + ")"@,
            )
        },
        TaskAction::Start => if t.blocked {
            Some(blocked_refusal())
        } else if t.status != TaskStatus::Open {
            Some("cannot start a "@ + status_name(t.status) + " task (must be open)"@)
        } else {
            None
        },
        TaskAction::Review => if t.blocked {
            Some(blocked_refusal())
        } else if t.status != TaskStatus::Started {
            Some("cannot review a "@ + status_name(t.status) + " task (must be started)"@)
        } else {
            None
        },
        TaskAction::Done => if t.blocked {
            Some(blocked_refusal())
        } else if t.status != TaskStatus::Review {
            Some("cannot close a "@ + status_name(t.status) + " task (must be in review)"@)
        } else if !has_evidence(t) {
            Some(
                "closing requires completion evidence: set a nonblank report result and validation first (e.g. `jay task complete <id> --report-file <json>`)"@,
            )
        } else {
            None
        },
        TaskAction::Rewind => if t.blocked {
            Some(blocked_refusal())
        } else if t.status == TaskStatus::Review || t.status == TaskStatus::Started {
            None
        } else {
            Some("cannot rewind a "@ + status_name(t.status) + " task"@)
        },
    }
}

/// Why a blocked task does not move.
pub open spec fn blocked_refusal() -> Seq<char> {
    "task is blocked — unblock it first"@
}

/// Whether a task carries anything of a completion cycle worth preserving.
pub open spec fn had_cycle(t: TaskView) -> bool {
    ||| t.done_at is Some
    ||| t.report_result is Some
    ||| t.report_validation is Some
    ||| integration_links(t.links).len() > 0
}

/// The report of a task's current cycle, as history keeps it.
pub open spec fn cycle_snapshot(t: TaskView) -> ReportSnapshotView {
    ReportSnapshotView {
        result: t.report_result,
        validation: t.report_validation,
        problems: t.report_problems,
        ideas: t.report_ideas,
        decisions: t.report_decisions,
        links: integration_links(t.links),
    }
}

/// The event that records a move of `t` to the status `to`.
pub open spec fn move_event(
    t: TaskView,
    to: TaskStatus,
    actor: Seq<char>,
    reason: Option<Seq<char>>,
    at: Seq<char>,
) -> LifecycleEventView {
    LifecycleEventView {
        at,
        actor,
        from: Some(t.status),
        to,
        reason,
        prior_done_at: None,
        prior_report: None,
    }
}

/// The task after an action that is not refused, apart from its last writer
/// and its last change.
pub open spec fn moved(
    t: TaskView,
    action: TaskAction,
    actor: Seq<char>,
    reason: Option<Seq<char>>,
    times: TimesView,
) -> TaskView {
    match action {
        TaskAction::Block => TaskView { blocked: true, block_reason: reason, ..t },
        TaskAction::Unblock => TaskView { blocked: false, block_reason: None, ..t },
        TaskAction::Cancel => TaskView {
            status: TaskStatus::Cancelled,
            blocked: false,
            block_reason: None,
            history: t.history.push(
                move_event(t, TaskStatus::Cancelled, actor, reason, times.event),
            ),
            ..t
        },
        TaskAction::Reopen => TaskView {
            status: TaskStatus::Open,
            blocked: false,
            block_reason: None,
            links: manual_links(t.links),
            report_result: None,
            report_validation: None,
            started_at: None,
            done_at: None,
            history: t.history.push(
                LifecycleEventView {
                    prior_done_at: t.done_at,
                    prior_report: if had_cycle(t) {
                        Some(cycle_snapshot(t))
                    } else {
                        None
                    },
                    ..move_event(t, TaskStatus::Open, actor, reason, times.event)
                },
            ),
            ..t
        },
        TaskAction::Start => TaskView {
            status: TaskStatus::Started,
            started_at: if t.started_at is None {
                Some(times.cycle)
            } else {
                t.started_at
            },
            history: t.history.push(
                move_event(t, TaskStatus::Started, actor, reason, times.event),
            ),
            ..t
        },
        TaskAction::Review => TaskView {
            status: TaskStatus::Review,
            history: t.history.push(move_event(t, TaskStatus::Review, actor, reason, times.event)),
            ..t
        },
        TaskAction::Done => TaskView {
            status: TaskStatus::Closed,
            done_at: Some(times.cycle),
            history: t.history.push(move_event(t, TaskStatus::Closed, actor, reason, times.event)),
            ..t
        },
        TaskAction::Rewind => {
            let to = if t.status == TaskStatus::Review {
                TaskStatus::Started
            } else {
                TaskStatus::Open
            };
            TaskView {
                status: to,
                history: t.history.push(move_event(t, to, actor, reason, times.event)),
                ..t
            }
        },
    }
}

/// The task after an action that is not refused.
pub open spec fn applied(
    t: TaskView,
    action: TaskAction,
    actor: Seq<char>,
    reason: Option<Seq<char>>,
    times: TimesView,
) -> TaskView {
    TaskView {
        actor: Some(actor),
        updated_at: times.updated,
        ..moved(t, action, actor, reason, times)
    }
}

/// What applying an action to `before` gives: `after` and either nothing or a
/// message.
pub open spec fn apply_outcome(
    before: TaskView,
    action: TaskAction,
    actor: Seq<char>,
    reason: Option<Seq<char>>,
    times: TimesView,
    after: TaskView,
    r: Result<(), Error>,
) -> bool {
    match r {
        Ok(_) => refusal(before, action, reason) is None && after == applied(
            before,
            action,
            actor,
            reason,
            times,
        ),
        Err(e) => refusal(before, action, reason) == Some(e@) && after == before,
    }
}

impl Task {
    /// Creates a fresh task with default fields; `created_at` and
    /// `updated_at` are `now`.
    pub fn new_at(id: i64, title: String, description: String, now: &str) -> (r: Task)
        ensures
            r@ == fresh_task(id, title@, description@, now@),
    {
        let t = Task {
            id,
            title,
            description,
            status: TaskStatus::Open,
            blocked: false,
            block_reason: None,
            acceptance: Vec::new(),
            context: String::new(),
            assignee: None,
            priority: Priority::Medium,
            labels: Vec::new(),
            estimate_points: None,
            estimate_hours: None,
            deadline: None,
            links: Vec::new(),
            parent_id: None,
            epic_id: None,
            milestone_id: None,
            depends_on: Vec::new(),
            report_result: None,
            report_problems: Vec::new(),
            report_ideas: Vec::new(),
            report_decisions: Vec::new(),
            report_validation: None,
            created_at: owned(now),
            started_at: None,
            done_at: None,
            follow_up_of: None,
            actor: None,
            updated_at: owned(now),
            git_diagnostics: Vec::new(),
            history: Vec::new(),
        };
        assert(t@ =~= fresh_task(id, title@, description@, now@));
        t
    }

    /// Creates a fresh task with default fields; `created_at` and
    /// `updated_at` are set to now.
    pub fn new(id: i64, title: String, description: String) -> (r: Task)
        ensures
            exists|now: Seq<char>|
                clock::is_stamp(now) && r@ == #[trigger] fresh_task(id, title@, description@, now),
    {
        let now = now_ts();
        Task::new_at(id, title, description, now.as_str())
    }

    fn push_event(
        &mut self,
        from: TaskStatus,
        to: TaskStatus,
        ctx: &LifecycleCtx,
        at: &str,
        prior_done_at: Option<String>,
        prior_report: Option<ReportSnapshot>,
    )
        ensures
            final(self)@ == (TaskView {
                history: old(self)@.history.push(
                    LifecycleEventView {
                        at: at@,
                        actor: ctx.actor@,
                        from: Some(from),
                        to,
                        reason: text::opt_text(ctx.reason),
                        prior_done_at: text::opt_text(prior_done_at),
                        prior_report: opt_snapshot(prior_report),
                    },
                ),
                ..old(self)@
            }),
    {
        let event = LifecycleEvent {
            at: owned(at),
            actor: ctx.actor.clone(),
            from: Some(from),
            to,
            reason: opt_clone(&ctx.reason),
            prior_done_at,
            prior_report,
        };
        let ghost before = self.history@;
        self.history.push(event);
        assert(events(self.history@) =~= events(before).push(event@));
    }

    /// Moves a closed or cancelled task back to open: the prior cycle goes
    /// to history and the active cycle is cleared, so that a new closure
    /// needs fresh evidence.
    fn reopen(&mut self, ctx: &LifecycleCtx, at: &str)
        ensures
            forall|times: TimesView| #![trigger moved(old(self)@, TaskAction::Reopen, ctx.actor@, text::opt_text(ctx.reason), times)]
                times.event == at@ ==> final(self)@ == moved(
                    old(self)@,
                    TaskAction::Reopen,
                    ctx.actor@,
                    text::opt_text(ctx.reason),
                    times,
                ),
    {
        let ghost before = self@;
        let from = self.status;
        let (integration, manual) = part_links(&self.links);
        let had = self.done_at.is_some() || self.report_result.is_some()
            || self.report_validation.is_some() || integration.len() > 0;
        assert(integration.len() == integration_links(before.links).len());
        assert(had == had_cycle(before));
        let prior_report = if had {
            Some(
                ReportSnapshot {
                    result: opt_clone(&self.report_result),
                    validation: opt_clone(&self.report_validation),
                    problems: texts_clone(&self.report_problems),
                    ideas: texts_clone(&self.report_ideas),
                    decisions: texts_clone(&self.report_decisions),
                    links: integration,
                },
            )
        } else {
            None
        };
        let prior_done_at = opt_clone(&self.done_at);
        self.links = manual;
        self.report_result = None;
        self.report_validation = None;
        self.done_at = None;
        self.started_at = None;
        self.status = TaskStatus::Open;
        self.blocked = false;
        self.block_reason = None;
        self.push_event(from, TaskStatus::Open, ctx, at, prior_done_at, prior_report);
    }

    /// Applies a state-machine action in place, validating the transition,
    /// recording a lifecycle event (actor, timestamp, old and new state,
    /// reason) and updating lifecycle timestamps, which are given.
    /// A refused action changes nothing. Does not persist: the caller saves.
    pub fn apply_at(&mut self, action: TaskAction, ctx: &LifecycleCtx, times: &Times) -> (r: Result<
        (),
        Error,
    >)
        ensures
            apply_outcome(
                old(self)@,
                action,
                ctx.actor@,
                text::opt_text(ctx.reason),
                times@,
                final(self)@,
                r,
            ),
    {
        let ghost before = self@;
        let from = self.status;
        match action {
            TaskAction::Block => {
                if self.status == TaskStatus::Closed || self.status == TaskStatus::Cancelled {
                    return Err(
                        Error::new(cat3("cannot block a ", self.status.as_str(), " task")),
                    );
                }
                self.blocked = true;
                self.block_reason = opt_clone(&ctx.reason);
            },
            TaskAction::Unblock => {
                if !self.blocked {
                    return Err(Error::fixed("task is not blocked"));
                }
                self.blocked = false;
                self.block_reason = None;
            },
            TaskAction::Cancel => {
                if self.status == TaskStatus::Closed {
                    return Err(Error::fixed("cannot cancel a closed task"));
                }
                self.status = TaskStatus::Cancelled;
                self.blocked = false;
                self.block_reason = None;
                self.push_event(
                    from,
                    TaskStatus::Cancelled,
                    ctx,
                    times.event.as_str(),
                    None,
                    None,
                );
            },
            TaskAction::Reopen => {
                if self.status == TaskStatus::Closed {
                    if is_opt_blank(&ctx.reason) {
                        return Err(
                            Error::fixed(
                                "reopening a closed task requires a nonblank reason (e.g. --reason \"review fix\")",
                            ),
                        );
                    }
                } else if self.status != TaskStatus::Cancelled {
                    return Err(
                        Error::new(
                            cat3(
                                "only a closed or cancelled task can be reopened (current: ",
                                self.status.as_str(),
                                ")",
                            ),
                        ),
                    );
                }
                self.reopen(ctx, times.event.as_str());
                assert(self@ == moved(
                    before,
                    TaskAction::Reopen,
                    ctx.actor@,
                    text::opt_text(ctx.reason),
                    times@,
                ));
            },
            TaskAction::Start => {
                if self.blocked {
                    return Err(Error::fixed("task is blocked — unblock it first"));
                }
                if self.status != TaskStatus::Open {
                    return Err(
                        Error::new(
                            cat3("cannot start a ", self.status.as_str(), " task (must be open)"),
                        ),
                    );
                }
                self.status = TaskStatus::Started;
                if self.started_at.is_none() {
                    self.started_at = Some(times.cycle.clone());
                }
                self.push_event(from, TaskStatus::Started, ctx, times.event.as_str(), None, None);
            },
            TaskAction::Review => {
                if self.blocked {
                    return Err(Error::fixed("task is blocked — unblock it first"));
                }
                if self.status != TaskStatus::Started {
                    return Err(
                        Error::new(
                            cat3(
                                "cannot review a ",
                                self.status.as_str(),
                                " task (must be started)",
                            ),
                        ),
                    );
                }
                self.status = TaskStatus::Review;
                self.push_event(from, TaskStatus::Review, ctx, times.event.as_str(), None, None);
            },
            TaskAction::Done => {
                if self.blocked {
                    return Err(Error::fixed("task is blocked — unblock it first"));
                }
                if self.status != TaskStatus::Review {
                    return Err(
                        Error::new(
                            cat3(
                                "cannot close a ",
                                self.status.as_str(),
                                " task (must be in review)",
                            ),
                        ),
                    );
                }
                if is_opt_blank(&self.report_result) || is_opt_blank(&self.report_validation) {
                    return Err(
                        Error::fixed(
                            "closing requires completion evidence: set a nonblank report result and validation first (e.g. `jay task complete <id> --report-file <json>`)",
                        ),
                    );
                }
                self.status = TaskStatus::Closed;
                self.done_at = Some(times.cycle.clone());
                self.push_event(from, TaskStatus::Closed, ctx, times.event.as_str(), None, None);
            },
            TaskAction::Rewind => {
                if self.blocked {
                    return Err(Error::fixed("task is blocked — unblock it first"));
                }
                if self.status == TaskStatus::Review {
                    self.status = TaskStatus::Started;
                } else if self.status == TaskStatus::Started {
                    self.status = TaskStatus::Open;
                } else {
                    return Err(
                        Error::new(cat3("cannot rewind a ", self.status.as_str(), " task")),
                    );
                }
                let to = self.status;
                self.push_event(from, to, ctx, times.event.as_str(), None, None);
            },
        }
        assert(self@ == moved(before, action, ctx.actor@, text::opt_text(ctx.reason), times@));
        self.actor = Some(ctx.actor.clone());
        self.updated_at = times.updated.clone();
        Ok(())
    }

    /// Applies a state-machine action in place, as [`Task::apply_at`] does, at
    /// the current time.
    pub fn apply(&mut self, action: TaskAction, ctx: &LifecycleCtx) -> (r: Result<(), Error>)
        ensures
            exists|times: TimesView|
                stamped(times) && #[trigger] apply_outcome(
                    old(self)@,
                    action,
                    ctx.actor@,
                    text::opt_text(ctx.reason),
                    times,
                    final(self)@,
                    r,
                ),
    {
        let times = Times::now();
        self.apply_at(action, ctx, &times)
    }
}

/// A fresh task can be started and nothing else but cancelled or blocked.
pub proof fn law_fresh_task_starts(
    id: i64,
    title: Seq<char>,
    description: Seq<char>,
    now: Seq<char>,
    action: TaskAction,
    reason: Option<Seq<char>>,
)
    ensures
        refusal(fresh_task(id, title, description, now), action, reason) is None <==> (action
            == TaskAction::Start || action == TaskAction::Cancel || action == TaskAction::Block),
{
}

/// History is append-only: an action keeps every recorded event and adds
/// exactly one, which records the move from the old status to the new one;
/// setting or clearing the blocked flag adds none.
pub proof fn law_history_only_grows(
    t: TaskView,
    action: TaskAction,
    actor: Seq<char>,
    reason: Option<Seq<char>>,
    times: TimesView,
)
    requires
        refusal(t, action, reason) is None,
    ensures
        ({
            let after = applied(t, action, actor, reason, times);
            if action == TaskAction::Block || action == TaskAction::Unblock {
                after.history == t.history && after.status == t.status
            } else {
                &&& after.history.len() == t.history.len() + 1
                &&& after.history.drop_last() == t.history
                &&& after.history.last().from == Some(t.status)
                &&& after.history.last().to == after.status
                &&& after.history.last().actor == actor
                &&& after.history.last().reason == reason
                &&& after.history.last().at == times.event
            }
        }),
{
    let after = applied(t, action, actor, reason, times);
    if action != TaskAction::Block && action != TaskAction::Unblock {
        assert(after.history.drop_last() =~= t.history);
    }
}

/// Whether a closed task carries its completion evidence and timestamp.
pub open spec fn closed_is_backed(t: TaskView) -> bool {
    t.status == TaskStatus::Closed ==> has_evidence(t) && t.done_at is Some
}

/// A task is only ever closed with completion evidence and a completion
/// timestamp: fresh tasks are not closed, and every action keeps this.
pub proof fn law_closed_is_backed(
    t: TaskView,
    action: TaskAction,
    actor: Seq<char>,
    reason: Option<Seq<char>>,
    times: TimesView,
)
    requires
        closed_is_backed(t),
        refusal(t, action, reason) is None,
    ensures
        closed_is_backed(applied(t, action, actor, reason, times)),
        applied(t, action, actor, reason, times).status == TaskStatus::Closed ==> t.status
            == TaskStatus::Closed || action == TaskAction::Done && t.status == TaskStatus::Review,
        closed_is_backed(fresh_task(t.id, t.title, t.description, t.created_at)),
{
}

/// Closed is terminal: nothing but a reopening with a nonblank reason, or
/// clearing the blocked flag, is accepted on a closed task.
pub proof fn law_closed_is_terminal(t: TaskView, action: TaskAction, reason: Option<Seq<char>>)
    requires
        t.status == TaskStatus::Closed,
        action != TaskAction::Unblock,
    ensures
        refusal(t, action, reason) is None <==> action == TaskAction::Reopen && !text::opt_blank(
            reason,
        ),
{
}

/// A blocked task neither advances nor rewinds.
pub proof fn law_blocked_stays(t: TaskView, action: TaskAction, reason: Option<Seq<char>>)
    requires
        t.blocked,
        action == TaskAction::Start || action == TaskAction::Review || action == TaskAction::Done
            || action == TaskAction::Rewind,
    ensures
        refusal(t, action, reason) == Some(blocked_refusal()),
{
}

/// Reopening preserves the prior cycle in history and clears the active one:
/// the completion timestamp, the report and the integration links move to the
/// recorded event, manual links and the other report sections stay.
pub proof fn law_reopen_preserves_cycle(
    t: TaskView,
    actor: Seq<char>,
    reason: Option<Seq<char>>,
    times: TimesView,
)
    requires
        refusal(t, TaskAction::Reopen, reason) is None,
        t.done_at is Some,
    ensures
        ({
            let after = applied(t, TaskAction::Reopen, actor, reason, times);
            let event = after.history.last();
            &&& after.status == TaskStatus::Open
            &&& event.prior_done_at == t.done_at
            &&& event.prior_report == Some(cycle_snapshot(t))
            &&& after.done_at is None
            &&& after.started_at is None
            &&& after.report_result is None
            &&& after.report_validation is None
            &&& after.report_problems == t.report_problems
            &&& after.report_ideas == t.report_ideas
            &&& after.report_decisions == t.report_decisions
            &&& after.links.to_multiset().add(cycle_snapshot(t).links.to_multiset())
                == t.links.to_multiset()
        }),
{
    lemma_links_parted(t.links);
}

proof fn lemma_links_parted(links: Seq<Seq<char>>)
    ensures
        manual_links(links).to_multiset().add(integration_links(links).to_multiset())
            == links.to_multiset(),
    decreases links.len(),
{
    reveal(Seq::filter);
    broadcast use vstd::seq_lib::group_to_multiset_ensures;

    if links.len() == 0 {
        assert(links.to_multiset() =~= vstd::multiset::Multiset::empty());
        assert(manual_links(links) =~= Seq::empty());
        assert(integration_links(links) =~= Seq::empty());
        assert(manual_links(links).to_multiset() =~= vstd::multiset::Multiset::empty());
        assert(integration_links(links).to_multiset() =~= vstd::multiset::Multiset::empty());
    } else {
        let rest = links.drop_last();
        let l = links.last();
        lemma_links_parted(rest);
        assert(links =~= rest.push(l));
        assert(links.to_multiset() =~= rest.to_multiset().insert(l));
        if integration_link(l) {
            assert(integration_links(links) == integration_links(rest).push(l));
            assert(manual_links(links) == manual_links(rest));
        } else {
            assert(integration_links(links) == integration_links(rest));
            assert(manual_links(links) == manual_links(rest).push(l));
        }
        assert(manual_links(links).to_multiset().add(integration_links(links).to_multiset())
            =~= links.to_multiset());
    }
}

/// After a reopening, the old evidence does not close the task again: started
/// and reviewed once more, it is refused until a new result and validation
/// are recorded.
pub proof fn law_reopen_needs_fresh_evidence(
    t: TaskView,
    actor: Seq<char>,
    reason: Option<Seq<char>>,
    again: Option<Seq<char>>,
    times: TimesView,
)
    requires
        refusal(t, TaskAction::Reopen, reason) is None,
    ensures
        ({
            let open = applied(t, TaskAction::Reopen, actor, reason, times);
            let started = applied(open, TaskAction::Start, actor, again, times);
            let review = applied(started, TaskAction::Review, actor, again, times);
            &&& refusal(open, TaskAction::Start, again) is None
            &&& refusal(started, TaskAction::Review, again) is None
            &&& refusal(review, TaskAction::Done, again) is Some
            &&& forall|result: Seq<char>, validation: Seq<char>|
                !text::blank(result) && !text::blank(validation) ==> refusal(
                    #[trigger] with_evidence(review, result, validation),
                    TaskAction::Done,
                    again,
                ) is None
        }),
{
}

/// `t` with a result and a validation.
pub open spec fn with_evidence(t: TaskView, result: Seq<char>, validation: Seq<char>) -> TaskView {
    TaskView { report_result: Some(result), report_validation: Some(validation), ..t }
}

/// Rewinding undoes a start or a review, but for what history and the
/// timestamps record.
pub proof fn law_rewind_steps_back(
    t: TaskView,
    action: TaskAction,
    actor: Seq<char>,
    reason: Option<Seq<char>>,
    times: TimesView,
)
    requires
        action == TaskAction::Start || action == TaskAction::Review,
        refusal(t, action, reason) is None,
    ensures
        ({
            let there = applied(t, action, actor, reason, times);
            let back = applied(there, TaskAction::Rewind, actor, reason, times);
            &&& refusal(there, TaskAction::Rewind, reason) is None
            &&& back == (TaskView {
                started_at: back.started_at,
                actor: back.actor,
                updated_at: back.updated_at,
                history: back.history,
                ..t
            })
        }),
{
}

/// Unblocking undoes blocking, but for the last writer and the last change.
pub proof fn law_unblock_undoes_block(
    t: TaskView,
    actor: Seq<char>,
    reason: Option<Seq<char>>,
    times: TimesView,
)
    requires
        refusal(t, TaskAction::Block, reason) is None,
        !t.blocked,
        t.block_reason is None,
    ensures
        ({
            let there = applied(t, TaskAction::Block, actor, reason, times);
            let back = applied(there, TaskAction::Unblock, actor, None, times);
            &&& refusal(there, TaskAction::Unblock, None) is None
            &&& back == (TaskView { actor: back.actor, updated_at: back.updated_at, ..t })
        }),
{
}

/// An action changes nothing but the lifecycle: identity, contract, planning
/// fields and the descriptive report sections stay as they are.
pub proof fn law_apply_keeps_contract(
    t: TaskView,
    action: TaskAction,
    actor: Seq<char>,
    reason: Option<Seq<char>>,
    times: TimesView,
)
    ensures
        ({
            let after = applied(t, action, actor, reason, times);
            after == (TaskView {
                status: after.status,
                blocked: after.blocked,
                block_reason: after.block_reason,
                links: after.links,
                report_result: after.report_result,
                report_validation: after.report_validation,
                started_at: after.started_at,
                done_at: after.done_at,
                actor: Some(actor),
                updated_at: times.updated,
                history: after.history,
                ..t
            })
        }),
{
}

/// Kind of knowledge base entry.
#[derive(Debug, Clone, Copy, PartialEq, Eq, Structural)]
pub enum KnowledgeKind {
    /// Architecture Decision Record: why we chose X over Y.
    Decision,
    /// Current project state, blockers, next steps.
    Status,
    /// Implementation notes, architecture details, things to remember.
    Note,
}

/// The text form of a kind.
pub open spec fn kind_name(k: KnowledgeKind) -> Seq<char> {
    match k {
        KnowledgeKind::Decision => "decision"@,
        KnowledgeKind::Status => "status"@,
        KnowledgeKind::Note => "note"@,
    }
}

/// The name of the file that holds the entries of a kind.
pub open spec fn kind_file(k: KnowledgeKind) -> Seq<char> {
    match k {
        KnowledgeKind::Decision => "decisions.toml"@,
        KnowledgeKind::Status => "status.toml"@,
        KnowledgeKind::Note => "notes.toml"@,
    }
}

/// The kind that a text names, surrounding white space aside.
pub open spec fn kind_of(text: Seq<char>) -> Option<KnowledgeKind> {
    let s = text::trim(text);
    if s == "decision"@ || s == "decisions"@ {
        Some(KnowledgeKind::Decision)
    } else if s == "status"@ {
        Some(KnowledgeKind::Status)
    } else if s == "note"@ || s == "notes"@ {
        Some(KnowledgeKind::Note)
    } else {
        None
    }
}

impl KnowledgeKind {
    /// All kinds, in the order in which they are read.
    pub const ALL: [KnowledgeKind; 3] = [
        KnowledgeKind::Decision,
        KnowledgeKind::Status,
        KnowledgeKind::Note,
    ];

    /// The text form of the kind.
    pub fn as_str(self) -> (r: &'static str)
        ensures
            r@ == kind_name(self),
    {
        match self {
            KnowledgeKind::Decision => "decision",
            KnowledgeKind::Status => "status",
            KnowledgeKind::Note => "note",
        }
    }

    /// The TOML file name inside `.nest/kb/`.
    pub fn filename(self) -> (r: &'static str)
        ensures
            r@ == kind_file(self),
    {
        match self {
            KnowledgeKind::Decision => "decisions.toml",
            KnowledgeKind::Status => "status.toml",
            KnowledgeKind::Note => "notes.toml",
        }
    }

    /// The kind that `s` names.
    pub fn parse(s: &str) -> (r: Result<KnowledgeKind, Error>)
        ensures
            match r {
                Ok(k) => kind_of(s@) == Some(k),
                Err(e) => kind_of(s@) is None && e@ == "unknown knowledge kind: "@ + text::trim(s@)
                    + " (use decision|status|note)"@,
            },
    {
        let t = trimmed(s);
        let t: &str = t.as_str();
        if same(t, "decision") || same(t, "decisions") {
            Ok(KnowledgeKind::Decision)
        } else if same(t, "status") {
            Ok(KnowledgeKind::Status)
        } else if same(t, "note") || same(t, "notes") {
            Ok(KnowledgeKind::Note)
        } else {
            Err(
                Error::new(cat3("unknown knowledge kind: ", t, " (use decision|status|note)")),
            )
        }
    }
}

impl std::str::FromStr for KnowledgeKind {
    type Err = Error;

    fn from_str(s: &str) -> (r: Result<KnowledgeKind, Error>)
        ensures
            match r {
                Ok(k) => kind_of(s@) == Some(k),
                Err(e) => kind_of(s@) is None && e@ == "unknown knowledge kind: "@ + text::trim(s@)
                    + " (use decision|status|note)"@,
            },
    {
        KnowledgeKind::parse(s)
    }
}

/// Each kind has a file of its own, so saving one leaves the others alone.
pub proof fn law_kinds_have_their_own_files(a: KnowledgeKind, b: KnowledgeKind)
    ensures
        kind_file(a) == kind_file(b) ==> a == b,
{
    reveal_strlit("decisions.toml");
    reveal_strlit("status.toml");
    reveal_strlit("notes.toml");
    assert("decisions.toml"@.len() == 14 && "status.toml"@.len() == 11 && "notes.toml"@.len()
        == 10);
}

/// Every kind is read back from its text form.
pub proof fn law_kind_name_reads_back(k: KnowledgeKind)
    ensures
        kind_of(kind_name(k)) == Some(k),
{
    reveal_strlit("decision");
    reveal_strlit("decisions");
    reveal_strlit("status");
    reveal_strlit("note");
    reveal_strlit("notes");
    assert("decision"@.len() == 8 && "decisions"@.len() == 9 && "status"@.len() == 6);
    assert("note"@.len() == 4 && "notes"@.len() == 5);
    text::lemma_trim_tight(kind_name(k));
}

/// A knowledge base entry: project-scoped context that agents and humans
/// query on demand instead of reading a monolithic handoff file.
#[derive(Debug)]
pub struct KnowledgeEntry {
    pub id: i64,
    pub kind: KnowledgeKind,
    pub title: String,
    pub content: String,
    pub tags: Vec<String>,
    pub related_task: Option<i64>,
    /// Explicit supersession references (mainly status entries): the ids this
    /// entry supersedes. Superseded text is preserved, never rewritten.
    pub supersedes: Vec<i64>,
    /// Optional Git commit reference recorded with the entry.
    pub commit: Option<String>,
    pub actor: Option<String>,
    pub created_at: String,
    pub updated_at: String,
}

/// What a [`KnowledgeEntry`] holds.
#[verifier::ext_equal]
pub struct KnowledgeEntryView {
    pub id: i64,
    pub kind: KnowledgeKind,
    pub title: Seq<char>,
    pub content: Seq<char>,
    pub tags: Seq<Seq<char>>,
    pub related_task: Option<i64>,
    pub supersedes: Seq<i64>,
    pub commit: Option<Seq<char>>,
    pub actor: Option<Seq<char>>,
    pub created_at: Seq<char>,
    pub updated_at: Seq<char>,
}

impl View for KnowledgeEntry {
    type V = KnowledgeEntryView;

    open spec fn view(&self) -> KnowledgeEntryView {
        KnowledgeEntryView {
            id: self.id,
            kind: self.kind,
            title: self.title@,
            content: self.content@,
            tags: text::texts(self.tags@),
            related_task: self.related_task,
            supersedes: self.supersedes@,
            commit: text::opt_text(self.commit),
            actor: text::opt_text(self.actor),
            created_at: self.created_at@,
            updated_at: self.updated_at@,
        }
    }
}

impl Clone for KnowledgeEntry {
    fn clone(&self) -> (r: KnowledgeEntry)
        ensures
            r@ == self@,
    {
        KnowledgeEntry {
            id: self.id,
            kind: self.kind,
            title: self.title.clone(),
            content: self.content.clone(),
            tags: texts_clone(&self.tags),
            related_task: self.related_task,
            supersedes: ids_clone(&self.supersedes),
            commit: opt_clone(&self.commit),
            actor: opt_clone(&self.actor),
            created_at: self.created_at.clone(),
            updated_at: self.updated_at.clone(),
        }
    }
}

/// What a list of entries holds.
pub open spec fn entries(v: Seq<KnowledgeEntry>) -> Seq<KnowledgeEntryView> {
    v.map_values(|e: KnowledgeEntry| e@)
}

/// A fresh entry, created at `now`.
pub open spec fn fresh_entry(
    id: i64,
    kind: KnowledgeKind,
    title: Seq<char>,
    content: Seq<char>,
    now: Seq<char>,
) -> KnowledgeEntryView {
    KnowledgeEntryView {
        id,
        kind,
        title,
        content,
        tags: Seq::empty(),
        related_task: None,
        supersedes: Seq::empty(),
        commit: None,
        actor: None,
        created_at: now,
        updated_at: now,
    }
}

impl KnowledgeEntry {
    /// Creates a fresh entry whose timestamps are `now`.
    pub fn new_at(id: i64, kind: KnowledgeKind, title: String, content: String, now: &str) -> (r:
        KnowledgeEntry)
        ensures
            r@ == fresh_entry(id, kind, title@, content@, now@),
    {
        let e = KnowledgeEntry {
            id,
            kind,
            title,
            content,
            tags: Vec::new(),
            related_task: None,
            supersedes: Vec::new(),
            commit: None,
            actor: None,
            created_at: owned(now),
            updated_at: owned(now),
        };
        assert(e@ =~= fresh_entry(id, kind, title@, content@, now@));
        e
    }

    /// Creates a fresh entry whose timestamps are set to now.
    pub fn new(id: i64, kind: KnowledgeKind, title: String, content: String) -> (r: KnowledgeEntry)
        ensures
            exists|now: Seq<char>|
                clock::is_stamp(now) && r@ == #[trigger] fresh_entry(id, kind, title@, content@, now),
    {
        let now = now_ts();
        KnowledgeEntry::new_at(id, kind, title, content, now.as_str())
    }
}

/// A milestone (release or version, e.g. v1.0) that groups tasks.
#[derive(Debug)]
pub struct Milestone {
    pub id: i64,
    pub name: String,
    pub target_date: Option<String>,
    pub done_at: Option<String>,
    pub created_at: String,
}

/// What a [`Milestone`] holds.
#[verifier::ext_equal]
pub struct MilestoneView {
    pub id: i64,
    pub name: Seq<char>,
    pub target_date: Option<Seq<char>>,
    pub done_at: Option<Seq<char>>,
    pub created_at: Seq<char>,
}

impl View for Milestone {
    type V = MilestoneView;

    open spec fn view(&self) -> MilestoneView {
        MilestoneView {
            id: self.id,
            name: self.name@,
            target_date: text::opt_text(self.target_date),
            done_at: text::opt_text(self.done_at),
            created_at: self.created_at@,
        }
    }
}

impl Clone for Milestone {
    fn clone(&self) -> (r: Milestone)
        ensures
            r@ == self@,
    {
        Milestone {
            id: self.id,
            name: self.name.clone(),
            target_date: opt_clone(&self.target_date),
            done_at: opt_clone(&self.done_at),
            created_at: self.created_at.clone(),
        }
    }
}

/// What a list of milestones holds.
pub open spec fn milestones(v: Seq<Milestone>) -> Seq<MilestoneView> {
    v.map_values(|m: Milestone| m@)
}

/// The state machine, action by action: when each is accepted, and where it leads.
pub proof fn law_transitions(
    t: TaskView,
    action: TaskAction,
    actor: Seq<char>,
    reason: Option<Seq<char>>,
    times: TimesView,
)
    ensures
        ({
            let accepted = refusal(t, action, reason) is None;
            let to = applied(t, action, actor, reason, times).status;
            match action {
                TaskAction::Start => {
                    &&& accepted <==> t.status == TaskStatus::Open && !t.blocked
                    &&& accepted ==> to == TaskStatus::Started
                },
                TaskAction::Review => {
                    &&& accepted <==> t.status == TaskStatus::Started && !t.blocked
                    &&& accepted ==> to == TaskStatus::Review
                },
                TaskAction::Done => {
                    &&& accepted <==> {
                        &&& t.status == TaskStatus::Review && !t.blocked
                        &&& t.report_result matches Some(s) && exists|i: int|
                            0 <= i < s.len() && !text::is_space(#[trigger] s[i])
                        &&& t.report_validation matches Some(s) && exists|i: int|
                            0 <= i < s.len() && !text::is_space(#[trigger] s[i])
                    }
                    &&& accepted ==> to == TaskStatus::Closed
                },
                TaskAction::Rewind => {
                    &&& accepted <==> !t.blocked && (t.status == TaskStatus::Review || t.status
                        == TaskStatus::Started)
                    &&& accepted && t.status == TaskStatus::Review ==> to == TaskStatus::Started
                    &&& accepted && t.status == TaskStatus::Started ==> to == TaskStatus::Open
                },
                TaskAction::Cancel => {
                    &&& accepted <==> t.status != TaskStatus::Closed
                    &&& accepted ==> to == TaskStatus::Cancelled
                },
                TaskAction::Reopen => {
                    &&& accepted <==> t.status == TaskStatus::Cancelled || t.status
                        == TaskStatus::Closed && (reason matches Some(s) && exists|i: int|
                        0 <= i < s.len() && !text::is_space(#[trigger] s[i]))
                    &&& accepted ==> to == TaskStatus::Open
                },
                TaskAction::Block => {
                    &&& accepted <==> t.status != TaskStatus::Closed && t.status
                        != TaskStatus::Cancelled
                    &&& accepted ==> to == t.status
                },
                TaskAction::Unblock => {
                    &&& accepted <==> t.blocked
                    &&& accepted ==> to == t.status
                },
            }
        }),
{
}

/// What an action writes and what it leaves alone: the blocked flag and its
/// reason, the timestamps of the cycle, the links and the report.
pub proof fn law_actions_write_their_fields(
    t: TaskView,
    action: TaskAction,
    actor: Seq<char>,
    reason: Option<Seq<char>>,
    times: TimesView,
)
    requires
        refusal(t, action, reason) is None,
    ensures
        ({
            let after = applied(t, action, actor, reason, times);
            let clears = action == TaskAction::Unblock || action == TaskAction::Cancel || action
                == TaskAction::Reopen;
            &&& action == TaskAction::Block ==> after.blocked && after.block_reason == reason
            &&& clears ==> !after.blocked && after.block_reason is None
            &&& action != TaskAction::Block && !clears ==> after.blocked == t.blocked
                && after.block_reason == t.block_reason
            &&& action == TaskAction::Start && t.started_at is None ==> after.started_at == Some(
                times.cycle,
            )
            &&& action == TaskAction::Start && t.started_at is Some ==> after.started_at
                == t.started_at
            &&& action == TaskAction::Reopen ==> after.started_at is None && after.done_at is None
                && after.report_result is None && after.report_validation is None
            &&& action != TaskAction::Start && action != TaskAction::Reopen ==> after.started_at
                == t.started_at
            &&& action == TaskAction::Done ==> after.done_at == Some(times.cycle)
            &&& action != TaskAction::Done && action != TaskAction::Reopen ==> after.done_at
                == t.done_at
            &&& action != TaskAction::Reopen ==> after.links == t.links && after.report_result
                == t.report_result && after.report_validation == t.report_validation
            &&& action != TaskAction::Reopen && action != TaskAction::Block && action
                != TaskAction::Unblock ==> after.history.last().prior_done_at is None
                && after.history.last().prior_report is None
            &&& after.actor == Some(actor)
            &&& after.updated_at == times.updated
        }),
{
}

/// Reopening, of a closed or a cancelled task and whatever else it carries,
/// leaves exactly the links that no integration owns, in order, and moves the
/// others to history, in order, with the report and the completion time. Nothing
/// is recorded of a task without any of these.
pub proof fn law_reopen_keeps_manual_links(
    t: TaskView,
    actor: Seq<char>,
    reason: Option<Seq<char>>,
    times: TimesView,
)
    requires
        refusal(t, TaskAction::Reopen, reason) is None,
    ensures
        ({
            let after = applied(t, TaskAction::Reopen, actor, reason, times);
            let event = after.history.last();
            let owned = |l: Seq<char>|
                "branch:"@.is_prefix_of(l) || "pr:"@.is_prefix_of(l) || "commit:"@.is_prefix_of(l)
                    || exists|a: Seq<char>, b: Seq<char>| l == #[trigger] (a + "/pulls/"@ + b);
            let free = |l: Seq<char>| !owned(l);
            &&& after.links == t.links.filter(free)
            &&& event.prior_done_at == t.done_at
            &&& match event.prior_report {
                Some(s) => {
                    &&& s.result == t.report_result
                    &&& s.validation == t.report_validation
                    &&& s.problems == t.report_problems
                    &&& s.ideas == t.report_ideas
                    &&& s.decisions == t.report_decisions
                    &&& s.links == t.links.filter(owned)
                    &&& t.done_at is Some || t.report_result is Some || t.report_validation is Some
                        || t.links.filter(owned).len() > 0
                },
                None => {
                    &&& t.done_at is None && t.report_result is None && t.report_validation is None
                    &&& t.links.filter(owned).len() == 0
                },
            }
        }),
{
    let owned = |l: Seq<char>|
        "branch:"@.is_prefix_of(l) || "pr:"@.is_prefix_of(l) || "commit:"@.is_prefix_of(l)
            || exists|a: Seq<char>, b: Seq<char>| l == #[trigger] (a + "/pulls/"@ + b);
    let free = |l: Seq<char>| !owned(l);
    let yes = |l: Seq<char>| integration_link(l);
    let no = |l: Seq<char>| manual_link(l);
    assert forall|l: Seq<char>| #[trigger] owned(l) == yes(l) by {
        text::law_begins(l, "branch:"@);
        text::law_begins(l, "pr:"@);
        text::law_begins(l, "commit:"@);
        text::law_has_text(l, "/pulls/"@);
    }
    text::lemma_filter_same(t.links, owned, yes);
    text::lemma_filter_same(t.links, free, no);
}

} // verus!
