//! Project diagnostics (doctor) and explicit repair.
//!
//! Every config, task, milestone and KB file is inspected independently:
//! a malformed file never hides findings in later files. Findings carry a
//! file, optional field, severity, a stable code and a suggested action.
//! Repair is explicit (dry run by default), preserves unknown and user data by
//! operating on raw documents, backs up before applying and is idempotent.
//!
//! Policy: legacy naive timestamps (`YYYY-MM-DDTHH:MM:SS`) are retained and
//! never compared against offset-bearing ones; empty problems, ideas and
//! decisions are valid; missing completion evidence is never fabricated.
use vstd::prelude::*;

use crate::clock;
use crate::clock::{is_earlier, now_as, read_naive, read_rfc3339, Instant, STAMP_FORMAT};
use crate::doc;
use crate::doc::{
    copy, put_field, read_doc, remove_field, write_doc, Doc, DocView, Field, FieldView,
};
use crate::error::Error;
use crate::graph;
use crate::graph::{find_cycles, holds, Node};
use crate::knowledge;
use crate::knowledge::{supersession_cycle, EntriesFile, EntriesFileView};
use crate::model;
use crate::model::{
    ids_clone, KnowledgeEntry, KnowledgeEntryView, KnowledgeKind, LifecycleEventView, Milestone,
    MilestoneView, Task, TaskStatus, TaskView,
};
use crate::order;
use crate::order::sort_texts;
use crate::project;
use crate::project::{join_path, GitIntegration, ProjectConfig};
use crate::text;
use crate::text::{
    cat, cat3, chars_of, equal_but_case, int_text, is_listed, is_opt_blank, join, natural_text, opt_clone, owned,
    parse_int, same, strip_suffix,
};

verus! {

/// Known (current-version) fields of a task record. Unknown keys are reported
/// but preserved: they may come from a newer version.
pub const KNOWN_TASK_FIELDS: [&'static str; 32] = [
    "id",
    "title",
    "description",
    "status",
    "blocked",
    "block_reason",
    "acceptance",
    "context",
    "assignee",
    "priority",
    "labels",
    "estimate_points",
    "estimate_hours",
    "deadline",
    "links",
    "parent_id",
    "epic_id",
    "milestone_id",
    "depends_on",
    "report_result",
    "report_problems",
    "report_ideas",
    "report_decisions",
    "report_validation",
    "created_at",
    "started_at",
    "done_at",
    "actor",
    "updated_at",
    "follow_up_of",
    "git_diagnostics",
    "history",
];

/// Legacy task fields recognized for explicit repair (not "unknown").
pub const LEGACY_TASK_FIELDS: [&'static str; 1] = ["closed_at"];

pub const KNOWN_CONFIG_FIELDS: [&'static str; 7] = [
    "name",
    "description",
    "goal",
    "git_repo",
    "branch_template",
    "git_integration",
    "links",
];

pub const KNOWN_KB_ENTRY_FIELDS: [&'static str; 11] = [
    "id",
    "kind",
    "title",
    "content",
    "tags",
    "related_task",
    "supersedes",
    "commit",
    "actor",
    "created_at",
    "updated_at",
];

pub const KNOWN_MILESTONE_FIELDS: [&'static str; 5] = [
    "id",
    "name",
    "target_date",
    "done_at",
    "created_at",
];

/// No legacy fields.
pub const NO_LEGACY_FIELDS: [&'static str; 0] = [];

/// How bad a finding is.
#[derive(Debug, Clone, Copy, PartialEq, Eq, Structural)]
pub enum Severity {
    Error,
    Warning,
}

/// The text form of a severity.
pub open spec fn severity_name(s: Severity) -> Seq<char> {
    match s {
        Severity::Error => "error"@,
        Severity::Warning => "warning"@,
    }
}

impl Severity {
    /// The text form of the severity.
    pub fn as_str(self) -> (r: &'static str)
        ensures
            r@ == severity_name(self),
    {
        match self {
            Severity::Error => "error",
            Severity::Warning => "warning",
        }
    }
}

/// One diagnostic finding.
#[derive(Debug)]
pub struct Finding {
    /// Path relative to the project root (e.g. `.nest/tasks/17.toml`).
    pub file: String,
    /// Field the finding refers to, when applicable.
    pub field: Option<String>,
    pub severity: Severity,
    /// Stable machine-readable code (e.g. `task.closed_missing_done_at`).
    pub code: &'static str,
    pub message: String,
    /// Suggested action.
    pub suggestion: String,
}

/// What a [`Finding`] holds.
#[verifier::ext_equal]
pub struct FindingView {
    pub file: Seq<char>,
    pub field: Option<Seq<char>>,
    pub severity: Severity,
    pub code: Seq<char>,
    pub message: Seq<char>,
    pub suggestion: Seq<char>,
}

impl View for Finding {
    type V = FindingView;

    open spec fn view(&self) -> FindingView {
        FindingView {
            file: self.file@,
            field: text::opt_text(self.field),
            severity: self.severity,
            code: self.code@,
            message: self.message@,
            suggestion: self.suggestion@,
        }
    }
}

impl Clone for Finding {
    fn clone(&self) -> (r: Finding)
        ensures
            r@ == self@,
    {
        Finding {
            file: self.file.clone(),
            field: opt_clone(&self.field),
            severity: self.severity,
            code: self.code,
            message: self.message.clone(),
            suggestion: self.suggestion.clone(),
        }
    }
}

/// What a list of findings holds.
pub open spec fn findings(v: Seq<Finding>) -> Seq<FindingView> {
    v.map_values(|f: Finding| f@)
}

/// An error about a whole file.
pub open spec fn file_error(
    file: Seq<char>,
    code: Seq<char>,
    message: Seq<char>,
    suggestion: Seq<char>,
) -> FindingView {
    FindingView { file, field: None, severity: Severity::Error, code, message, suggestion }
}

/// A warning about a whole file.
pub open spec fn file_warning(
    file: Seq<char>,
    code: Seq<char>,
    message: Seq<char>,
    suggestion: Seq<char>,
) -> FindingView {
    FindingView { file, field: None, severity: Severity::Warning, code, message, suggestion }
}

/// A finding that refers to a field.
pub open spec fn at_field(f: FindingView, field: Seq<char>) -> FindingView {
    FindingView { field: Some(field), ..f }
}

impl Finding {
    fn error(file: &str, code: &'static str, message: String, suggestion: &str) -> (r: Finding)
        ensures
            r@ == file_error(file@, code@, message@, suggestion@),
    {
        Finding {
            file: owned(file),
            field: None,
            severity: Severity::Error,
            code,
            message,
            suggestion: owned(suggestion),
        }
    }

    fn warning(file: &str, code: &'static str, message: String, suggestion: &str) -> (r: Finding)
        ensures
            r@ == file_warning(file@, code@, message@, suggestion@),
    {
        Finding {
            file: owned(file),
            field: None,
            severity: Severity::Warning,
            code,
            message,
            suggestion: owned(suggestion),
        }
    }

    fn with_field(self, field: &str) -> (r: Finding)
        ensures
            r@ == at_field(self@, field@),
    {
        Finding { field: Some(owned(field)), ..self }
    }
}

fn report(out: &mut Vec<Finding>, f: Finding)
    ensures
        findings(final(out)@) == findings(old(out)@).push(f@),
{
    let ghost before = out@;
    out.push(f);
    assert(findings(out@) =~= findings(before).push(f@));
}

/// A parsed timestamp: either legacy naive-local or RFC 3339 with offset.
#[derive(Debug, Clone, Copy, PartialEq, Eq, Structural)]
pub enum Timestamp {
    Naive(Instant),
    Offset(Instant),
}

/// The format of legacy naive timestamps.
pub const NAIVE_FORMAT: &'static str = "%Y-%m-%dT%H:%M:%S";

/// The timestamp of a text that reads as an instant with offset, or else as a
/// naive one.
pub open spec fn picked(offset: Option<Instant>, naive: Option<Instant>) -> Option<Timestamp> {
    match offset {
        Some(i) => Some(Timestamp::Offset(i)),
        None => match naive {
            Some(i) => Some(Timestamp::Naive(i)),
            None => None,
        },
    }
}

/// The timestamp that a text denotes.
pub open spec fn timestamp_of(s: Seq<char>) -> Option<Timestamp> {
    picked(clock::rfc3339(s), clock::naive_time(s, NAIVE_FORMAT@))
}

/// Picks the timestamp of a text from its two readings.
pub fn pick_timestamp(offset: Option<Instant>, naive: Option<Instant>) -> (r: Option<Timestamp>)
    ensures
        r == picked(offset, naive),
{
    match offset {
        Some(i) => Some(Timestamp::Offset(i)),
        None => match naive {
            Some(i) => Some(Timestamp::Naive(i)),
            None => None,
        },
    }
}

/// Parses a persisted timestamp. Accepts legacy naive local
/// (`YYYY-MM-DDTHH:MM:SS`) and RFC 3339 with offset. Never invents offsets.
pub fn parse_ts(s: &str) -> (r: Option<Timestamp>)
    ensures
        r == timestamp_of(s@),
{
    pick_timestamp(read_rfc3339(s), read_naive(s, NAIVE_FORMAT))
}

/// Whether `a` and `b` are comparable (same offset awareness) and `a` lies
/// after `b`.
pub open spec fn after(a: Timestamp, b: Timestamp) -> bool {
    match (a, b) {
        (Timestamp::Naive(x), Timestamp::Naive(y)) => clock::earlier(y, x),
        (Timestamp::Offset(x), Timestamp::Offset(y)) => clock::earlier(y, x),
        _ => false,
    }
}

/// Whether `a` and `b` are comparable and `a` lies after `b`.
pub fn is_after(a: &Timestamp, b: &Timestamp) -> (r: bool)
    ensures
        r == after(*a, *b),
{
    match (a, b) {
        (Timestamp::Naive(x), Timestamp::Naive(y)) => is_earlier(y, x),
        (Timestamp::Offset(x), Timestamp::Offset(y)) => is_earlier(y, x),
        _ => false,
    }
}

/// Whether two timestamps have the same offset awareness.
pub open spec fn comparable(a: Timestamp, b: Timestamp) -> bool {
    (a is Naive) == (b is Naive)
}

/// Compares two timestamps only when they are comparable (same offset
/// awareness). Legacy naive and new offset-bearing timestamps are never
/// compared as if they were UTC.
pub fn cmp_ts(a: &Timestamp, b: &Timestamp) -> (r: Option<core::cmp::Ordering>)
    ensures
        r is None <==> !comparable(*a, *b),
        r == Some(core::cmp::Ordering::Greater) <==> after(*a, *b),
        r == Some(core::cmp::Ordering::Less) <==> after(*b, *a),
        r == Some(core::cmp::Ordering::Equal) <==> *a == *b,
{
    if is_after(a, b) {
        return Some(core::cmp::Ordering::Greater);
    }
    if is_after(b, a) {
        return Some(core::cmp::Ordering::Less);
    }
    match (a, b) {
        (Timestamp::Naive(_), Timestamp::Naive(_)) => Some(core::cmp::Ordering::Equal),
        (Timestamp::Offset(_), Timestamp::Offset(_)) => Some(core::cmp::Ordering::Equal),
        _ => None,
    }
}

/// The finding about a value that is no timestamp.
pub open spec fn invalid_timestamp(file: Seq<char>, field: Seq<char>, value: Seq<char>)
    -> FindingView {
    at_field(
        file_error(
            file,
            "value.invalid_timestamp"@,
            field + " = \""@ + value + "\" is not a valid timestamp"@,
            "fix the value to RFC 3339 (with offset) or the legacy YYYY-MM-DDTHH:MM:SS form"@,
        ),
        field,
    )
}

/// The findings so far and what checking a timestamp adds.
pub open spec fn stamp_checked(
    acc: Seq<FindingView>,
    file: Seq<char>,
    field: Seq<char>,
    value: Seq<char>,
) -> Seq<FindingView> {
    if timestamp_of(value) is Some {
        acc
    } else {
        acc.push(invalid_timestamp(file, field, value))
    }
}

/// As [`stamp_checked`], where there is a value.
pub open spec fn opt_stamp_checked(
    acc: Seq<FindingView>,
    file: Seq<char>,
    field: Seq<char>,
    value: Option<Seq<char>>,
) -> Seq<FindingView> {
    match value {
        Some(v) => stamp_checked(acc, file, field, v),
        None => acc,
    }
}

/// The timestamp that an optional text denotes.
pub open spec fn opt_timestamp_of(s: Option<Seq<char>>) -> Option<Timestamp> {
    match s {
        Some(v) => timestamp_of(v),
        None => None,
    }
}

fn check_timestamp(out: &mut Vec<Finding>, file: &str, field: &str, value: &str) -> (r: Option<
    Timestamp,
>)
    ensures
        r == timestamp_of(value@),
        findings(final(out)@) == stamp_checked(findings(old(out)@), file@, field@, value@),
{
    match parse_ts(value) {
        Some(ts) => Some(ts),
        None => {
            let head = cat3(field, " = \"", value);
            report(
                out,
                Finding::error(
                    file,
                    "value.invalid_timestamp",
                    cat(head.as_str(), "\" is not a valid timestamp"),
                    "fix the value to RFC 3339 (with offset) or the legacy YYYY-MM-DDTHH:MM:SS form",
                ).with_field(field),
            );
            None
        },
    }
}

fn check_opt_timestamp(out: &mut Vec<Finding>, file: &str, field: &str, value: &Option<String>)
    -> (r: Option<Timestamp>)
    ensures
        r == opt_timestamp_of(text::opt_text(*value)),
        findings(final(out)@) == opt_stamp_checked(
            findings(old(out)@),
            file@,
            field@,
            text::opt_text(*value),
        ),
{
    match value {
        Some(v) => check_timestamp(out, file, field, v.as_str()),
        None => None,
    }
}

/// The finding about a timestamp that lies before one it should follow.
pub open spec fn timestamp_order_finding(file: Seq<char>, later: Seq<char>, earlier: Seq<char>)
    -> FindingView {
    at_field(
        file_error(
            file,
            "value.timestamp_order"@,
            later + " is before "@ + earlier,
            "fix the timestamps (legacy naive and new offset-bearing values are never compared)"@,
        ),
        later,
    )
}

/// The findings so far and what checking the order of two timestamps adds.
pub open spec fn order_checked(
    acc: Seq<FindingView>,
    file: Seq<char>,
    earlier: Seq<char>,
    first: Option<Timestamp>,
    later: Seq<char>,
    second: Option<Timestamp>,
) -> Seq<FindingView> {
    match (first, second) {
        (Some(a), Some(b)) => if after(a, b) {
            acc.push(timestamp_order_finding(file, later, earlier))
        } else {
            acc
        },
        _ => acc,
    }
}

fn check_order(
    out: &mut Vec<Finding>,
    file: &str,
    earlier: &str,
    first: &Option<Timestamp>,
    later: &str,
    second: &Option<Timestamp>,
)
    ensures
        findings(final(out)@) == order_checked(
            findings(old(out)@),
            file@,
            earlier@,
            *first,
            later@,
            *second,
        ),
{
    if let (Some(a), Some(b)) = (first, second) {
        if is_after(a, b) {
            report(
                out,
                Finding::error(
                    file,
                    "value.timestamp_order",
                    cat3(later, " is before ", earlier),
                    "fix the timestamps (legacy naive and new offset-bearing values are never compared)",
                ).with_field(later),
            );
        }
    }
}

/// The name of a field of the `i`-th recorded event.
pub open spec fn event_field(i: int, field: Seq<char>) -> Seq<char> {
    "history["@ + text::decimal(i) + "]."@ + field
}

/// The findings so far and what checking recorded events from the `i`-th on
/// adds, when the one before was recorded at `prev`.
pub open spec fn history_checked(
    acc: Seq<FindingView>,
    file: Seq<char>,
    history: Seq<LifecycleEventView>,
    i: int,
    prev: Option<Timestamp>,
) -> Seq<FindingView>
    decreases history.len() - i,
{
    if i < 0 || i >= history.len() {
        acc
    } else {
        let event = history[i];
        let at = timestamp_of(event.at);
        let stamped = stamp_checked(acc, file, event_field(i, "at"@), event.at);
        let ordered = match (prev, at) {
            (Some(p), Some(ts)) => if after(p, ts) {
                stamped.push(
                    at_field(
                        file_error(
                            file,
                            "value.timestamp_order"@,
                            event_field(i, "at"@) + " is before "@ + event_field(i - 1, "at"@),
                            "fix the recorded event timestamps"@,
                        ),
                        event_field(i, "at"@),
                    ),
                )
            } else {
                stamped
            },
            _ => stamped,
        };
        let done = opt_stamp_checked(
            ordered,
            file,
            event_field(i, "prior_done_at"@),
            event.prior_done_at,
        );
        history_checked(done, file, history, i + 1, at)
    }
}

fn event_field_text(i: usize, field: &str) -> (r: String)
    ensures
        r@ == event_field(i as int, field@),
{
    let n = natural_text(i as u128);
    let head = cat3("history[", n.as_str(), "].");
    cat(head.as_str(), field)
}

fn check_history(out: &mut Vec<Finding>, file: &str, t: &Task)
    ensures
        findings(final(out)@) == history_checked(findings(old(out)@), file@, t@.history, 0, None),
{
    let mut prev: Option<Timestamp> = None;
    let mut i: usize = 0;
    let ghost target = history_checked(findings(out@), file@, t@.history, 0, None);
    while i < t.history.len()
        invariant
            i <= t.history.len(),
            prev is Some ==> i > 0,
            target == history_checked(findings(out@), file@, t@.history, i as int, prev),
        decreases t.history.len() - i,
    {
        let event = &t.history[i];
        assert(t@.history[i as int] == event@);
        let field = event_field_text(i, "at");
        let at = check_timestamp(out, file, field.as_str(), event.at.as_str());
        if let (Some(p), Some(ts)) = (&prev, &at) {
            if is_after(p, ts) {
                let before = event_field_text(i - 1, "at");
                report(
                    out,
                    Finding::error(
                        file,
                        "value.timestamp_order",
                        cat3(field.as_str(), " is before ", before.as_str()),
                        "fix the recorded event timestamps",
                    ).with_field(field.as_str()),
                );
            }
        }
        let prior = event_field_text(i, "prior_done_at");
        check_opt_timestamp(out, file, prior.as_str(), &event.prior_done_at);
        prev = at;
        i += 1;
    }
}

/// The findings so far and what checking a closed record's evidence adds.
pub open spec fn evidence_checked(acc: Seq<FindingView>, file: Seq<char>, t: TaskView) -> Seq<
    FindingView,
> {
    if t.status != TaskStatus::Closed {
        acc
    } else {
        let dated = if t.done_at is None {
            acc.push(
                at_field(
                    file_error(
                        file,
                        "task.closed_missing_done_at"@,
                        "closed task has no done_at timestamp"@,
                        "set done_at (jay repair can migrate a legacy closed_at) or record the real completion time"@,
                    ),
                    "done_at"@,
                ),
            )
        } else {
            acc
        };
        let resulted = if text::opt_blank(t.report_result) {
            dated.push(
                at_field(
                    file_error(
                        file,
                        "task.closed_missing_result"@,
                        "closed task has no nonblank report_result"@,
                        "update the task with the real result — jay never fabricates completion evidence"@,
                    ),
                    "report_result"@,
                ),
            )
        } else {
            dated
        };
        if text::opt_blank(t.report_validation) {
            resulted.push(
                at_field(
                    file_error(
                        file,
                        "task.closed_missing_validation"@,
                        "closed task has no nonblank report_validation"@,
                        "update the task with the real validation — jay never fabricates completion evidence"@,
                    ),
                    "report_validation"@,
                ),
            )
        } else {
            resulted
        }
    }
}

fn check_evidence(out: &mut Vec<Finding>, file: &str, t: &Task)
    ensures
        findings(final(out)@) == evidence_checked(findings(old(out)@), file@, t@),
{
    if t.status != TaskStatus::Closed {
        return;
    }
    if t.done_at.is_none() {
        report(
            out,
            Finding::error(
                file,
                "task.closed_missing_done_at",
                owned("closed task has no done_at timestamp"),
                "set done_at (jay repair can migrate a legacy closed_at) or record the real completion time",
            ).with_field("done_at"),
        );
    }
    if is_opt_blank(&t.report_result) {
        report(
            out,
            Finding::error(
                file,
                "task.closed_missing_result",
                owned("closed task has no nonblank report_result"),
                "update the task with the real result — jay never fabricates completion evidence",
            ).with_field("report_result"),
        );
    }
    if is_opt_blank(&t.report_validation) {
        report(
            out,
            Finding::error(
                file,
                "task.closed_missing_validation",
                owned("closed task has no nonblank report_validation"),
                "update the task with the real validation — jay never fabricates completion evidence",
            ).with_field("report_validation"),
        );
    }
}

/// The findings so far and what comparing a file's name with its record adds.
pub open spec fn id_checked(
    acc: Seq<FindingView>,
    file: Seq<char>,
    file_id: Option<i64>,
    t: TaskView,
) -> Seq<FindingView> {
    match file_id {
        Some(fid) => if fid != t.id {
            acc.push(
                at_field(
                    file_error(
                        file,
                        "task.filename_id_mismatch"@,
                        "file name says id "@ + text::decimal(fid as int)
                            + " but the record says id "@ + text::decimal(t.id as int),
                        "rename the file to <id>.toml or fix the id field"@,
                    ),
                    "id"@,
                ),
            )
        } else {
            acc
        },
        None => acc,
    }
}

/// The findings so far and what inspecting a task record adds: its id, its
/// timestamps and their order, its history and its completion evidence.
pub open spec fn record_checked(
    acc: Seq<FindingView>,
    file: Seq<char>,
    file_id: Option<i64>,
    t: TaskView,
) -> Seq<FindingView> {
    let created = timestamp_of(t.created_at);
    let updated = timestamp_of(t.updated_at);
    let started = opt_timestamp_of(t.started_at);
    let done = opt_timestamp_of(t.done_at);
    let a0 = id_checked(acc, file, file_id, t);
    let a1 = stamp_checked(a0, file, "created_at"@, t.created_at);
    let a2 = stamp_checked(a1, file, "updated_at"@, t.updated_at);
    let a3 = opt_stamp_checked(a2, file, "started_at"@, t.started_at);
    let a4 = opt_stamp_checked(a3, file, "done_at"@, t.done_at);
    let a5 = order_checked(a4, file, "created_at"@, created, "started_at"@, started);
    let a6 = order_checked(a5, file, "started_at"@, started, "done_at"@, done);
    let a7 = order_checked(a6, file, "created_at"@, created, "done_at"@, done);
    let a8 = order_checked(a7, file, "created_at"@, created, "updated_at"@, updated);
    let a9 = history_checked(a8, file, t.history, 0, None);
    evidence_checked(a9, file, t)
}

/// Inspects a task record: its id, its timestamps (syntax, then order between
/// comparable values), its history and its completion evidence.
pub fn inspect_task_record(out: &mut Vec<Finding>, file: &str, file_id: Option<i64>, t: &Task)
    ensures
        findings(final(out)@) == record_checked(findings(old(out)@), file@, file_id, t@),
{
    if let Some(fid) = file_id {
        if fid != t.id {
            let a = int_text(fid);
            let b = int_text(t.id);
            let head = cat3("file name says id ", a.as_str(), " but the record says id ");
            report(
                out,
                Finding::error(
                    file,
                    "task.filename_id_mismatch",
                    cat(head.as_str(), b.as_str()),
                    "rename the file to <id>.toml or fix the id field",
                ).with_field("id"),
            );
        }
    }
    let created = check_timestamp(out, file, "created_at", t.created_at.as_str());
    let updated = check_timestamp(out, file, "updated_at", t.updated_at.as_str());
    let started = check_opt_timestamp(out, file, "started_at", &t.started_at);
    let done = check_opt_timestamp(out, file, "done_at", &t.done_at);
    check_order(out, file, "created_at", &created, "started_at", &started);
    check_order(out, file, "started_at", &started, "done_at", &done);
    check_order(out, file, "created_at", &created, "done_at", &done);
    check_order(out, file, "created_at", &created, "updated_at", &updated);
    check_history(out, file, t);
    check_evidence(out, file, t);
}

/// The finding about an unknown field.
pub open spec fn unknown_field(file: Seq<char>, what: Seq<char>, key: Seq<char>) -> FindingView {
    at_field(
        file_warning(
            file,
            "value.unknown_field"@,
            "unknown "@ + what + " field '"@ + key + "' (possibly from a newer jay version)"@,
            "keep it (jay preserves unknown fields on repair) or remove it by hand; consider upgrading jay"@,
        ),
        key,
    )
}

/// The findings so far and one for each field that is neither known nor legacy.
pub open spec fn fields_checked(
    acc: Seq<FindingView>,
    file: Seq<char>,
    fields: Seq<FieldView>,
    known: Seq<&str>,
    legacy: Seq<&str>,
    what: Seq<char>,
) -> Seq<FindingView>
    decreases fields.len(),
{
    if fields.len() == 0 {
        acc
    } else {
        let key = fields[0].name;
        let next = if text::listed(key, known) || text::listed(key, legacy) {
            acc
        } else {
            acc.push(unknown_field(file, what, key))
        };
        fields_checked(next, file, fields.skip(1), known, legacy, what)
    }
}

/// As [`fields_checked`], where the document is a table.
pub open spec fn unknown_checked(
    acc: Seq<FindingView>,
    file: Seq<char>,
    value: DocView,
    known: Seq<&str>,
    legacy: Seq<&str>,
    what: Seq<char>,
) -> Seq<FindingView> {
    match value {
        DocView::Table(f) => fields_checked(acc, file, f, known, legacy, what),
        _ => acc,
    }
}

fn report_unknown_fields(
    out: &mut Vec<Finding>,
    file: &str,
    value: &Doc,
    known: &[&str],
    legacy: &[&str],
    what: &str,
)
    ensures
        findings(final(out)@) == unknown_checked(
            findings(old(out)@),
            file@,
            value@,
            known@,
            legacy@,
            what@,
        ),
{
    let table = match value.as_table() {
        Some(t) => t,
        None => {
            return;
        },
    };
    let ghost all = doc::fields(table@);
    let ghost target = fields_checked(findings(out@), file@, all, known@, legacy@, what@);
    let mut i: usize = 0;
    assert(all.skip(0) =~= all);
    while i < table.len()
        invariant
            i <= table.len(),
            all == doc::fields(table@),
            target == fields_checked(
                findings(out@),
                file@,
                all.skip(i as int),
                known@,
                legacy@,
                what@,
            ),
        decreases table.len() - i,
    {
        let key = table[i].name.as_str();
        assert(all.skip(i as int)[0] == table@[i as int]@);
        assert(all.skip(i as int).skip(1) =~= all.skip(i + 1));
        if !(is_listed(key, known) || is_listed(key, legacy)) {
            let head = cat3("unknown ", what, " field '");
            report(
                out,
                Finding::warning(
                    file,
                    "value.unknown_field",
                    cat3(head.as_str(), key, "' (possibly from a newer jay version)"),
                    "keep it (jay preserves unknown fields on repair) or remove it by hand; consider upgrading jay",
                ).with_field(key),
            );
        }
        i += 1;
    }
}

/// The findings so far and what inspecting each element of an array adds.
pub open spec fn elements_checked(
    acc: Seq<FindingView>,
    file: Seq<char>,
    elements: Seq<DocView>,
    known: Seq<&str>,
    what: Seq<char>,
    i: int,
) -> Seq<FindingView>
    decreases elements.len() - i,
{
    if i < 0 || i >= elements.len() {
        acc
    } else {
        elements_checked(
            unknown_checked(
                acc,
                file,
                elements[i],
                known,
                NO_LEGACY_FIELDS@,
                what + "["@ + text::decimal(i) + "]"@,
            ),
            file,
            elements,
            known,
            what,
            i + 1,
        )
    }
}

/// As [`elements_checked`], where `text` is a document with an array of that
/// name.
pub open spec fn array_checked(
    acc: Seq<FindingView>,
    file: Seq<char>,
    read: Result<DocView, Seq<char>>,
    known: Seq<&str>,
    what: Seq<char>,
) -> Seq<FindingView> {
    match read {
        Ok(d) => match doc::array_of(doc::field_of(d, what)) {
            Some(elements) => elements_checked(acc, file, elements, known, what, 0),
            None => acc,
        },
        Err(_) => acc,
    }
}

/// What reading a document gives.
pub open spec fn doc_read(r: Result<Doc, String>) -> Result<DocView, Seq<char>> {
    match r {
        Ok(d) => Ok(d@),
        Err(e) => Err(e@),
    }
}

fn check_array(
    out: &mut Vec<Finding>,
    file: &str,
    read: &Result<Doc, String>,
    known: &[&str],
    what: &str,
)
    ensures
        findings(final(out)@) == array_checked(
            findings(old(out)@),
            file@,
            doc_read(*read),
            known@,
            what@,
        ),
{
    let d = match read {
        Ok(d) => d,
        Err(_) => {
            return;
        },
    };
    let field = match d.get(what) {
        Some(f) => f,
        None => {
            return;
        },
    };
    let elements = match field.as_array() {
        Some(e) => e,
        None => {
            return;
        },
    };
    let ghost all = doc::docs(elements@);
    let ghost target = elements_checked(findings(out@), file@, all, known@, what@, 0);
    let mut i: usize = 0;
    while i < elements.len()
        invariant
            i <= elements.len(),
            all == doc::docs(elements@),
            target == elements_checked(findings(out@), file@, all, known@, what@, i as int),
        decreases elements.len() - i,
    {
        let n = natural_text(i as u128);
        let head = cat3(what, "[", n.as_str());
        let name = cat(head.as_str(), "]");
        report_unknown_fields(out, file, &elements[i], known, &NO_LEGACY_FIELDS, name.as_str());
        i += 1;
    }
}

/// The findings so far and what inspecting a legacy `closed_at` beside
/// `done_at` adds.
pub open spec fn legacy_checked(
    acc: Seq<FindingView>,
    file: Seq<char>,
    done_at: Option<DocView>,
    closed_at: Option<DocView>,
) -> Seq<FindingView> {
    if closed_at is None {
        acc
    } else {
        let closed = match doc::text_of(closed_at) {
            Some(s) => s,
            None => ""@,
        };
        if timestamp_of(closed) is None {
            acc.push(
                at_field(
                    file_error(
                        file,
                        "value.invalid_timestamp"@,
                        "legacy closed_at = \""@ + closed + "\" is not a valid timestamp"@,
                        "fix or remove the legacy closed_at field"@,
                    ),
                    "closed_at"@,
                ),
            )
        } else {
            match doc::text_of(done_at) {
                None => acc.push(
                    at_field(
                        file_warning(
                            file,
                            "task.legacy_closed_at"@,
                            "legacy field closed_at = \""@ + closed + "\" used instead of done_at"@,
                            "run `jay repair` to migrate the value to done_at (dry run by default; --apply to write)"@,
                        ),
                        "closed_at"@,
                    ),
                ),
                Some(d) => if d == closed || timestamp_of(d) == timestamp_of(closed) {
                    acc.push(
                        at_field(
                            file_warning(
                                file,
                                "task.legacy_closed_at"@,
                                "legacy field closed_at duplicates done_at"@,
                                "run `jay repair --apply` to drop the redundant legacy field"@,
                            ),
                            "closed_at"@,
                        ),
                    )
                } else {
                    acc.push(
                        at_field(
                            file_error(
                                file,
                                "task.closed_at_conflict"@,
                                "legacy closed_at = \""@ + closed + "\" conflicts with done_at = \""@
                                    + d + "\""@,
                                "resolve by hand: decide which timestamp is authoritative, then remove closed_at"@,
                            ),
                            "closed_at"@,
                        ),
                    )
                },
            }
        }
    }
}

/// Inspects a legacy `closed_at` field beside `done_at`: it is migrated by
/// repair where it stands alone or is equivalent, and conflicts otherwise.
pub fn inspect_legacy_closed_at(
    out: &mut Vec<Finding>,
    file: &str,
    done_at: Option<&Doc>,
    closed_at: Option<&Doc>,
)
    ensures
        findings(final(out)@) == legacy_checked(
            findings(old(out)@),
            file@,
            doc::opt_doc(done_at),
            doc::opt_doc(closed_at),
        ),
{
    let value = match closed_at {
        Some(v) => v,
        None => {
            return;
        },
    };
    let closed = match value.as_text() {
        Some(s) => s,
        None => "",
    };
    let closed_ts = parse_ts(closed);
    if closed_ts.is_none() {
        report(
            out,
            Finding::error(
                file,
                "value.invalid_timestamp",
                cat3("legacy closed_at = \"", closed, "\" is not a valid timestamp"),
                "fix or remove the legacy closed_at field",
            ).with_field("closed_at"),
        );
        return;
    }
    let done = match done_at {
        Some(d) => d.as_text(),
        None => None,
    };
    match done {
        None => {
            report(
                out,
                Finding::warning(
                    file,
                    "task.legacy_closed_at",
                    cat3("legacy field closed_at = \"", closed, "\" used instead of done_at"),
                    "run `jay repair` to migrate the value to done_at (dry run by default; --apply to write)",
                ).with_field("closed_at"),
            );
        },
        Some(d) => {
            if same(d, closed) || parse_ts(d) == closed_ts {
                report(
                    out,
                    Finding::warning(
                        file,
                        "task.legacy_closed_at",
                        owned("legacy field closed_at duplicates done_at"),
                        "run `jay repair --apply` to drop the redundant legacy field",
                    ).with_field("closed_at"),
                );
            } else {
                let head = cat3("legacy closed_at = \"", closed, "\" conflicts with done_at = \"");
                report(
                    out,
                    Finding::error(
                        file,
                        "task.closed_at_conflict",
                        cat3(head.as_str(), d, "\""),
                        "resolve by hand: decide which timestamp is authoritative, then remove closed_at",
                    ).with_field("closed_at"),
                );
            }
        },
    }
}

/// What reading a file gave.
#[derive(Debug)]
pub enum FileRead {
    /// There is no such file.
    Missing,
    /// It could not be read, with the reason.
    Unreadable(String),
    /// Its text.
    Text(String),
}

/// A task file: its name, what reading it gave and, where it has a text, the
/// record of that text or the reason why it is none.
#[derive(Debug)]
pub struct TaskSource {
    pub name: String,
    pub read: FileRead,
    pub record: Result<Task, String>,
}

/// A task file and its record, where it has one.
#[derive(Debug)]
pub struct TaskFile {
    pub rel: String,
    pub task: Option<Task>,
}

/// What an optional task holds.
pub open spec fn opt_task(o: Option<Task>) -> Option<TaskView> {
    match o {
        Some(t) => Some(t@),
        None => None,
    }
}

/// What a [`TaskFile`] holds.
#[verifier::ext_equal]
pub struct TaskFileView {
    pub rel: Seq<char>,
    pub task: Option<TaskView>,
}

impl View for TaskFile {
    type V = TaskFileView;

    open spec fn view(&self) -> TaskFileView {
        TaskFileView { rel: self.rel@, task: opt_task(self.task) }
    }
}

/// What a list of task files holds.
pub open spec fn task_files(v: Seq<TaskFile>) -> Seq<TaskFileView> {
    v.map_values(|f: TaskFile| f@)
}

/// The path of a task file from the project root.
pub open spec fn task_rel(name: Seq<char>) -> Seq<char> {
    project::inside(project::inside(project::NEST_DIR@, project::TASKS_DIR@), name)
}

/// Whether a file name has the extension `toml`.
pub open spec fn toml_name(name: Seq<char>) -> bool {
    name.len() > 5 && text::ends(name, ".toml"@)
}

/// A file name without its extension `toml`.
pub open spec fn stem_of(name: Seq<char>) -> Seq<char> {
    match text::before_suffix(name, ".toml"@) {
        Some(s) => s,
        None => name,
    }
}

/// The names with the extension `toml`, in order.
pub open spec fn toml_names(names: Seq<Seq<char>>) -> Seq<Seq<char>> {
    names.filter(|n: Seq<char>| toml_name(n))
}

/// The task files among the names of the tasks folder, sorted.
pub fn task_file_names(names: &Vec<String>) -> (r: Vec<String>)
    ensures
        text::texts(r@) == order::sorted_by(toml_names(text::texts(names@)), order::text_order()),
{
    let mut out: Vec<String> = Vec::new();
    let ghost all = text::texts(names@);
    let ghost keep = |n: Seq<char>| toml_name(n);
    let mut i: usize = 0;
    reveal(Seq::filter);
    assert(all.take(0) =~= Seq::empty());
    while i < names.len()
        invariant
            i <= names.len(),
            all == text::texts(names@),
            keep == (|n: Seq<char>| toml_name(n)),
            text::texts(out@) == all.take(i as int).filter(keep),
        decreases names.len() - i,
    {
        proof {
            text::lemma_filter_take(all, keep, i as int);
        }
        let ghost before = out@;
        assert(all[i as int] == names@[i as int]@);
        if is_toml_name(names[i].as_str()) {
            out.push(names[i].clone());
            assert(text::texts(out@) =~= text::texts(before).push(all[i as int]));
        }
        i += 1;
    }
    assert(all.take(i as int) =~= all);
    sort_texts(out)
}

/// Whether a file name has the extension `toml`.
pub fn is_toml_name(name: &str) -> (r: bool)
    ensures
        r == toml_name(name@),
{
    let chars = chars_of(name);
    chars.len() > 5 && strip_suffix(name, ".toml").is_some()
}

/// The findings so far and what the name of a task file adds.
pub open spec fn name_checked(acc: Seq<FindingView>, name: Seq<char>) -> Seq<FindingView> {
    if text::integer(stem_of(name)) is None {
        acc.push(
            file_warning(
                task_rel(name),
                "task.nonnumeric_filename"@,
                "task file name '"@ + stem_of(name) + ".toml' is not a numeric id"@,
                "rename the file to <id>.toml or remove it"@,
            ),
        )
    } else {
        acc
    }
}

/// The findings so far and what the text of a task file adds, given its raw
/// document and its record.
pub open spec fn task_text_checked(
    acc: Seq<FindingView>,
    name: Seq<char>,
    raw: Result<DocView, Seq<char>>,
    record: Result<TaskView, Seq<char>>,
) -> Seq<FindingView> {
    let rel = task_rel(name);
    match raw {
        Err(e) => acc.push(
            file_error(
                rel,
                "task.parse_error"@,
                "malformed TOML: "@ + e,
                "fix the TOML syntax by hand; doctor will not modify malformed files"@,
            ),
        ),
        Ok(d) => {
            let typed = match record {
                Err(e) => acc.push(
                    file_error(
                        rel,
                        "task.invalid_value"@,
                        "task record invalid: "@ + e,
                        "fix the offending field value (see message)"@,
                    ),
                ),
                Ok(_) => acc,
            };
            let known = unknown_checked(
                typed,
                rel,
                d,
                KNOWN_TASK_FIELDS@,
                LEGACY_TASK_FIELDS@,
                "task"@,
            );
            let legacy = legacy_checked(
                known,
                rel,
                doc::field_of(d, "done_at"@),
                doc::field_of(d, "closed_at"@),
            );
            match record {
                Ok(t) => record_checked(legacy, rel, text::integer(stem_of(name)), t),
                Err(_) => legacy,
            }
        },
    }
}

/// What a record read gives.
pub open spec fn record_read(r: Result<Task, String>) -> Result<TaskView, Seq<char>> {
    match r {
        Ok(t) => Ok(t@),
        Err(e) => Err(e@),
    }
}

/// The findings so far and what a task file adds.
pub open spec fn source_checked(acc: Seq<FindingView>, s: TaskSource) -> Seq<FindingView> {
    let named = name_checked(acc, s.name@);
    match s.read {
        FileRead::Missing => named,
        FileRead::Unreadable(e) => named.push(
            file_error(
                task_rel(s.name@),
                "task.read_error"@,
                "cannot read task file: "@ + e@,
                "restore the file"@,
            ),
        ),
        FileRead::Text(t) => task_text_checked(
            named,
            s.name@,
            doc::toml_reads(t@),
            record_read(s.record),
        ),
    }
}

/// The record of a task file: there is one where the text is a document and
/// a task.
pub open spec fn source_record(s: TaskSource) -> Option<TaskView> {
    match (s.read, s.record) {
        (FileRead::Text(t), Ok(task)) => if doc::toml_reads(t@) is Ok {
            Some(task@)
        } else {
            None
        },
        _ => None,
    }
}

/// The findings so far and what task files add, each inspected on its own.
pub open spec fn sources_checked(acc: Seq<FindingView>, s: Seq<TaskSource>) -> Seq<FindingView>
    decreases s.len(),
{
    if s.len() == 0 {
        acc
    } else {
        source_checked(sources_checked(acc, s.drop_last()), s.last())
    }
}

/// The task files and their records.
pub open spec fn source_files(s: Seq<TaskSource>) -> Seq<TaskFileView> {
    s.map_values(|x: TaskSource| TaskFileView { rel: task_rel(x.name@), task: source_record(x) })
}

/// Inspects the text of a task file, given its raw document and its record.
pub fn inspect_task_text(
    out: &mut Vec<Finding>,
    name: &str,
    raw: &Result<Doc, String>,
    record: &Result<Task, String>,
)
    ensures
        findings(final(out)@) == task_text_checked(
            findings(old(out)@),
            name@,
            doc_read(*raw),
            record_read(*record),
        ),
{
    let rel = task_rel_text(name);
    let stem = match strip_suffix(name, ".toml") {
        Some(s) => s,
        None => owned(name),
    };
    let file_id = parse_int(stem.as_str());
    match raw {
        Err(e) => {
            report(
                out,
                Finding::error(
                    rel.as_str(),
                    "task.parse_error",
                    cat("malformed TOML: ", e.as_str()),
                    "fix the TOML syntax by hand; doctor will not modify malformed files",
                ),
            );
        },
        Ok(d) => {
            if let Err(e) = record {
                report(
                    out,
                    Finding::error(
                        rel.as_str(),
                        "task.invalid_value",
                        cat("task record invalid: ", e.as_str()),
                        "fix the offending field value (see message)",
                    ),
                );
            }
            report_unknown_fields(
                out,
                rel.as_str(),
                d,
                &KNOWN_TASK_FIELDS,
                &LEGACY_TASK_FIELDS,
                "task",
            );
            inspect_legacy_closed_at(out, rel.as_str(), d.get("done_at"), d.get("closed_at"));
            if let Ok(t) = record {
                inspect_task_record(out, rel.as_str(), file_id, t);
            }
        },
    }
}

fn task_rel_text(name: &str) -> (r: String)
    ensures
        r@ == task_rel(name@),
{
    let dir = join_path(project::NEST_DIR, project::TASKS_DIR);
    join_path(dir.as_str(), name)
}

/// Inspects task files, each on its own, and gives their records.
pub fn inspect_tasks(sources: Vec<TaskSource>, out: &mut Vec<Finding>) -> (r: Vec<TaskFile>)
    ensures
        findings(final(out)@) == sources_checked(findings(old(out)@), sources@),
        task_files(r@) == source_files(sources@),
{
    let mut rest = sources;
    let mut files: Vec<TaskFile> = Vec::new();
    let ghost before = findings(out@);
    let mut i: usize = 0;
    let n = rest.len();
    assert(sources@.skip(0) =~= sources@);
    assert(sources@.take(0) =~= Seq::empty());
    while i < n
        invariant
            i <= n,
            n == sources@.len(),
            rest@ == sources@.skip(i as int),
            findings(out@) == sources_checked(before, sources@.take(i as int)),
            task_files(files@) == source_files(sources@).take(i as int),
        decreases n - i,
    {
        let ghost s = sources@[i as int];
        let source = rest.remove(0);
        assert(rest@ =~= sources@.skip(i + 1));
        assert(source == s);
        assert(sources@.take(i + 1).drop_last() =~= sources@.take(i as int));
        assert(sources@.take(i + 1).last() == s);
        let rel = task_rel_text(source.name.as_str());
        let stem = match strip_suffix(source.name.as_str(), ".toml") {
            Some(x) => x,
            None => source.name.clone(),
        };
        if parse_int(stem.as_str()).is_none() {
            report(
                out,
                Finding::warning(
                    rel.as_str(),
                    "task.nonnumeric_filename",
                    cat3("task file name '", stem.as_str(), ".toml' is not a numeric id"),
                    "rename the file to <id>.toml or remove it",
                ),
            );
        }
        let task: Option<Task> = match source.read {
            FileRead::Missing => None,
            FileRead::Unreadable(e) => {
                report(
                    out,
                    Finding::error(
                        rel.as_str(),
                        "task.read_error",
                        cat("cannot read task file: ", e.as_str()),
                        "restore the file",
                    ),
                );
                None
            },
            FileRead::Text(t) => {
                let raw = read_doc(t.as_str());
                inspect_task_text(out, source.name.as_str(), &raw, &source.record);
                match (raw, source.record) {
                    (Ok(_), Ok(task)) => Some(task),
                    _ => None,
                }
            },
        };
        let ghost files_before = files@;
        files.push(TaskFile { rel, task });
        assert(task_files(files@) =~= task_files(files_before).push(source_files(sources@)[i as int]));
        assert(source_files(sources@).take(i + 1) =~= source_files(sources@).take(i as int).push(
            source_files(sources@)[i as int],
        ));
        i += 1;
    }
    assert(sources@.take(i as int) =~= sources@);
    assert(source_files(sources@).take(i as int) =~= source_files(sources@));
    files
}

/// The milestones file: what reading it gave and, where it has a text, the
/// milestones of that text or the reason why it has none.
#[derive(Debug)]
pub struct MilestonesSource {
    pub read: FileRead,
    pub record: Result<Vec<Milestone>, String>,
}

/// The path of the milestones file from the project root.
pub open spec fn milestones_rel() -> Seq<char> {
    project::inside(project::NEST_DIR@, project::MILESTONES_FILE@)
}

/// The findings so far and one for each milestone whose id came before.
pub open spec fn milestone_ids_checked(
    acc: Seq<FindingView>,
    m: Seq<MilestoneView>,
    i: int,
) -> Seq<FindingView>
    decreases m.len() - i,
{
    if i < 0 || i >= m.len() {
        acc
    } else {
        let next = if exists|j: int| 0 <= j < i && (#[trigger] m[j]).id == m[i].id {
            acc.push(
                at_field(
                    file_error(
                        milestones_rel(),
                        "milestone.duplicate_id"@,
                        "duplicate milestone id "@ + text::decimal(m[i].id as int),
                        "renumber one of the milestones"@,
                    ),
                    "id"@,
                ),
            )
        } else {
            acc
        };
        milestone_ids_checked(next, m, i + 1)
    }
}

/// The findings so far and what the text of the milestones file adds, given
/// its raw document and its milestones.
pub open spec fn milestones_text_checked(
    acc: Seq<FindingView>,
    raw: Result<DocView, Seq<char>>,
    record: Result<Vec<Milestone>, String>,
) -> Seq<FindingView> {
    let known = array_checked(
        acc,
        milestones_rel(),
        raw,
        KNOWN_MILESTONE_FIELDS@,
        "milestones"@,
    );
    match record {
        Ok(m) => milestone_ids_checked(known, model::milestones(m@), 0),
        Err(e) => known.push(
            file_error(
                milestones_rel(),
                "milestones.parse_error"@,
                "milestones.toml invalid: "@ + e@,
                "fix the TOML syntax or restore the file"@,
            ),
        ),
    }
}

/// The findings so far and what the milestones file adds.
pub open spec fn milestones_checked(acc: Seq<FindingView>, s: MilestonesSource) -> Seq<
    FindingView,
> {
    match s.read {
        FileRead::Missing => acc,
        FileRead::Unreadable(e) => acc.push(
            file_error(
                milestones_rel(),
                "milestones.read_error"@,
                "cannot read milestones.toml: "@ + e@,
                "restore the file"@,
            ),
        ),
        FileRead::Text(t) => milestones_text_checked(acc, doc::toml_reads(t@), s.record),
    }
}

/// The milestones that the milestones file holds.
pub open spec fn source_milestones(s: MilestonesSource) -> Seq<MilestoneView> {
    match (s.read, s.record) {
        (FileRead::Text(_), Ok(m)) => model::milestones(m@),
        _ => Seq::empty(),
    }
}

fn check_milestone_ids(out: &mut Vec<Finding>, file: &str, m: &Vec<Milestone>)
    requires
        file@ == milestones_rel(),
    ensures
        findings(final(out)@) == milestone_ids_checked(
            findings(old(out)@),
            model::milestones(m@),
            0,
        ),
{
    let ghost all = model::milestones(m@);
    let ghost target = milestone_ids_checked(findings(out@), all, 0);
    let mut seen: Vec<i64> = Vec::new();
    let mut i: usize = 0;
    while i < m.len()
        invariant
            file@ == milestones_rel(),
            i <= m.len(),
            all == model::milestones(m@),
            seen.len() == i,
            forall|j: int| 0 <= j < i ==> #[trigger] seen@[j] == all[j].id,
            target == milestone_ids_checked(findings(out@), all, i as int),
        decreases m.len() - i,
    {
        let id = m[i].id;
        assert(all[i as int].id == id);
        let came_before = holds(&seen, id);
        proof {
            if came_before {
                let j = choose|j: int| 0 <= j < seen@.len() && seen@[j] == id;
                assert(all[j].id == id);
            } else {
                assert forall|j: int| 0 <= j < i implies (#[trigger] all[j]).id != id by {
                    assert(seen@[j] == all[j].id);
                }
            }
        }
        if came_before {
            let n = int_text(id);
            report(
                out,
                Finding::error(
                    file,
                    "milestone.duplicate_id",
                    cat("duplicate milestone id ", n.as_str()),
                    "renumber one of the milestones",
                ).with_field("id"),
            );
        }
        seen.push(id);
        i += 1;
    }
}

/// Inspects the text of the milestones file, given its raw document and its
/// milestones.
pub fn inspect_milestones_text(
    out: &mut Vec<Finding>,
    raw: &Result<Doc, String>,
    record: &Result<Vec<Milestone>, String>,
)
    ensures
        findings(final(out)@) == milestones_text_checked(
            findings(old(out)@),
            doc_read(*raw),
            *record,
        ),
{
    let file = join_path(project::NEST_DIR, project::MILESTONES_FILE);
    check_array(out, file.as_str(), raw, &KNOWN_MILESTONE_FIELDS, "milestones");
    match record {
        Ok(m) => check_milestone_ids(out, file.as_str(), m),
        Err(e) => {
            report(
                out,
                Finding::error(
                    file.as_str(),
                    "milestones.parse_error",
                    cat("milestones.toml invalid: ", e.as_str()),
                    "fix the TOML syntax or restore the file",
                ),
            );
        },
    }
}

/// Inspects the milestones file and gives its milestones.
pub fn inspect_milestones(source: MilestonesSource, out: &mut Vec<Finding>) -> (r: Vec<Milestone>)
    ensures
        findings(final(out)@) == milestones_checked(findings(old(out)@), source),
        model::milestones(r@) == source_milestones(source),
{
    match source.read {
        FileRead::Missing => {
            let none: Vec<Milestone> = Vec::new();
            assert(model::milestones(none@) =~= Seq::empty());
            none
        },
        FileRead::Unreadable(e) => {
            let file = join_path(project::NEST_DIR, project::MILESTONES_FILE);
            report(
                out,
                Finding::error(
                    file.as_str(),
                    "milestones.read_error",
                    cat("cannot read milestones.toml: ", e.as_str()),
                    "restore the file",
                ),
            );
            let none: Vec<Milestone> = Vec::new();
            assert(model::milestones(none@) =~= Seq::empty());
            none
        },
        FileRead::Text(t) => {
            let raw = read_doc(t.as_str());
            inspect_milestones_text(out, &raw, &source.record);
            match source.record {
                Ok(m) => m,
                Err(_) => {
                    let none: Vec<Milestone> = Vec::new();
                    assert(model::milestones(none@) =~= Seq::empty());
                    none
                },
            }
        },
    }
}

/// The layout of a project and its config: whether the config file and the
/// tasks folder are there, whether the folder is a git repository, the text of
/// the config and the config of that text or the reason why there is none.
#[derive(Debug)]
pub struct ConfigSource {
    pub has_config: bool,
    pub has_tasks: bool,
    pub has_git: bool,
    pub text: Option<String>,
    pub record: Result<ProjectConfig, String>,
}

/// The path of the config file from the project root.
pub open spec fn config_rel() -> Seq<char> {
    project::inside(project::NEST_DIR@, project::CONFIG_FILE@)
}

/// The findings so far and what missing parts of the layout add.
pub open spec fn layout_checked(acc: Seq<FindingView>, has_config: bool, has_tasks: bool) -> Seq<
    FindingView,
> {
    let configured = if has_config {
        acc
    } else {
        acc.push(
            file_error(
                config_rel(),
                "project.missing_config"@,
                "missing .nest/config.toml"@,
                "re-run jay init in a fresh folder or restore the config"@,
            ),
        )
    };
    if has_tasks {
        configured
    } else {
        configured.push(
            file_error(
                project::inside(project::NEST_DIR@, project::TASKS_DIR@),
                "project.missing_tasks_dir"@,
                "missing .nest/tasks/ directory"@,
                "create the directory (jay init does this automatically)"@,
            ),
        )
    }
}

/// The findings so far and what the config adds, given its raw document.
pub open spec fn config_checked(
    acc: Seq<FindingView>,
    raw: Option<DocView>,
    record: Result<ProjectConfig, String>,
    has_git: bool,
) -> Seq<FindingView> {
    match record {
        Err(e) => acc.push(
            file_error(
                config_rel(),
                "config.parse_error"@,
                "config.toml invalid: "@ + e@,
                "fix the TOML syntax or restore the file"@,
            ),
        ),
        Ok(cfg) => {
            let known = match raw {
                Some(d) => unknown_checked(
                    acc,
                    config_rel(),
                    d,
                    KNOWN_CONFIG_FIELDS@,
                    NO_LEGACY_FIELDS@,
                    "config"@,
                ),
                None => acc,
            };
            if project::effective_integration(cfg@) == GitIntegration::Auto && !has_git {
                known.push(
                    file_warning(
                        config_rel(),
                        "project.git_missing"@,
                        "git_integration is 'auto' but the folder is not a git repository"@,
                        "run git init, or set git_integration = \"off\" to silence"@,
                    ),
                )
            } else {
                known
            }
        },
    }
}

/// The document of an optional text, where it is one.
pub open spec fn opt_read(text: Option<Seq<char>>) -> Option<DocView> {
    match text {
        Some(t) => match doc::toml_reads(t) {
            Ok(d) => Some(d),
            Err(_) => None,
        },
        None => None,
    }
}

/// The findings so far and what the layout and the config add.
pub open spec fn project_checked(acc: Seq<FindingView>, s: ConfigSource) -> Seq<FindingView> {
    config_checked(
        layout_checked(acc, s.has_config, s.has_tasks),
        opt_read(text::opt_text(s.text)),
        s.record,
        s.has_git,
    )
}

/// Inspects a config, given its raw document.
pub fn inspect_config(
    out: &mut Vec<Finding>,
    raw: Option<&Doc>,
    record: &Result<ProjectConfig, String>,
    has_git: bool,
)
    ensures
        findings(final(out)@) == config_checked(
            findings(old(out)@),
            doc::opt_doc(raw),
            *record,
            has_git,
        ),
{
    let file = join_path(project::NEST_DIR, project::CONFIG_FILE);
    match record {
        Err(e) => {
            report(
                out,
                Finding::error(
                    file.as_str(),
                    "config.parse_error",
                    cat("config.toml invalid: ", e.as_str()),
                    "fix the TOML syntax or restore the file",
                ),
            );
        },
        Ok(cfg) => {
            if let Some(d) = raw {
                report_unknown_fields(
                    out,
                    file.as_str(),
                    d,
                    &KNOWN_CONFIG_FIELDS,
                    &NO_LEGACY_FIELDS,
                    "config",
                );
            }
            if cfg.effective_git_integration() == GitIntegration::Auto && !has_git {
                report(
                    out,
                    Finding::warning(
                        file.as_str(),
                        "project.git_missing",
                        owned("git_integration is 'auto' but the folder is not a git repository"),
                        "run git init, or set git_integration = \"off\" to silence",
                    ),
                );
            }
        },
    }
}

/// Inspects the layout of a project and its config.
pub fn inspect_layout_and_config(source: &ConfigSource, out: &mut Vec<Finding>)
    ensures
        findings(final(out)@) == project_checked(findings(old(out)@), *source),
{
    if !source.has_config {
        let file = join_path(project::NEST_DIR, project::CONFIG_FILE);
        report(
            out,
            Finding::error(
                file.as_str(),
                "project.missing_config",
                owned("missing .nest/config.toml"),
                "re-run jay init in a fresh folder or restore the config",
            ),
        );
    }
    if !source.has_tasks {
        let file = join_path(project::NEST_DIR, project::TASKS_DIR);
        report(
            out,
            Finding::error(
                file.as_str(),
                "project.missing_tasks_dir",
                owned("missing .nest/tasks/ directory"),
                "create the directory (jay init does this automatically)",
            ),
        );
    }
    match &source.text {
        Some(t) => match read_doc(t.as_str()) {
            Ok(d) => inspect_config(out, Some(&d), &source.record, source.has_git),
            Err(_) => inspect_config(out, None, &source.record, source.has_git),
        },
        None => inspect_config(out, None, &source.record, source.has_git),
    }
}

/// The records among task files, in order.
pub open spec fn file_tasks(files: Seq<TaskFileView>) -> Seq<TaskView>
    decreases files.len(),
{
    if files.len() == 0 {
        Seq::empty()
    } else {
        let front = file_tasks(files.drop_last());
        match files.last().task {
            Some(t) => front.push(t),
            None => front,
        }
    }
}

/// The first task with the given id.
pub open spec fn find_task(tasks: Seq<TaskView>, id: i64) -> Option<TaskView>
    decreases tasks.len(),
{
    if tasks.len() == 0 {
        None
    } else if tasks[0].id == id {
        Some(tasks[0])
    } else {
        find_task(tasks.skip(1), id)
    }
}

/// Whether some task has the given id.
pub open spec fn has_task(tasks: Seq<TaskView>, id: i64) -> bool {
    find_task(tasks, id) is Some
}

/// Whether some milestone has the given id.
pub open spec fn has_milestone(milestones: Seq<MilestoneView>, id: i64) -> bool {
    exists|i: int| 0 <= i < milestones.len() && (#[trigger] milestones[i]).id == id
}

/// The findings so far and what a reference to a task adds.
pub open spec fn reference_checked(
    acc: Seq<FindingView>,
    file: Seq<char>,
    tasks: Seq<TaskView>,
    field: Seq<char>,
    target: Option<i64>,
) -> Seq<FindingView> {
    match target {
        Some(id) => if has_task(tasks, id) {
            acc
        } else {
            acc.push(
                at_field(
                    file_error(
                        file,
                        "task.dangling_ref"@,
                        field + " = "@ + text::decimal(id as int)
                            + " does not reference an existing task"@,
                        "fix or clear the reference"@,
                    ),
                    field,
                ),
            )
        },
        None => acc,
    }
}

/// The findings so far and what a reference to a milestone adds.
pub open spec fn milestone_reference_checked(
    acc: Seq<FindingView>,
    file: Seq<char>,
    milestones: Seq<MilestoneView>,
    target: Option<i64>,
) -> Seq<FindingView> {
    match target {
        Some(id) => if has_milestone(milestones, id) {
            acc
        } else {
            acc.push(
                at_field(
                    file_error(
                        file,
                        "task.dangling_ref"@,
                        "milestone_id = "@ + text::decimal(id as int)
                            + " does not reference an existing milestone"@,
                        "fix or clear the reference, or add the milestone"@,
                    ),
                    "milestone_id"@,
                ),
            )
        },
        None => acc,
    }
}

/// Whether `ids[i]` came before among the ids that are not `own`.
pub open spec fn repeated(ids: Seq<i64>, own: i64, i: int) -> bool {
    exists|j: int| 0 <= j < i && #[trigger] ids[j] == ids[i] && ids[j] != own
}

/// The findings so far and what the `i`-th dependency of a task adds: on itself,
/// twice, or on a missing task.
pub open spec fn dependency_step(
    acc: Seq<FindingView>,
    file: Seq<char>,
    tasks: Seq<TaskView>,
    t: TaskView,
    i: int,
) -> Seq<FindingView> {
    let d = t.depends_on[i];
    if d == t.id {
        acc.push(
            at_field(
                file_error(
                    file,
                    "task.depends_on_self"@,
                    "task "@ + text::decimal(t.id as int) + " depends on itself"@,
                    "remove the self-dependency"@,
                ),
                "depends_on"@,
            ),
        )
    } else if repeated(t.depends_on, t.id, i) {
        acc.push(
            at_field(
                file_error(
                    file,
                    "task.depends_on_duplicate"@,
                    "duplicate dependency #"@ + text::decimal(d as int) + " on task "@
                        + text::decimal(t.id as int),
                    "remove the duplicate id"@,
                ),
                "depends_on"@,
            ),
        )
    } else if !has_task(tasks, d) {
        acc.push(
            at_field(
                file_error(
                    file,
                    "task.depends_on_missing"@,
                    "task "@ + text::decimal(t.id as int) + " depends on missing task #"@
                        + text::decimal(d as int),
                    "remove the edge or create/restore the prerequisite"@,
                ),
                "depends_on"@,
            ),
        )
    } else {
        acc
    }
}

/// The findings so far and what the dependencies of a task from the `i`-th on
/// add: on itself, twice, or on a missing task.
pub open spec fn dependencies_checked(
    acc: Seq<FindingView>,
    file: Seq<char>,
    tasks: Seq<TaskView>,
    t: TaskView,
    i: int,
) -> Seq<FindingView>
    decreases t.depends_on.len() - i,
{
    if i < 0 || i >= t.depends_on.len() {
        acc
    } else {
        dependencies_checked(dependency_step(acc, file, tasks, t, i), file, tasks, t, i + 1)
    }
}

/// The findings so far and one where the `i`-th dependency of a task is not closed.
pub open spec fn prerequisite_step(
    acc: Seq<FindingView>,
    file: Seq<char>,
    tasks: Seq<TaskView>,
    t: TaskView,
    i: int,
) -> Seq<FindingView> {
    let d = t.depends_on[i];
    match find_task(tasks, d) {
        Some(dep) => if dep.status != TaskStatus::Closed {
            acc.push(
                at_field(
                    file_warning(
                        file,
                        "task.dependency_inconsistency"@,
                        "task "@ + text::decimal(t.id as int) + " is "@ + model::status_name(
                            t.status,
                        ) + " while prerequisite #"@ + text::decimal(d as int) + " is "@
                            + model::status_name(dep.status)
                            + " (e.g. reopened or cancelled); jay never rewinds dependents automatically"@,
                        "review the dependent task: re-verify it against the reopened prerequisite, or cancel/rewind it explicitly"@,
                    ),
                    "depends_on"@,
                ),
            )
        } else {
            acc
        },
        None => acc,
    }
}

/// The findings so far and one for each dependency from the `i`-th on that is
/// not closed.
pub open spec fn prerequisites_checked(
    acc: Seq<FindingView>,
    file: Seq<char>,
    tasks: Seq<TaskView>,
    t: TaskView,
    i: int,
) -> Seq<FindingView>
    decreases t.depends_on.len() - i,
{
    if i < 0 || i >= t.depends_on.len() {
        acc
    } else {
        prerequisites_checked(prerequisite_step(acc, file, tasks, t, i), file, tasks, t, i + 1)
    }
}

/// Whether a task is active or done.
pub open spec fn under_way(t: TaskView) -> bool {
    t.status == TaskStatus::Started || t.status == TaskStatus::Review || t.status
        == TaskStatus::Closed
}

/// The findings so far and what the references of a task add.
pub open spec fn references_checked(
    acc: Seq<FindingView>,
    file: Seq<char>,
    tasks: Seq<TaskView>,
    milestones: Seq<MilestoneView>,
    t: TaskView,
) -> Seq<FindingView> {
    let a1 = reference_checked(acc, file, tasks, "parent_id"@, t.parent_id);
    let a2 = reference_checked(a1, file, tasks, "epic_id"@, t.epic_id);
    let a3 = reference_checked(a2, file, tasks, "follow_up_of"@, t.follow_up_of);
    let a4 = milestone_reference_checked(a3, file, milestones, t.milestone_id);
    let a5 = dependencies_checked(a4, file, tasks, t, 0);
    if under_way(t) {
        prerequisites_checked(a5, file, tasks, t, 0)
    } else {
        a5
    }
}

/// The findings so far and what the references of task files from the `i`-th
/// on add.
pub open spec fn files_checked(
    acc: Seq<FindingView>,
    files: Seq<TaskFileView>,
    milestones: Seq<MilestoneView>,
    i: int,
) -> Seq<FindingView>
    decreases files.len() - i,
{
    if i < 0 || i >= files.len() {
        acc
    } else {
        let next = match files[i].task {
            Some(t) => references_checked(acc, files[i].rel, file_tasks(files), milestones, t),
            None => acc,
        };
        files_checked(next, files, milestones, i + 1)
    }
}

/// The first file whose record has the given id.
pub open spec fn find_file(files: Seq<TaskFileView>, id: i64) -> Option<Seq<char>>
    decreases files.len(),
{
    if files.len() == 0 {
        None
    } else if files[0].task matches Some(t) && t.id == id {
        Some(files[0].rel)
    } else {
        find_file(files.skip(1), id)
    }
}

/// Ids with a hash sign each.
pub open spec fn hashed(ids: Seq<i64>) -> Seq<Seq<char>> {
    ids.map_values(|i: i64| "#"@ + text::decimal(i as int))
}

/// The findings so far and one on each task of a cycle from the `i`-th on.
pub open spec fn cycle_checked(
    acc: Seq<FindingView>,
    files: Seq<TaskFileView>,
    cycle: Seq<i64>,
    i: int,
) -> Seq<FindingView>
    decreases cycle.len() - i,
{
    if i < 0 || i >= cycle.len() {
        acc
    } else {
        let next = match find_file(files, cycle[i]) {
            Some(rel) => acc.push(
                at_field(
                    file_error(
                        rel,
                        "task.dependency_cycle"@,
                        "dependency cycle: "@ + text::joined(hashed(cycle), " -> "@),
                        "remove one of the edges in the cycle"@,
                    ),
                    "depends_on"@,
                ),
            ),
            None => acc,
        };
        cycle_checked(next, files, cycle, i + 1)
    }
}

/// The dependencies among tasks.
pub open spec fn dependency_graph(tasks: Seq<TaskView>) -> Seq<graph::NodeView> {
    tasks.map_values(|t: TaskView| graph::NodeView { id: t.id, to: t.depends_on })
}

/// The findings so far and what checking task files against each other adds:
/// dangling references, wrong dependencies, and the first dependency cycle.
pub open spec fn cross_checked(
    acc: Seq<FindingView>,
    files: Seq<TaskFileView>,
    milestones: Seq<MilestoneView>,
) -> Seq<FindingView> {
    let referenced = files_checked(acc, files, milestones, 0);
    let cycles = graph::all_cycles(dependency_graph(file_tasks(files)));
    if cycles.len() > 0 {
        cycle_checked(referenced, files, cycles[0], 0)
    } else {
        referenced
    }
}

/// Ids with a hash sign each.
pub fn hash_ids(ids: &Vec<i64>) -> (r: Vec<String>)
    ensures
        text::texts(r@) == hashed(ids@),
{
    let mut out: Vec<String> = Vec::new();
    let mut i: usize = 0;
    while i < ids.len()
        invariant
            i <= ids.len(),
            text::texts(out@) == hashed(ids@).take(i as int),
        decreases ids.len() - i,
    {
        let ghost before = out@;
        let n = int_text(ids[i]);
        out.push(cat("#", n.as_str()));
        assert(text::texts(out@) =~= text::texts(before).push(hashed(ids@)[i as int]));
        assert(hashed(ids@).take(i + 1) =~= hashed(ids@).take(i as int).push(
            hashed(ids@)[i as int],
        ));
        i += 1;
    }
    assert(hashed(ids@).take(i as int) =~= hashed(ids@));
    out
}

/// The dependencies among tasks.
pub fn dependency_nodes(tasks: &Vec<Task>) -> (r: Vec<Node>)
    ensures
        graph::nodes(r@) == dependency_graph(model::tasks(tasks@)),
{
    let mut out: Vec<Node> = Vec::new();
    let ghost target = dependency_graph(model::tasks(tasks@));
    let mut i: usize = 0;
    while i < tasks.len()
        invariant
            i <= tasks.len(),
            target == dependency_graph(model::tasks(tasks@)),
            graph::nodes(out@) == target.take(i as int),
        decreases tasks.len() - i,
    {
        let ghost before = graph::nodes(out@);
        out.push(Node { id: tasks[i].id, to: ids_clone(&tasks[i].depends_on) });
        assert(graph::nodes(out@) =~= before.push(target[i as int]));
        assert(target.take(i + 1) =~= target.take(i as int).push(target[i as int]));
        i += 1;
    }
    assert(target.take(i as int) =~= target);
    out
}

/// Finds dependency cycles (each as id -> ... -> id), searching from every
/// task in turn.
pub fn dependency_cycles(tasks: &Vec<Task>) -> (r: Vec<Vec<i64>>)
    ensures
        graph::id_lists(r@) == graph::all_cycles(dependency_graph(model::tasks(tasks@))),
{
    let nodes = dependency_nodes(tasks);
    find_cycles(&nodes)
}

/// The position of the first task with the given id.
pub fn task_position(tasks: &Vec<Task>, id: i64) -> (r: Option<usize>)
    ensures
        match r {
            Some(i) => i < tasks.len() && find_task(model::tasks(tasks@), id) == Some(
                tasks@[i as int]@,
            ) && tasks@[i as int].id == id,
            None => find_task(model::tasks(tasks@), id) is None,
        },
{
    let ghost all = model::tasks(tasks@);
    let mut i: usize = 0;
    assert(all.skip(0) =~= all);
    while i < tasks.len()
        invariant
            i <= tasks.len(),
            all == model::tasks(tasks@),
            find_task(all, id) == find_task(all.skip(i as int), id),
        decreases tasks.len() - i,
    {
        assert(all.skip(i as int)[0] == tasks@[i as int]@);
        if tasks[i].id == id {
            return Some(i);
        }
        assert(all.skip(i as int).skip(1) =~= all.skip(i + 1));
        i += 1;
    }
    None
}

fn check_reference(
    out: &mut Vec<Finding>,
    file: &str,
    tasks: &Vec<Task>,
    field: &str,
    target: Option<i64>,
)
    ensures
        findings(final(out)@) == reference_checked(
            findings(old(out)@),
            file@,
            model::tasks(tasks@),
            field@,
            target,
        ),
{
    if let Some(id) = target {
        if task_position(tasks, id).is_none() {
            let n = int_text(id);
            let head = cat3(field, " = ", n.as_str());
            report(
                out,
                Finding::error(
                    file,
                    "task.dangling_ref",
                    cat(head.as_str(), " does not reference an existing task"),
                    "fix or clear the reference",
                ).with_field(field),
            );
        }
    }
}

fn check_milestone_reference(
    out: &mut Vec<Finding>,
    file: &str,
    milestones: &Vec<Milestone>,
    target: Option<i64>,
)
    ensures
        findings(final(out)@) == milestone_reference_checked(
            findings(old(out)@),
            file@,
            model::milestones(milestones@),
            target,
        ),
{
    let id = match target {
        Some(id) => id,
        None => {
            return;
        },
    };
    let mut i: usize = 0;
    let ghost all = model::milestones(milestones@);
    let ghost before = findings(out@);
    while i < milestones.len()
        invariant
            i <= milestones.len(),
            all == model::milestones(milestones@),
            findings(out@) == before,
            before == findings(old(out)@),
            target == Some(id),
            forall|j: int| 0 <= j < i ==> (#[trigger] all[j]).id != id,
        decreases milestones.len() - i,
    {
        if milestones[i].id == id {
            assert(all[i as int].id == id);
            return;
        }
        i += 1;
    }
    let n = int_text(id);
    report(
        out,
        Finding::error(
            file,
            "task.dangling_ref",
            cat3("milestone_id = ", n.as_str(), " does not reference an existing milestone"),
            "fix or clear the reference, or add the milestone",
        ).with_field("milestone_id"),
    );
}

/// Whether `ids[i]` came before among the ids that are not `own`.
fn is_repeated(ids: &Vec<i64>, own: i64, i: usize) -> (r: bool)
    requires
        i < ids.len(),
    ensures
        r == repeated(ids@, own, i as int),
{
    let mut j: usize = 0;
    while j < i
        invariant
            j <= i < ids.len(),
            forall|k: int| 0 <= k < j ==> !(#[trigger] ids@[k] == ids@[i as int] && ids@[k] != own),
        decreases i - j,
    {
        if ids[j] == ids[i] && ids[j] != own {
            return true;
        }
        j += 1;
    }
    false
}

fn check_dependencies(out: &mut Vec<Finding>, file: &str, tasks: &Vec<Task>, t: &Task)
    ensures
        findings(final(out)@) == dependencies_checked(
            findings(old(out)@),
            file@,
            model::tasks(tasks@),
            t@,
            0,
        ),
{
    let ghost all = model::tasks(tasks@);
    let ghost target = dependencies_checked(findings(out@), file@, all, t@, 0);
    let mut i: usize = 0;
    while i < t.depends_on.len()
        invariant
            i <= t.depends_on.len(),
            all == model::tasks(tasks@),
            target == dependencies_checked(findings(out@), file@, all, t@, i as int),
        decreases t.depends_on.len() - i,
    {
        let d = t.depends_on[i];
        let own = int_text(t.id);
        let other = int_text(d);
        if d == t.id {
            report(
                out,
                Finding::error(
                    file,
                    "task.depends_on_self",
                    cat3("task ", own.as_str(), " depends on itself"),
                    "remove the self-dependency",
                ).with_field("depends_on"),
            );
        } else if is_repeated(&t.depends_on, t.id, i) {
            let head = cat3("duplicate dependency #", other.as_str(), " on task ");
            report(
                out,
                Finding::error(
                    file,
                    "task.depends_on_duplicate",
                    cat(head.as_str(), own.as_str()),
                    "remove the duplicate id",
                ).with_field("depends_on"),
            );
        } else if task_position(tasks, d).is_none() {
            let head = cat3("task ", own.as_str(), " depends on missing task #");
            report(
                out,
                Finding::error(
                    file,
                    "task.depends_on_missing",
                    cat(head.as_str(), other.as_str()),
                    "remove the edge or create/restore the prerequisite",
                ).with_field("depends_on"),
            );
        }
        i += 1;
    }
}

fn check_prerequisites(out: &mut Vec<Finding>, file: &str, tasks: &Vec<Task>, t: &Task)
    ensures
        findings(final(out)@) == prerequisites_checked(
            findings(old(out)@),
            file@,
            model::tasks(tasks@),
            t@,
            0,
        ),
{
    let ghost all = model::tasks(tasks@);
    let ghost target = prerequisites_checked(findings(out@), file@, all, t@, 0);
    let mut i: usize = 0;
    while i < t.depends_on.len()
        invariant
            i <= t.depends_on.len(),
            all == model::tasks(tasks@),
            target == prerequisites_checked(findings(out@), file@, all, t@, i as int),
        decreases t.depends_on.len() - i,
    {
        let d = t.depends_on[i];
        if let Some(at) = task_position(tasks, d) {
            let status = tasks[at].status;
            if status != TaskStatus::Closed {
                let own = int_text(t.id);
                let other = int_text(d);
                let a = cat3("task ", own.as_str(), " is ");
                let b = cat3(a.as_str(), t.status.as_str(), " while prerequisite #");
                let c = cat3(b.as_str(), other.as_str(), " is ");
                report(
                    out,
                    Finding::warning(
                        file,
                        "task.dependency_inconsistency",
                        cat3(
                            c.as_str(),
                            status.as_str(),
                            " (e.g. reopened or cancelled); jay never rewinds dependents automatically",
                        ),
                        "review the dependent task: re-verify it against the reopened prerequisite, or cancel/rewind it explicitly",
                    ).with_field("depends_on"),
                );
            }
        }
        i += 1;
    }
}

/// Copies of the records among task files.
fn records(files: &Vec<TaskFile>) -> (r: Vec<Task>)
    ensures
        model::tasks(r@) == file_tasks(task_files(files@)),
{
    let mut out: Vec<Task> = Vec::new();
    let ghost all = task_files(files@);
    let mut i: usize = 0;
    assert(model::tasks(out@) =~= file_tasks(all.take(0)));
    while i < files.len()
        invariant
            i <= files.len(),
            all == task_files(files@),
            model::tasks(out@) == file_tasks(all.take(i as int)),
        decreases files.len() - i,
    {
        assert(all.take(i + 1).drop_last() =~= all.take(i as int));
        assert(all.take(i + 1).last() == files@[i as int]@);
        let ghost before = out@;
        if let Some(t) = &files[i].task {
            out.push(t.clone());
            assert(model::tasks(out@) =~= model::tasks(before).push(t@));
        }
        i += 1;
    }
    assert(all.take(i as int) =~= all);
    out
}

fn file_position(files: &Vec<TaskFile>, id: i64) -> (r: Option<usize>)
    ensures
        match r {
            Some(i) => i < files.len() && find_file(task_files(files@), id) == Some(
                files@[i as int].rel@,
            ),
            None => find_file(task_files(files@), id) is None,
        },
{
    let ghost all = task_files(files@);
    let mut i: usize = 0;
    assert(all.skip(0) =~= all);
    while i < files.len()
        invariant
            i <= files.len(),
            all == task_files(files@),
            find_file(all, id) == find_file(all.skip(i as int), id),
        decreases files.len() - i,
    {
        assert(all.skip(i as int)[0] == files@[i as int]@);
        if let Some(t) = &files[i].task {
            if t.id == id {
                return Some(i);
            }
        }
        assert(all.skip(i as int).skip(1) =~= all.skip(i + 1));
        i += 1;
    }
    None
}

/// Checks task files against each other: dangling references, wrong
/// dependencies, unfinished prerequisites, and dependency cycles across the
/// project (the first cycle found is reported on each involved task; removing
/// any edge breaks it).
pub fn cross_check_tasks(
    files: &Vec<TaskFile>,
    milestones: &Vec<Milestone>,
    out: &mut Vec<Finding>,
)
    ensures
        findings(final(out)@) == cross_checked(
            findings(old(out)@),
            task_files(files@),
            model::milestones(milestones@),
        ),
{
    let tasks = records(files);
    let ghost all = task_files(files@);
    let ghost stones = model::milestones(milestones@);
    let ghost target = files_checked(findings(out@), all, stones, 0);
    let mut i: usize = 0;
    while i < files.len()
        invariant
            i <= files.len(),
            all == task_files(files@),
            stones == model::milestones(milestones@),
            model::tasks(tasks@) == file_tasks(all),
            target == files_checked(findings(out@), all, stones, i as int),
        decreases files.len() - i,
    {
        assert(all[i as int] == files@[i as int]@);
        if let Some(t) = &files[i].task {
            let rel = files[i].rel.as_str();
            check_reference(out, rel, &tasks, "parent_id", t.parent_id);
            check_reference(out, rel, &tasks, "epic_id", t.epic_id);
            check_reference(out, rel, &tasks, "follow_up_of", t.follow_up_of);
            check_milestone_reference(out, rel, milestones, t.milestone_id);
            check_dependencies(out, rel, &tasks, t);
            if t.status == TaskStatus::Started || t.status == TaskStatus::Review || t.status
                == TaskStatus::Closed {
                check_prerequisites(out, rel, &tasks, t);
            }
        }
        i += 1;
    }
    let cycles = dependency_cycles(&tasks);
    let ghost cycle_lists = graph::all_cycles(dependency_graph(file_tasks(all)));
    assert(cycles.len() == cycle_lists.len());
    if cycles.len() > 0 {
        let cycle = &cycles[0];
        assert(cycle@ == cycle_lists[0]);
        let hashes = hash_ids(cycle);
        let desc = join(&hashes, " -> ");
        let ghost whole = cycle_checked(findings(out@), all, cycle@, 0);
        let mut k: usize = 0;
        while k < cycle.len()
            invariant
                k <= cycle.len(),
                all == task_files(files@),
                desc@ == text::joined(hashed(cycle@), " -> "@),
                whole == cycle_checked(findings(out@), all, cycle@, k as int),
            decreases cycle.len() - k,
        {
            if let Some(at) = file_position(files, cycle[k]) {
                report(
                    out,
                    Finding::error(
                        files[at].rel.as_str(),
                        "task.dependency_cycle",
                        cat("dependency cycle: ", desc.as_str()),
                        "remove one of the edges in the cycle",
                    ).with_field("depends_on"),
                );
            }
            k += 1;
        }
    }
}

/// A knowledge base file: its kind, what reading it gave and, where it has a
/// text, the entries of that text or the reason why it has none.
#[derive(Debug)]
pub struct KbSource {
    pub kind: KnowledgeKind,
    pub read: FileRead,
    pub record: Result<EntriesFile, String>,
}

/// The path of a knowledge base file from the project root.
pub open spec fn kb_rel(kind: KnowledgeKind) -> Seq<char> {
    project::inside(
        project::inside(project::NEST_DIR@, project::KB_DIR@),
        model::kind_file(kind),
    )
}

/// Whether some entry has the given id.
pub open spec fn has_entry(entries: Seq<KnowledgeEntryView>, id: i64) -> bool {
    exists|i: int| 0 <= i < entries.len() && (#[trigger] entries[i]).id == id
}

/// The findings so far and what the designation of a current summary adds.
pub open spec fn designation_checked(
    acc: Seq<FindingView>,
    file: Seq<char>,
    f: EntriesFileView,
) -> Seq<FindingView> {
    match f.current_summary {
        Some(cs) => if has_entry(f.entries, cs.entry_id) {
            acc
        } else {
            acc.push(
                at_field(
                    file_error(
                        file,
                        "kb.current_summary_missing"@,
                        "current_summary points to missing status entry #"@ + text::decimal(
                            cs.entry_id as int,
                        ),
                        "designate an existing entry (jay kb set-current <id>) or remove the pointer"@,
                    ),
                    "current_summary"@,
                ),
            )
        },
        None => acc,
    }
}

/// The findings so far and what the `i`-th supersession reference of an entry adds.
pub open spec fn supersedes_step(
    acc: Seq<FindingView>,
    file: Seq<char>,
    kind: KnowledgeKind,
    entries: Seq<KnowledgeEntryView>,
    e: KnowledgeEntryView,
    i: int,
) -> Seq<FindingView> {
    let s = e.supersedes[i];
    if s == e.id {
        acc.push(
            at_field(
                file_error(
                    file,
                    "kb.supersedes_self"@,
                    "entry #"@ + text::decimal(e.id as int) + " supersedes itself"@,
                    "remove the self-reference"@,
                ),
                "supersedes"@,
            ),
        )
    } else if !has_entry(entries, s) {
        acc.push(
            at_field(
                file_error(
                    file,
                    "kb.supersedes_missing"@,
                    model::kind_name(kind) + " entry #"@ + text::decimal(e.id as int)
                        + " supersedes missing entry #"@ + text::decimal(s as int),
                    "fix or remove the supersession reference"@,
                ),
                "supersedes"@,
            ),
        )
    } else {
        acc
    }
}

/// The findings so far and what the supersession references of an entry from
/// the `i`-th on add.
pub open spec fn supersedes_checked(
    acc: Seq<FindingView>,
    file: Seq<char>,
    kind: KnowledgeKind,
    entries: Seq<KnowledgeEntryView>,
    e: KnowledgeEntryView,
    i: int,
) -> Seq<FindingView>
    decreases e.supersedes.len() - i,
{
    if i < 0 || i >= e.supersedes.len() {
        acc
    } else {
        supersedes_checked(supersedes_step(acc, file, kind, entries, e, i), file, kind, entries, e, i + 1)
    }
}

/// The findings so far and what the supersession references of entries from
/// the `i`-th on add.
pub open spec fn supersessions_checked(
    acc: Seq<FindingView>,
    file: Seq<char>,
    kind: KnowledgeKind,
    entries: Seq<KnowledgeEntryView>,
    i: int,
) -> Seq<FindingView>
    decreases entries.len() - i,
{
    if i < 0 || i >= entries.len() {
        acc
    } else {
        supersessions_checked(
            supersedes_checked(acc, file, kind, entries, entries[i], 0),
            file,
            kind,
            entries,
            i + 1,
        )
    }
}

/// Whether an entry is tagged as current, in any mix of capitals.
pub open spec fn tagged_current(e: KnowledgeEntryView) -> bool {
    exists|i: int| 0 <= i < e.tags.len() && text::same_but_case(#[trigger] e.tags[i], "current"@)
}

/// Whether no entry has a greater id.
pub open spec fn newest(entries: Seq<KnowledgeEntryView>, id: i64) -> bool {
    forall|i: int| 0 <= i < entries.len() ==> (#[trigger] entries[i]).id <= id
}

/// Whether the entry is the authoritative summary: the designated one, or the
/// newest where none is designated.
pub open spec fn authoritative(f: EntriesFileView, id: i64) -> bool {
    match f.current_summary {
        Some(cs) => cs.entry_id == id,
        None => newest(f.entries, id),
    }
}

/// The findings so far and one where the `i`-th entry is tagged as current and is not
/// the authoritative summary.
pub open spec fn tags_step(
    acc: Seq<FindingView>,
    file: Seq<char>,
    f: EntriesFileView,
    i: int,
) -> Seq<FindingView> {
    let e = f.entries[i];
    if tagged_current(e) && !authoritative(f, e.id) {
        acc.push(
            at_field(
                file_warning(
                    file,
                    "kb.legacy_current_tag"@,
                    "status entry #"@ + text::decimal(e.id as int) + " ("@ + e.title
                        + ") is tagged 'current' but is not the authoritative summary; tags never promote entries automatically"@,
                    "if this entry is outdated, record a new status entry and designate it with `jay kb set-current`; do not rely on tags"@,
                ),
                "tags"@,
            ),
        )
    } else {
        acc
    }
}

/// The findings so far and one for each entry from the `i`-th on that is
/// tagged as current and is not the authoritative summary.
pub open spec fn tags_checked(
    acc: Seq<FindingView>,
    file: Seq<char>,
    f: EntriesFileView,
    i: int,
) -> Seq<FindingView>
    decreases f.entries.len() - i,
{
    if i < 0 || i >= f.entries.len() {
        acc
    } else {
        tags_checked(tags_step(acc, file, f, i), file, f, i + 1)
    }
}

/// Whether the id of the `i`-th entry came before.
pub open spec fn entry_id_repeated(entries: Seq<KnowledgeEntryView>, i: int) -> bool {
    exists|j: int| 0 <= j < i && (#[trigger] entries[j]).id == entries[i].id
}

/// The findings so far and one where the id of the `i`-th entry came before.
pub open spec fn entry_id_checked(
    acc: Seq<FindingView>,
    file: Seq<char>,
    kind: KnowledgeKind,
    entries: Seq<KnowledgeEntryView>,
    i: int,
) -> Seq<FindingView> {
    if entry_id_repeated(entries, i) {
        acc.push(
            at_field(
                file_error(
                    file,
                    "kb.duplicate_id"@,
                    "duplicate "@ + model::kind_name(kind) + " entry id "@ + text::decimal(
                        entries[i].id as int,
                    ),
                    "renumber one of the entries"@,
                ),
                "id"@,
            ),
        )
    } else {
        acc
    }
}

/// The findings so far and one where an entry is related to a missing task.
pub open spec fn related_task_checked(
    acc: Seq<FindingView>,
    file: Seq<char>,
    kind: KnowledgeKind,
    tasks: Seq<TaskView>,
    e: KnowledgeEntryView,
) -> Seq<FindingView> {
    match e.related_task {
        Some(rt) => if tasks.len() > 0 && !has_task(tasks, rt) {
            acc.push(
                at_field(
                    file_warning(
                        file,
                        "kb.related_task_missing"@,
                        model::kind_name(kind) + " entry "@ + text::decimal(e.id as int)
                            + " references missing task #"@ + text::decimal(rt as int),
                        "fix or clear related_task (the task may have been moved or deleted)"@,
                    ),
                    "related_task"@,
                ),
            )
        } else {
            acc
        },
        None => acc,
    }
}

/// The findings so far and what the `i`-th entry adds: a repeated id, invalid
/// timestamps and a missing related task.
pub open spec fn entry_step(
    acc: Seq<FindingView>,
    file: Seq<char>,
    kind: KnowledgeKind,
    tasks: Seq<TaskView>,
    entries: Seq<KnowledgeEntryView>,
    i: int,
) -> Seq<FindingView> {
    let e = entries[i];
    let a1 = entry_id_checked(acc, file, kind, entries, i);
    let a2 = stamp_checked(a1, file, "created_at"@, e.created_at);
    let a3 = stamp_checked(a2, file, "updated_at"@, e.updated_at);
    related_task_checked(a3, file, kind, tasks, e)
}

/// The findings so far and what the entries from the `i`-th on add: repeated
/// ids, invalid timestamps and missing related tasks.
pub open spec fn entries_checked(
    acc: Seq<FindingView>,
    file: Seq<char>,
    kind: KnowledgeKind,
    tasks: Seq<TaskView>,
    entries: Seq<KnowledgeEntryView>,
    i: int,
) -> Seq<FindingView>
    decreases entries.len() - i,
{
    if i < 0 || i >= entries.len() {
        acc
    } else {
        entries_checked(entry_step(acc, file, kind, tasks, entries, i), file, kind, tasks, entries, i + 1)
    }
}

/// The findings so far and what the entries of a knowledge base file add.
pub open spec fn kb_record_checked(
    acc: Seq<FindingView>,
    kind: KnowledgeKind,
    tasks: Seq<TaskView>,
    f: EntriesFileView,
) -> Seq<FindingView> {
    let file = kb_rel(kind);
    let a1 = designation_checked(acc, file, f);
    let a2 = supersessions_checked(a1, file, kind, f.entries, 0);
    let a3 = if knowledge::first_supersession_cycle(f.entries) is Some {
        a2.push(
            file_error(
                file,
                "kb.supersedes_cycle"@,
                "supersession references contain a cycle"@,
                "remove one of the supersedes edges in the cycle"@,
            ),
        )
    } else {
        a2
    };
    let a4 = if kind == KnowledgeKind::Status {
        tags_checked(a3, file, f, 0)
    } else {
        a3
    };
    entries_checked(a4, file, kind, tasks, f.entries, 0)
}

/// The findings so far and what the text of a knowledge base file adds, given
/// its raw document and its entries.
pub open spec fn kb_text_checked(
    acc: Seq<FindingView>,
    kind: KnowledgeKind,
    tasks: Seq<TaskView>,
    raw: Result<DocView, Seq<char>>,
    record: Result<EntriesFile, String>,
) -> Seq<FindingView> {
    let known = array_checked(acc, kb_rel(kind), raw, KNOWN_KB_ENTRY_FIELDS@, "entries"@);
    match record {
        Ok(f) => kb_record_checked(known, kind, tasks, f@),
        Err(e) => known.push(
            file_error(
                kb_rel(kind),
                "kb.parse_error"@,
                model::kind_file(kind) + " invalid: "@ + e@,
                "fix the TOML syntax or restore the file"@,
            ),
        ),
    }
}

/// The findings so far and what a knowledge base file adds.
pub open spec fn kb_file_checked(acc: Seq<FindingView>, tasks: Seq<TaskView>, s: KbSource) -> Seq<
    FindingView,
> {
    match s.read {
        FileRead::Missing => acc,
        FileRead::Unreadable(e) => acc.push(
            file_error(
                kb_rel(s.kind),
                "kb.read_error"@,
                "cannot read "@ + model::kind_file(s.kind) + ": "@ + e@,
                "restore the file"@,
            ),
        ),
        FileRead::Text(t) => kb_text_checked(
            acc,
            s.kind,
            tasks,
            doc::toml_reads(t@),
            s.record,
        ),
    }
}

/// The findings so far and what knowledge base files add, each inspected on
/// its own.
pub open spec fn kb_checked(
    acc: Seq<FindingView>,
    tasks: Seq<TaskView>,
    s: Seq<KbSource>,
) -> Seq<FindingView>
    decreases s.len(),
{
    if s.len() == 0 {
        acc
    } else {
        kb_file_checked(kb_checked(acc, tasks, s.drop_last()), tasks, s.last())
    }
}

fn is_entry(entries: &Vec<KnowledgeEntry>, id: i64) -> (r: bool)
    ensures
        r == has_entry(model::entries(entries@), id),
{
    let ghost all = model::entries(entries@);
    let mut i: usize = 0;
    while i < entries.len()
        invariant
            i <= entries.len(),
            all == model::entries(entries@),
            forall|j: int| 0 <= j < i ==> (#[trigger] all[j]).id != id,
        decreases entries.len() - i,
    {
        if entries[i].id == id {
            assert(all[i as int].id == id);
            return true;
        }
        i += 1;
    }
    false
}

fn check_designation(out: &mut Vec<Finding>, file: &str, f: &EntriesFile)
    ensures
        findings(final(out)@) == designation_checked(findings(old(out)@), file@, f@),
{
    if let Some(cs) = &f.current_summary {
        if !is_entry(&f.entries, cs.entry_id) {
            let n = int_text(cs.entry_id);
            report(
                out,
                Finding::error(
                    file,
                    "kb.current_summary_missing",
                    cat("current_summary points to missing status entry #", n.as_str()),
                    "designate an existing entry (jay kb set-current <id>) or remove the pointer",
                ).with_field("current_summary"),
            );
        }
    }
}

fn check_supersedes(
    out: &mut Vec<Finding>,
    file: &str,
    kind: KnowledgeKind,
    entries: &Vec<KnowledgeEntry>,
    e: &KnowledgeEntry,
)
    ensures
        findings(final(out)@) == supersedes_checked(
            findings(old(out)@),
            file@,
            kind,
            model::entries(entries@),
            e@,
            0,
        ),
{
    let ghost all = model::entries(entries@);
    let ghost target = supersedes_checked(findings(out@), file@, kind, all, e@, 0);
    let mut i: usize = 0;
    while i < e.supersedes.len()
        invariant
            i <= e.supersedes.len(),
            all == model::entries(entries@),
            target == supersedes_checked(findings(out@), file@, kind, all, e@, i as int),
        decreases e.supersedes.len() - i,
    {
        let s = e.supersedes[i];
        let own = int_text(e.id);
        if s == e.id {
            report(
                out,
                Finding::error(
                    file,
                    "kb.supersedes_self",
                    cat3("entry #", own.as_str(), " supersedes itself"),
                    "remove the self-reference",
                ).with_field("supersedes"),
            );
        } else if !is_entry(entries, s) {
            let other = int_text(s);
            let a = cat3(kind.as_str(), " entry #", own.as_str());
            report(
                out,
                Finding::error(
                    file,
                    "kb.supersedes_missing",
                    cat3(a.as_str(), " supersedes missing entry #", other.as_str()),
                    "fix or remove the supersession reference",
                ).with_field("supersedes"),
            );
        }
        i += 1;
    }
}

fn check_supersessions(
    out: &mut Vec<Finding>,
    file: &str,
    kind: KnowledgeKind,
    entries: &Vec<KnowledgeEntry>,
)
    ensures
        findings(final(out)@) == supersessions_checked(
            findings(old(out)@),
            file@,
            kind,
            model::entries(entries@),
            0,
        ),
{
    let ghost all = model::entries(entries@);
    let ghost target = supersessions_checked(findings(out@), file@, kind, all, 0);
    let mut i: usize = 0;
    while i < entries.len()
        invariant
            i <= entries.len(),
            all == model::entries(entries@),
            target == supersessions_checked(findings(out@), file@, kind, all, i as int),
        decreases entries.len() - i,
    {
        assert(all[i as int] == entries@[i as int]@);
        check_supersedes(out, file, kind, entries, &entries[i]);
        i += 1;
    }
}

fn is_tagged_current(e: &KnowledgeEntry) -> (r: bool)
    ensures
        r == tagged_current(e@),
{
    let mut i: usize = 0;
    while i < e.tags.len()
        invariant
            i <= e.tags.len(),
            forall|j: int| 0 <= j < i ==> !text::same_but_case(#[trigger] e@.tags[j], "current"@),
        decreases e.tags.len() - i,
    {
        assert(e@.tags[i as int] == e.tags@[i as int]@);
        if equal_but_case(e.tags[i].as_str(), "current") {
            return true;
        }
        i += 1;
    }
    false
}

fn is_newest(entries: &Vec<KnowledgeEntry>, id: i64) -> (r: bool)
    ensures
        r == newest(model::entries(entries@), id),
{
    let ghost all = model::entries(entries@);
    let mut i: usize = 0;
    while i < entries.len()
        invariant
            i <= entries.len(),
            all == model::entries(entries@),
            forall|j: int| 0 <= j < i ==> (#[trigger] all[j]).id <= id,
        decreases entries.len() - i,
    {
        if entries[i].id > id {
            assert(all[i as int].id > id);
            return false;
        }
        i += 1;
    }
    true
}

fn check_tags(out: &mut Vec<Finding>, file: &str, f: &EntriesFile)
    ensures
        findings(final(out)@) == tags_checked(findings(old(out)@), file@, f@, 0),
{
    let ghost target = tags_checked(findings(out@), file@, f@, 0);
    let mut i: usize = 0;
    while i < f.entries.len()
        invariant
            i <= f.entries.len(),
            target == tags_checked(findings(out@), file@, f@, i as int),
        decreases f.entries.len() - i,
    {
        let e = &f.entries[i];
        assert(f@.entries[i as int] == e@);
        let chosen = match &f.current_summary {
            Some(cs) => cs.entry_id == e.id,
            None => is_newest(&f.entries, e.id),
        };
        if is_tagged_current(e) && !chosen {
            let n = int_text(e.id);
            let a = cat3("status entry #", n.as_str(), " (");
            report(
                out,
                Finding::warning(
                    file,
                    "kb.legacy_current_tag",
                    cat3(
                        a.as_str(),
                        e.title.as_str(),
                        ") is tagged 'current' but is not the authoritative summary; tags never promote entries automatically",
                    ),
                    "if this entry is outdated, record a new status entry and designate it with `jay kb set-current`; do not rely on tags",
                ).with_field("tags"),
            );
        }
        i += 1;
    }
}

fn is_entry_id_repeated(entries: &Vec<KnowledgeEntry>, i: usize) -> (r: bool)
    requires
        i < entries.len(),
    ensures
        r == entry_id_repeated(model::entries(entries@), i as int),
{
    let ghost all = model::entries(entries@);
    let mut j: usize = 0;
    while j < i
        invariant
            j <= i < entries.len(),
            all == model::entries(entries@),
            forall|k: int| 0 <= k < j ==> (#[trigger] all[k]).id != all[i as int].id,
        decreases i - j,
    {
        if entries[j].id == entries[i].id {
            assert(all[j as int].id == all[i as int].id);
            return true;
        }
        j += 1;
    }
    false
}

fn check_entries(
    out: &mut Vec<Finding>,
    file: &str,
    kind: KnowledgeKind,
    tasks: &Vec<Task>,
    entries: &Vec<KnowledgeEntry>,
)
    ensures
        findings(final(out)@) == entries_checked(
            findings(old(out)@),
            file@,
            kind,
            model::tasks(tasks@),
            model::entries(entries@),
            0,
        ),
{
    let ghost all = model::entries(entries@);
    let ghost known = model::tasks(tasks@);
    let ghost target = entries_checked(findings(out@), file@, kind, known, all, 0);
    let mut i: usize = 0;
    while i < entries.len()
        invariant
            i <= entries.len(),
            all == model::entries(entries@),
            known == model::tasks(tasks@),
            target == entries_checked(findings(out@), file@, kind, known, all, i as int),
        decreases entries.len() - i,
    {
        let e = &entries[i];
        assert(all[i as int] == e@);
        let n = int_text(e.id);
        if is_entry_id_repeated(entries, i) {
            let a = cat3("duplicate ", kind.as_str(), " entry id ");
            report(
                out,
                Finding::error(
                    file,
                    "kb.duplicate_id",
                    cat(a.as_str(), n.as_str()),
                    "renumber one of the entries",
                ).with_field("id"),
            );
        }
        check_timestamp(out, file, "created_at", e.created_at.as_str());
        check_timestamp(out, file, "updated_at", e.updated_at.as_str());
        if let Some(rt) = e.related_task {
            if tasks.len() > 0 && task_position(tasks, rt).is_none() {
                let m = int_text(rt);
                let a = cat3(kind.as_str(), " entry ", n.as_str());
                report(
                    out,
                    Finding::warning(
                        file,
                        "kb.related_task_missing",
                        cat3(a.as_str(), " references missing task #", m.as_str()),
                        "fix or clear related_task (the task may have been moved or deleted)",
                    ).with_field("related_task"),
                );
            }
        }
        i += 1;
    }
}

fn kb_rel_text(kind: KnowledgeKind) -> (r: String)
    ensures
        r@ == kb_rel(kind),
{
    let dir = join_path(project::NEST_DIR, project::KB_DIR);
    join_path(dir.as_str(), kind.filename())
}

/// Inspects the text of a knowledge base file, given its raw document and its
/// entries: the designated summary, supersession references and cycles, legacy
/// `current` tags, ids, timestamps and related tasks.
pub fn inspect_kb_text(
    out: &mut Vec<Finding>,
    kind: KnowledgeKind,
    tasks: &Vec<Task>,
    raw: &Result<Doc, String>,
    record: &Result<EntriesFile, String>,
)
    ensures
        findings(final(out)@) == kb_text_checked(
            findings(old(out)@),
            kind,
            model::tasks(tasks@),
            doc_read(*raw),
            *record,
        ),
{
    let file = kb_rel_text(kind);
    let file = file.as_str();
    check_array(out, file, raw, &KNOWN_KB_ENTRY_FIELDS, "entries");
    match record {
        Ok(f) => {
            check_designation(out, file, f);
            check_supersessions(out, file, kind, &f.entries);
            if supersession_cycle(&f.entries).is_some() {
                report(
                    out,
                    Finding::error(
                        file,
                        "kb.supersedes_cycle",
                        owned("supersession references contain a cycle"),
                        "remove one of the supersedes edges in the cycle",
                    ),
                );
            }
            if kind == KnowledgeKind::Status {
                check_tags(out, file, f);
            }
            check_entries(out, file, kind, tasks, &f.entries);
        },
        Err(e) => {
            report(
                out,
                Finding::error(
                    file,
                    "kb.parse_error",
                    cat3(kind.filename(), " invalid: ", e.as_str()),
                    "fix the TOML syntax or restore the file",
                ),
            );
        },
    }
}

/// Inspects knowledge base files, each on its own.
pub fn inspect_kb(sources: &Vec<KbSource>, files: &Vec<TaskFile>, out: &mut Vec<Finding>)
    ensures
        findings(final(out)@) == kb_checked(
            findings(old(out)@),
            file_tasks(task_files(files@)),
            sources@,
        ),
{
    let tasks = records(files);
    let ghost known = file_tasks(task_files(files@));
    let ghost before = findings(out@);
    let mut i: usize = 0;
    assert(sources@.take(0) =~= Seq::empty());
    while i < sources.len()
        invariant
            i <= sources.len(),
            known == model::tasks(tasks@),
            findings(out@) == kb_checked(before, known, sources@.take(i as int)),
        decreases sources.len() - i,
    {
        let source = &sources[i];
        assert(sources@.take(i + 1).drop_last() =~= sources@.take(i as int));
        assert(sources@.take(i + 1).last() == *source);
        match &source.read {
            FileRead::Missing => {},
            FileRead::Unreadable(e) => {
                let file = kb_rel_text(source.kind);
                let a = cat3("cannot read ", source.kind.filename(), ": ");
                report(
                    out,
                    Finding::error(
                        file.as_str(),
                        "kb.read_error",
                        cat(a.as_str(), e.as_str()),
                        "restore the file",
                    ),
                );
            },
            FileRead::Text(t) => {
                let raw = read_doc(t.as_str());
                inspect_kb_text(out, source.kind, &tasks, &raw, &source.record);
            },
        }
        i += 1;
    }
    assert(sources@.take(i as int) =~= sources@);
}

/// Everything of a project that is inspected: its layout and config, its
/// milestones, its task files by name and its knowledge base files.
#[derive(Debug)]
pub struct ProjectFiles {
    pub config: ConfigSource,
    pub milestones: MilestonesSource,
    pub tasks: Vec<TaskSource>,
    pub kb: Vec<KbSource>,
}

/// The findings of a whole project.
pub open spec fn inspected(p: ProjectFiles) -> Seq<FindingView> {
    let files = source_files(p.tasks@);
    let a1 = project_checked(Seq::empty(), p.config);
    let a2 = milestones_checked(a1, p.milestones);
    let a3 = sources_checked(a2, p.tasks@);
    let a4 = cross_checked(a3, files, source_milestones(p.milestones));
    kb_checked(a4, file_tasks(files), p.kb@)
}

/// Inspects a whole project. Never fails early: unreadable or malformed files
/// become findings and inspection continues.
pub fn inspect(p: ProjectFiles) -> (r: Vec<Finding>)
    ensures
        findings(r@) == inspected(p),
{
    let mut out: Vec<Finding> = Vec::new();
    assert(findings(out@) =~= Seq::empty());
    inspect_layout_and_config(&p.config, &mut out);
    let milestones = inspect_milestones(p.milestones, &mut out);
    let files = inspect_tasks(p.tasks, &mut out);
    cross_check_tasks(&files, &milestones, &mut out);
    inspect_kb(&p.kb, &files, &mut out);
    out
}

/// One proposed repair operation.
#[derive(Debug)]
pub struct RepairOp {
    pub file: String,
    pub code: &'static str,
    pub description: String,
}

/// What a [`RepairOp`] holds.
#[verifier::ext_equal]
pub struct RepairOpView {
    pub file: Seq<char>,
    pub code: Seq<char>,
    pub description: Seq<char>,
}

impl View for RepairOp {
    type V = RepairOpView;

    open spec fn view(&self) -> RepairOpView {
        RepairOpView { file: self.file@, code: self.code@, description: self.description@ }
    }
}

/// What a list of repair operations holds.
pub open spec fn repair_ops(v: Seq<RepairOp>) -> Seq<RepairOpView> {
    v.map_values(|o: RepairOp| o@)
}

/// Result of a repair run (dry run or apply).
#[derive(Debug)]
pub struct RepairReport {
    pub applied: bool,
    pub proposed: Vec<RepairOp>,
    pub backups: Vec<String>,
    /// Error findings that repair cannot fix (they need explicit user or agent
    /// updates: missing evidence is never fabricated).
    pub unresolved: Vec<Finding>,
}

/// Whether repair can fix a finding.
pub open spec fn repairable(f: FindingView) -> bool {
    f.code == "task.legacy_closed_at"@
}

/// The repair operations for findings, in order.
pub open spec fn proposals(f: Seq<FindingView>) -> Seq<RepairOpView> {
    f.filter(|x: FindingView| repairable(x)).map_values(
        |x: FindingView|
            RepairOpView {
                file: x.file,
                code: x.code,
                description: "migrate legacy closed_at to done_at and drop the legacy field"@,
            },
    )
}

/// The error findings that repair cannot fix, in order.
pub open spec fn unresolved(f: Seq<FindingView>) -> Seq<FindingView> {
    f.filter(|x: FindingView| x.severity == Severity::Error && !repairable(x))
}

/// The files that repair rewrites, in order of the findings.
pub open spec fn repair_files(f: Seq<FindingView>) -> Seq<Seq<char>> {
    f.filter(|x: FindingView| repairable(x)).map_values(|x: FindingView| x.file)
}

/// `s` without what equals the element before it.
pub open spec fn without_repeats(s: Seq<Seq<char>>) -> Seq<Seq<char>>
    decreases s.len(),
{
    if s.len() <= 1 {
        s
    } else {
        let front = without_repeats(s.drop_last());
        if s.last() == s[s.len() - 2] {
            front
        } else {
            front.push(s.last())
        }
    }
}

/// The repair operations for findings.
fn propose(f: &Vec<Finding>) -> (r: Vec<RepairOp>)
    ensures
        repair_ops(r@) == proposals(findings(f@)),
{
    let mut out: Vec<RepairOp> = Vec::new();
    let ghost all = findings(f@);
    let ghost keep = |x: FindingView| repairable(x);
    let ghost make = |x: FindingView|
        RepairOpView {
            file: x.file,
            code: x.code,
            description: "migrate legacy closed_at to done_at and drop the legacy field"@,
        };
    let mut i: usize = 0;
    reveal(Seq::filter);
    assert(all.take(0) =~= Seq::empty());
    assert(repair_ops(out@) =~= all.take(0).filter(keep).map_values(make));
    while i < f.len()
        invariant
            i <= f.len(),
            all == findings(f@),
            keep == (|x: FindingView| repairable(x)),
            make == (|x: FindingView|
                RepairOpView {
                    file: x.file,
                    code: x.code,
                    description: "migrate legacy closed_at to done_at and drop the legacy field"@,
                }),
            repair_ops(out@) == all.take(i as int).filter(keep).map_values(make),
        decreases f.len() - i,
    {
        proof {
            text::lemma_filter_take(all, keep, i as int);
        }
        let ghost before = out@;
        let ghost kept = all.take(i as int).filter(keep);
        assert(all[i as int] == f@[i as int]@);
        if same(f[i].code, "task.legacy_closed_at") {
            out.push(
                RepairOp {
                    file: f[i].file.clone(),
                    code: f[i].code,
                    description: owned(
                        "migrate legacy closed_at to done_at and drop the legacy field",
                    ),
                },
            );
            assert(repair_ops(out@) =~= repair_ops(before).push(make(all[i as int])));
            assert(kept.push(all[i as int]).map_values(make) =~= kept.map_values(make).push(
                make(all[i as int]),
            ));
        }
        i += 1;
    }
    assert(all.take(i as int) =~= all);
    out
}

/// The files that repair rewrites: those of repairable findings, sorted and
/// each once.
pub fn repair_targets(f: &Vec<Finding>) -> (r: Vec<String>)
    ensures
        text::texts(r@) == without_repeats(
            order::sorted_by(repair_files(findings(f@)), order::text_order()),
        ),
{
    let mut files: Vec<String> = Vec::new();
    let ghost all = findings(f@);
    let ghost keep = |x: FindingView| repairable(x);
    let ghost name = |x: FindingView| x.file;
    let mut i: usize = 0;
    reveal(Seq::filter);
    assert(all.take(0) =~= Seq::empty());
    assert(text::texts(files@) =~= all.take(0).filter(keep).map_values(name));
    while i < f.len()
        invariant
            i <= f.len(),
            all == findings(f@),
            keep == (|x: FindingView| repairable(x)),
            name == (|x: FindingView| x.file),
            text::texts(files@) == all.take(i as int).filter(keep).map_values(name),
        decreases f.len() - i,
    {
        proof {
            text::lemma_filter_take(all, keep, i as int);
        }
        let ghost before = files@;
        let ghost kept = all.take(i as int).filter(keep);
        assert(all[i as int] == f@[i as int]@);
        if same(f[i].code, "task.legacy_closed_at") {
            files.push(f[i].file.clone());
            assert(text::texts(files@) =~= text::texts(before).push(all[i as int].file));
            assert(kept.push(all[i as int]).map_values(name) =~= kept.map_values(name).push(
                all[i as int].file,
            ));
        }
        i += 1;
    }
    assert(all.take(i as int) =~= all);
    let sorted = sort_texts(files);
    let ghost list = text::texts(sorted@);
    let mut out: Vec<String> = Vec::new();
    let mut k: usize = 0;
    assert(text::texts(out@) =~= without_repeats(list.take(0)));
    while k < sorted.len()
        invariant
            k <= sorted.len(),
            list == text::texts(sorted@),
            text::texts(out@) == without_repeats(list.take(k as int)),
        decreases sorted.len() - k,
    {
        let ghost before = out@;
        let ghost next = list.take(k + 1);
        assert(next.drop_last() =~= list.take(k as int));
        assert(next.last() == sorted@[k as int]@);
        let repeat = k > 0 && same(sorted[k - 1].as_str(), sorted[k].as_str());
        proof {
            if k > 0 {
                assert(next[next.len() - 2] == sorted@[k - 1]@);
            }
        }
        if !repeat {
            out.push(sorted[k].clone());
            assert(text::texts(out@) =~= text::texts(before).push(next.last()));
            assert(k == 0 ==> text::texts(out@) =~= next);
        }
        k += 1;
    }
    assert(list.take(k as int) =~= list);
    out
}

/// The error findings that repair cannot fix.
fn unresolved_findings(f: &Vec<Finding>) -> (r: Vec<Finding>)
    ensures
        findings(r@) == unresolved(findings(f@)),
{
    let mut out: Vec<Finding> = Vec::new();
    let ghost all = findings(f@);
    let ghost keep = |x: FindingView| x.severity == Severity::Error && !repairable(x);
    let mut i: usize = 0;
    reveal(Seq::filter);
    assert(all.take(0) =~= Seq::empty());
    assert(findings(out@) =~= all.take(0).filter(keep));
    while i < f.len()
        invariant
            i <= f.len(),
            all == findings(f@),
            keep == (|x: FindingView| x.severity == Severity::Error && !repairable(x)),
            findings(out@) == all.take(i as int).filter(keep),
        decreases f.len() - i,
    {
        proof {
            text::lemma_filter_take(all, keep, i as int);
        }
        assert(all[i as int] == f@[i as int]@);
        if f[i].severity == Severity::Error && !same(f[i].code, "task.legacy_closed_at") {
            report(&mut out, f[i].clone());
        }
        i += 1;
    }
    assert(all.take(i as int) =~= all);
    out
}

/// The report of a repair run: what the findings before it propose, the
/// backups it made, and what the findings after it leave unresolved. A dry run
/// makes no backups, and what was found stays.
pub fn repair(apply: bool, before: &Vec<Finding>, after: &Vec<Finding>, backups: Vec<String>)
    -> (r: RepairReport)
    ensures
        r.applied == apply,
        repair_ops(r.proposed@) == proposals(findings(before@)),
        text::texts(r.backups@) == (if apply {
            text::texts(backups@)
        } else {
            Seq::empty()
        }),
        findings(r.unresolved@) == unresolved(
            if apply {
                findings(after@)
            } else {
                findings(before@)
            },
        ),
{
    let none: Vec<String> = Vec::new();
    assert(text::texts(none@) =~= Seq::empty());
    RepairReport {
        applied: apply,
        proposed: propose(before),
        backups: if apply {
            backups
        } else {
            none
        },
        unresolved: if apply {
            unresolved_findings(after)
        } else {
            unresolved_findings(before)
        },
    }
}

/// A task document with its legacy `closed_at` migrated: moved to `done_at`
/// where that is absent, and dropped otherwise. None where there is nothing to
/// migrate.
pub open spec fn migrated(d: DocView) -> Option<DocView> {
    match d {
        DocView::Table(f) => match doc::lookup(f, "closed_at"@) {
            None => None,
            Some(closed) => {
                let rest = doc::without(f, "closed_at"@);
                Some(
                    DocView::Table(
                        if doc::lookup(rest, "done_at"@) is None {
                            doc::put(rest, FieldView { name: "done_at"@, value: closed })
                        } else {
                            rest
                        },
                    ),
                )
            },
        },
        _ => None,
    }
}

/// Migrates the legacy `closed_at` of a task document.
pub fn migrate_closed_at(d: Doc) -> (r: Option<Doc>)
    ensures
        match r {
            Some(m) => migrated(d@) == Some(m@) && (doc::well_formed(d@) ==> doc::well_formed(m@)),
            None => migrated(d@) is None,
        },
{
    proof {
        doc::lemma_doc_view(d);
    }
    let closed = match d.get("closed_at") {
        Some(c) => copy(c),
        None => {
            return None;
        },
    };
    match d {
        Doc::Table(fields) => {
            let rest = remove_field(fields, "closed_at");
            proof {
                if doc::well_formed(d@) {
                    doc::lemma_without_well_formed(doc::fields(fields@), "closed_at"@);
                    doc::lemma_put_well_formed(
                        doc::fields(rest@),
                        FieldView { name: "done_at"@, value: closed@ },
                    );
                }
                doc::lemma_doc_view(Doc::Table(rest));
            }
            let probe = Doc::Table(rest);
            if probe.get("done_at").is_none() {
                match probe {
                    Doc::Table(rest) => {
                        let field = Field { name: owned("done_at"), value: closed };
                        let with = put_field(rest, field);
                        proof {
                            doc::lemma_doc_view(Doc::Table(with));
                        }
                        Some(Doc::Table(with))
                    },
                    other => Some(other),
                }
            } else {
                Some(probe)
            }
        },
        _ => None,
    }
}

/// The rewritten text of a task file whose legacy `closed_at` is migrated, or
/// the message with which writing it is refused. Malformed texts, and those
/// with nothing to migrate, are never rewritten.
pub open spec fn migrated_text(text: Seq<char>) -> Result<Option<Seq<char>>, Seq<char>> {
    match doc::toml_reads(text) {
        Err(_) => Ok(None),
        Ok(d) => match migrated(d) {
            None => Ok(None),
            Some(m) => match doc::toml_writes(m) {
                Ok(s) => Ok(Some(s)),
                Err(e) => Err(e),
            },
        },
    }
}

/// Migrates the legacy `closed_at` of a task file.
pub fn migrate_text(text: &str) -> (r: Result<Option<String>, Error>)
    ensures
        match r {
            Ok(s) => migrated_text(text@) == Ok::<Option<Seq<char>>, Seq<char>>(text::opt_text(s)),
            Err(e) => migrated_text(text@) == Err::<Option<Seq<char>>, Seq<char>>(e@),
        },
        match doc::toml_reads(text@) {
            Ok(d) => doc::reads_back(d) && migrated(d) is Some ==> r is Ok && r->Ok_0 is Some
                && doc::toml_reads(r->Ok_0->0@) == Ok::<DocView, Seq<char>>(migrated(d)->0),
            Err(_) => true,
        },
{
    let d = match read_doc(text) {
        Ok(d) => d,
        Err(_) => {
            return Ok(None);
        },
    };
    match migrate_closed_at(d) {
        None => Ok(None),
        Some(m) => {
            proof {
                if doc::reads_back(d@) {
                    doc::lemma_read_is_sound(text@, d@);
                    lemma_migrated_is_sound(d@);
                }
            }
            match write_doc(m) {
                Ok(s) => Ok(Some(s)),
                Err(e) => Err(Error::new(e)),
            }
        },
    }
}

/// A migrated task document is sound where the one it is made of is.
proof fn lemma_migrated_is_sound(d: DocView)
    requires
        doc::sound(d),
        migrated(d) is Some,
    ensures
        doc::sound(migrated(d)->0),
{
    let f = d->Table_0;
    let depth = doc::NESTING as nat;
    doc::lemma_lookup_plain(f, "closed_at"@, depth);
    doc::lemma_without_plain(f, "closed_at"@, depth);
    assert("done_at"@ != doc::DATE_MARK@) by {
        reveal_strlit("done_at");
        reveal_strlit("$__toml_private_datetime");
        assert("done_at"@[0] != "$__toml_private_datetime"@[0]);
    }
    doc::lemma_put_plain(
        doc::without(f, "closed_at"@),
        FieldView { name: "done_at"@, value: doc::lookup(f, "closed_at"@)->0 },
        depth,
    );
}

/// The stamp that names the backup folder of a repair run: the current time.
pub fn repair_stamp() -> (r: String)
    ensures
        clock::names_moment(r@),
{
    now_as(STAMP_FORMAT)
}

/// The path, from the project root, of the backup of a file.
pub fn backup_path(stamp: &str, rel: &str) -> (r: String)
    ensures
        r@ == project::inside(
            project::inside(
                project::inside(project::NEST_DIR@, "backups"@),
                "repair-"@ + stamp@,
            ),
            rel@,
        ),
{
    let dir = join_path(project::NEST_DIR, "backups");
    let run = cat("repair-", stamp);
    let dir = join_path(dir.as_str(), run.as_str());
    join_path(dir.as_str(), rel)
}

/// Repair is idempotent: what it has migrated has nothing left to migrate.
pub proof fn law_migration_is_idempotent(d: DocView)
    ensures
        migrated(d) matches Some(m) ==> migrated(m) is None,
{
    if let Some(m) = migrated(d) {
        let f = d->Table_0;
        let rest = doc::without(f, "closed_at"@);
        let closed = doc::lookup(f, "closed_at"@)->0;
        doc::law_without(f, "closed_at"@, "closed_at"@);
        doc::law_put(
            rest,
            FieldView { name: "done_at"@, value: closed },
            "closed_at"@,
        );
        lemma_field_names_differ();
    }
}

proof fn lemma_field_names_differ()
    ensures
        "closed_at"@ != "done_at"@,
{
    reveal_strlit("closed_at");
    reveal_strlit("done_at");
    assert("closed_at"@.len() == 9 && "done_at"@.len() == 7);
}

/// Repair preserves every other field, including unknown ones: it takes
/// `closed_at` away, and `done_at` keeps its value or takes that of
/// `closed_at` where it had none.
pub proof fn law_migration_preserves(d: DocView, name: Seq<char>)
    requires
        migrated(d) is Some,
    ensures
        ({
            let m = migrated(d)->0;
            doc::field_of(m, name) == (if name == "closed_at"@ {
                None
            } else if name == "done_at"@ && doc::field_of(d, name) is None {
                doc::field_of(d, "closed_at"@)
            } else {
                doc::field_of(d, name)
            })
        }),
{
    let f = d->Table_0;
    let rest = doc::without(f, "closed_at"@);
    let closed = doc::lookup(f, "closed_at"@)->0;
    doc::law_without(f, "closed_at"@, name);
    doc::law_without(f, "closed_at"@, "done_at"@);
    doc::law_put(rest, FieldView { name: "done_at"@, value: closed }, name);
    lemma_field_names_differ();
}

/// After a migration doctor has nothing more to say of `closed_at`.
pub proof fn law_migration_settles(d: DocView, acc: Seq<FindingView>, file: Seq<char>)
    requires
        migrated(d) is Some,
    ensures
        ({
            let m = migrated(d)->0;
            legacy_checked(
                acc,
                file,
                doc::field_of(m, "done_at"@),
                doc::field_of(m, "closed_at"@),
            ) == acc
        }),
{
    law_migration_preserves(d, "closed_at"@);
}

/// A `closed_at` that conflicts with `done_at` is an error that repair does
/// not touch.
pub proof fn law_conflict_is_not_repaired(
    file: Seq<char>,
    done_at: Option<DocView>,
    closed_at: Option<DocView>,
)
    requires
        doc::text_of(closed_at) matches Some(c) && doc::text_of(done_at) matches Some(d) && c != d
            && timestamp_of(c) is Some && timestamp_of(c) != timestamp_of(d),
    ensures
        ({
            let found = legacy_checked(Seq::empty(), file, done_at, closed_at);
            &&& found.len() == 1
            &&& found[0].severity == Severity::Error
            &&& !repairable(found[0])
        }),
{
    reveal_strlit("task.closed_at_conflict");
    reveal_strlit("task.legacy_closed_at");
    assert("task.closed_at_conflict"@.len() == 23 && "task.legacy_closed_at"@.len() == 21);
}

proof fn lemma_record_adds(
    acc: Seq<FindingView>,
    file: Seq<char>,
    file_id: Option<i64>,
    t: TaskView,
)
    ensures
        record_checked(acc, file, file_id, t) == acc + record_checked(
            Seq::empty(),
            file,
            file_id,
            t,
        ),
{
    let none = Seq::<FindingView>::empty();
    let created = timestamp_of(t.created_at);
    let updated = timestamp_of(t.updated_at);
    let started = opt_timestamp_of(t.started_at);
    let done = opt_timestamp_of(t.done_at);
    let a0 = id_checked(acc, file, file_id, t);
    let b0 = id_checked(none, file, file_id, t);
    assert(a0 =~= acc + b0);
    let a1 = stamp_checked(a0, file, "created_at"@, t.created_at);
    let b1 = stamp_checked(b0, file, "created_at"@, t.created_at);
    assert(a1 =~= acc + b1);
    let a2 = stamp_checked(a1, file, "updated_at"@, t.updated_at);
    let b2 = stamp_checked(b1, file, "updated_at"@, t.updated_at);
    assert(a2 =~= acc + b2);
    let a3 = opt_stamp_checked(a2, file, "started_at"@, t.started_at);
    let b3 = opt_stamp_checked(b2, file, "started_at"@, t.started_at);
    assert(a3 =~= acc + b3);
    let a4 = opt_stamp_checked(a3, file, "done_at"@, t.done_at);
    let b4 = opt_stamp_checked(b3, file, "done_at"@, t.done_at);
    assert(a4 =~= acc + b4);
    let a5 = order_checked(a4, file, "created_at"@, created, "started_at"@, started);
    let b5 = order_checked(b4, file, "created_at"@, created, "started_at"@, started);
    assert(a5 =~= acc + b5);
    let a6 = order_checked(a5, file, "started_at"@, started, "done_at"@, done);
    let b6 = order_checked(b5, file, "started_at"@, started, "done_at"@, done);
    assert(a6 =~= acc + b6);
    let a7 = order_checked(a6, file, "created_at"@, created, "done_at"@, done);
    let b7 = order_checked(b6, file, "created_at"@, created, "done_at"@, done);
    assert(a7 =~= acc + b7);
    let a8 = order_checked(a7, file, "created_at"@, created, "updated_at"@, updated);
    let b8 = order_checked(b7, file, "created_at"@, created, "updated_at"@, updated);
    assert(a8 =~= acc + b8);
    lemma_history_adds(acc, b8, file, t.history, 0, None);
    let a9 = history_checked(a8, file, t.history, 0, None);
    let b9 = history_checked(b8, file, t.history, 0, None);
    lemma_evidence_adds(acc, b9, file, t);
}

proof fn lemma_evidence_adds(
    acc: Seq<FindingView>,
    more: Seq<FindingView>,
    file: Seq<char>,
    t: TaskView,
)
    ensures
        evidence_checked(acc + more, file, t) == acc + evidence_checked(more, file, t),
{
    assert(evidence_checked(acc + more, file, t) =~= acc + evidence_checked(more, file, t));
}

proof fn lemma_history_adds(
    acc: Seq<FindingView>,
    more: Seq<FindingView>,
    file: Seq<char>,
    history: Seq<LifecycleEventView>,
    i: int,
    prev: Option<Timestamp>,
)
    ensures
        history_checked(acc + more, file, history, i, prev) == acc + history_checked(
            more,
            file,
            history,
            i,
            prev,
        ),
    decreases history.len() - i,
{
    if 0 <= i < history.len() {
        let event = history[i];
        let at = timestamp_of(event.at);
        let next = history_step(more, file, history, i, prev);
        assert(history_step(acc + more, file, history, i, prev) =~= acc + next);
        lemma_history_adds(acc, next, file, history, i + 1, at);
    }
}

/// What the `i`-th recorded event alone adds.
spec fn history_step(
    acc: Seq<FindingView>,
    file: Seq<char>,
    history: Seq<LifecycleEventView>,
    i: int,
    prev: Option<Timestamp>,
) -> Seq<FindingView> {
    let event = history[i];
    let at = timestamp_of(event.at);
    let stamped = stamp_checked(acc, file, event_field(i, "at"@), event.at);
    let ordered = match (prev, at) {
        (Some(p), Some(ts)) => if after(p, ts) {
            stamped.push(
                at_field(
                    file_error(
                        file,
                        "value.timestamp_order"@,
                        event_field(i, "at"@) + " is before "@ + event_field(i - 1, "at"@),
                        "fix the recorded event timestamps"@,
                    ),
                    event_field(i, "at"@),
                ),
            )
        } else {
            stamped
        },
        _ => stamped,
    };
    opt_stamp_checked(ordered, file, event_field(i, "prior_done_at"@), event.prior_done_at)
}

proof fn lemma_fields_add(
    acc: Seq<FindingView>,
    more: Seq<FindingView>,
    file: Seq<char>,
    fields: Seq<FieldView>,
    known: Seq<&str>,
    legacy: Seq<&str>,
    what: Seq<char>,
)
    ensures
        fields_checked(acc + more, file, fields, known, legacy, what) == acc + fields_checked(
            more,
            file,
            fields,
            known,
            legacy,
            what,
        ),
    decreases fields.len(),
{
    if fields.len() > 0 {
        let key = fields[0].name;
        let next = if text::listed(key, known) || text::listed(key, legacy) {
            more
        } else {
            more.push(unknown_field(file, what, key))
        };
        assert((acc + more).push(unknown_field(file, what, key)) =~= acc + more.push(
            unknown_field(file, what, key),
        ));
        lemma_fields_add(acc, next, file, fields.skip(1), known, legacy, what);
    }
}

proof fn lemma_source_adds(acc: Seq<FindingView>, s: TaskSource)
    ensures
        source_checked(acc, s) == acc + source_checked(Seq::empty(), s),
{
    let none = Seq::<FindingView>::empty();
    let name = s.name@;
    let rel = task_rel(name);
    let named = name_checked(none, name);
    assert(name_checked(acc, name) =~= acc + named);
    match s.read {
        FileRead::Missing => {},
        FileRead::Unreadable(e) => {
            assert(source_checked(acc, s) =~= acc + source_checked(none, s));
        },
        FileRead::Text(t) => {
            let raw = doc::toml_reads(t@);
            let record = record_read(s.record);
            match raw {
                Err(e) => {
                    assert(source_checked(acc, s) =~= acc + source_checked(none, s));
                },
                Ok(d) => {
                    let typed = match record {
                        Err(e) => named.push(
                            file_error(
                                rel,
                                "task.invalid_value"@,
                                "task record invalid: "@ + e,
                                "fix the offending field value (see message)"@,
                            ),
                        ),
                        Ok(_) => named,
                    };
                    let typed_acc = match record {
                        Err(e) => (acc + named).push(
                            file_error(
                                rel,
                                "task.invalid_value"@,
                                "task record invalid: "@ + e,
                                "fix the offending field value (see message)"@,
                            ),
                        ),
                        Ok(_) => acc + named,
                    };
                    assert(typed_acc =~= acc + typed);
                    if let DocView::Table(f) = d {
                        lemma_fields_add(
                            acc,
                            typed,
                            rel,
                            f,
                            KNOWN_TASK_FIELDS@,
                            LEGACY_TASK_FIELDS@,
                            "task"@,
                        );
                    }
                    let known = unknown_checked(
                        typed,
                        rel,
                        d,
                        KNOWN_TASK_FIELDS@,
                        LEGACY_TASK_FIELDS@,
                        "task"@,
                    );
                    let done_at = doc::field_of(d, "done_at"@);
                    let closed_at = doc::field_of(d, "closed_at"@);
                    let legacy = legacy_checked(known, rel, done_at, closed_at);
                    assert(legacy_checked(acc + known, rel, done_at, closed_at) =~= acc + legacy);
                    if let Ok(task) = record {
                        let id = text::integer(stem_of(name));
                        lemma_record_adds(acc + legacy, rel, id, task);
                        lemma_record_adds(legacy, rel, id, task);
                        assert((acc + legacy) + record_checked(none, rel, id, task) =~= acc + (
                        legacy + record_checked(none, rel, id, task)));
                    }
                },
            }
        },
    }
}

/// Every task file is inspected on its own: a malformed or unreadable file
/// neither hides nor changes what is found in the files before and after it.
pub proof fn law_task_files_are_independent(acc: Seq<FindingView>, s: Seq<TaskSource>, i: int)
    requires
        0 <= i < s.len(),
    ensures
        sources_checked(acc, s) == sources_checked(acc, s.take(i)) + source_checked(
            Seq::empty(),
            s[i],
        ) + sources_checked(Seq::empty(), s.skip(i + 1)),
    decreases s.len(),
{
    let last = s.len() - 1;
    let front = s.drop_last();
    let none = Seq::<FindingView>::empty();
    lemma_source_adds(sources_checked(acc, front), s.last());
    if i == last {
        assert(s.take(i) =~= front);
        assert(s.skip(i + 1) =~= Seq::empty());
        assert(sources_checked(acc, s) =~= sources_checked(acc, s.take(i)) + source_checked(
            none,
            s[i],
        ) + sources_checked(none, s.skip(i + 1)));
    } else {
        law_task_files_are_independent(acc, front, i);
        assert(front.take(i) =~= s.take(i));
        assert(front.skip(i + 1) =~= s.skip(i + 1).drop_last());
        assert(s.skip(i + 1).last() == s.last());
        lemma_source_adds(sources_checked(none, front.skip(i + 1)), s.last());
        assert(sources_checked(acc, s) =~= sources_checked(acc, s.take(i)) + source_checked(
            none,
            s[i],
        ) + sources_checked(none, s.skip(i + 1)));
    }
}

proof fn lemma_elements_add(
    acc: Seq<FindingView>,
    more: Seq<FindingView>,
    file: Seq<char>,
    elements: Seq<DocView>,
    known: Seq<&str>,
    what: Seq<char>,
    i: int,
)
    ensures
        elements_checked(acc + more, file, elements, known, what, i) == acc + elements_checked(
            more,
            file,
            elements,
            known,
            what,
            i,
        ),
    decreases elements.len() - i,
{
    if 0 <= i < elements.len() {
        let name = what + "["@ + text::decimal(i) + "]"@;
        let next = unknown_checked(more, file, elements[i], known, NO_LEGACY_FIELDS@, name);
        if let DocView::Table(f) = elements[i] {
            lemma_fields_add(acc, more, file, f, known, NO_LEGACY_FIELDS@, name);
        }
        lemma_elements_add(acc, next, file, elements, known, what, i + 1);
    }
}

proof fn lemma_supersedes_add(
    acc: Seq<FindingView>,
    more: Seq<FindingView>,
    file: Seq<char>,
    kind: KnowledgeKind,
    entries: Seq<KnowledgeEntryView>,
    e: KnowledgeEntryView,
    i: int,
)
    ensures
        supersedes_checked(acc + more, file, kind, entries, e, i) == acc + supersedes_checked(
            more,
            file,
            kind,
            entries,
            e,
            i,
        ),
    decreases e.supersedes.len() - i,
{
    if 0 <= i < e.supersedes.len() {
        let next = supersedes_step(more, file, kind, entries, e, i);
        assert(supersedes_step(acc + more, file, kind, entries, e, i) =~= acc + next);
        lemma_supersedes_add(acc, next, file, kind, entries, e, i + 1);
    }
}

proof fn lemma_supersessions_add(
    acc: Seq<FindingView>,
    more: Seq<FindingView>,
    file: Seq<char>,
    kind: KnowledgeKind,
    entries: Seq<KnowledgeEntryView>,
    i: int,
)
    ensures
        supersessions_checked(acc + more, file, kind, entries, i) == acc + supersessions_checked(
            more,
            file,
            kind,
            entries,
            i,
        ),
    decreases entries.len() - i,
{
    if 0 <= i < entries.len() {
        lemma_supersedes_add(acc, more, file, kind, entries, entries[i], 0);
        let next = supersedes_checked(more, file, kind, entries, entries[i], 0);
        lemma_supersessions_add(acc, next, file, kind, entries, i + 1);
    }
}

proof fn lemma_tags_add(
    acc: Seq<FindingView>,
    more: Seq<FindingView>,
    file: Seq<char>,
    f: EntriesFileView,
    i: int,
)
    ensures
        tags_checked(acc + more, file, f, i) == acc + tags_checked(more, file, f, i),
    decreases f.entries.len() - i,
{
    if 0 <= i < f.entries.len() {
        let e = f.entries[i];
        let finding = at_field(
            file_warning(
                file,
                "kb.legacy_current_tag"@,
                "status entry #"@ + text::decimal(e.id as int) + " ("@ + e.title
                    + ") is tagged 'current' but is not the authoritative summary; tags never promote entries automatically"@,
                "if this entry is outdated, record a new status entry and designate it with `jay kb set-current`; do not rely on tags"@,
            ),
            "tags"@,
        );
        assert((acc + more).push(finding) =~= acc + more.push(finding));
        lemma_tags_add(acc, more.push(finding), file, f, i + 1);
        lemma_tags_add(acc, more, file, f, i + 1);
    }
}

proof fn lemma_entries_add(
    acc: Seq<FindingView>,
    more: Seq<FindingView>,
    file: Seq<char>,
    kind: KnowledgeKind,
    tasks: Seq<TaskView>,
    entries: Seq<KnowledgeEntryView>,
    i: int,
)
    ensures
        entries_checked(acc + more, file, kind, tasks, entries, i) == acc + entries_checked(
            more,
            file,
            kind,
            tasks,
            entries,
            i,
        ),
    decreases entries.len() - i,
{
    if 0 <= i < entries.len() {
        let next = entry_step(more, file, kind, tasks, entries, i);
        assert(entry_step(acc + more, file, kind, tasks, entries, i) =~= acc + next);
        lemma_entries_add(acc, next, file, kind, tasks, entries, i + 1);
    }
}

proof fn lemma_kb_record_adds(
    acc: Seq<FindingView>,
    more: Seq<FindingView>,
    kind: KnowledgeKind,
    tasks: Seq<TaskView>,
    f: EntriesFileView,
)
    ensures
        kb_record_checked(acc + more, kind, tasks, f) == acc + kb_record_checked(
            more,
            kind,
            tasks,
            f,
        ),
{
    let file = kb_rel(kind);
    let b1 = designation_checked(more, file, f);
    assert(designation_checked(acc + more, file, f) =~= acc + b1);
    lemma_supersessions_add(acc, b1, file, kind, f.entries, 0);
    let b2 = supersessions_checked(b1, file, kind, f.entries, 0);
    let cycle = file_error(
        file,
        "kb.supersedes_cycle"@,
        "supersession references contain a cycle"@,
        "remove one of the supersedes edges in the cycle"@,
    );
    assert((acc + b2).push(cycle) =~= acc + b2.push(cycle));
    let b3 = if knowledge::first_supersession_cycle(f.entries) is Some {
        b2.push(cycle)
    } else {
        b2
    };
    lemma_tags_add(acc, b3, file, f, 0);
    let b4 = if kind == KnowledgeKind::Status {
        tags_checked(b3, file, f, 0)
    } else {
        b3
    };
    lemma_entries_add(acc, b4, file, kind, tasks, f.entries, 0);
}

proof fn lemma_kb_file_adds(acc: Seq<FindingView>, tasks: Seq<TaskView>, s: KbSource)
    ensures
        kb_file_checked(acc, tasks, s) == acc + kb_file_checked(Seq::empty(), tasks, s),
{
    let none = Seq::<FindingView>::empty();
    assert(acc + none =~= acc);
    match s.read {
        FileRead::Missing => {},
        FileRead::Unreadable(e) => {
            assert(kb_file_checked(acc, tasks, s) =~= acc + kb_file_checked(none, tasks, s));
        },
        FileRead::Text(t) => {
            let raw = doc::toml_reads(t@);
            let file = kb_rel(s.kind);
            let known = array_checked(none, file, raw, KNOWN_KB_ENTRY_FIELDS@, "entries"@);
            if let Ok(d) = raw {
                if let Some(elements) = doc::array_of(doc::field_of(d, "entries"@)) {
                    lemma_elements_add(
                        acc,
                        none,
                        file,
                        elements,
                        KNOWN_KB_ENTRY_FIELDS@,
                        "entries"@,
                        0,
                    );
                }
            }
            assert(array_checked(acc, file, raw, KNOWN_KB_ENTRY_FIELDS@, "entries"@) =~= acc
                + known);
            match s.record {
                Ok(f) => {
                    lemma_kb_record_adds(acc, known, s.kind, tasks, f@);
                },
                Err(e) => {
                    assert(kb_file_checked(acc, tasks, s) =~= acc + kb_file_checked(
                        none,
                        tasks,
                        s,
                    ));
                },
            }
        },
    }
}

/// Every knowledge base file is inspected on its own: a malformed or
/// unreadable file neither hides nor changes what is found in the others.
pub proof fn law_kb_files_are_independent(
    acc: Seq<FindingView>,
    tasks: Seq<TaskView>,
    s: Seq<KbSource>,
    i: int,
)
    requires
        0 <= i < s.len(),
    ensures
        kb_checked(acc, tasks, s) == kb_checked(acc, tasks, s.take(i)) + kb_file_checked(
            Seq::empty(),
            tasks,
            s[i],
        ) + kb_checked(Seq::empty(), tasks, s.skip(i + 1)),
    decreases s.len(),
{
    let last = s.len() - 1;
    let front = s.drop_last();
    let none = Seq::<FindingView>::empty();
    lemma_kb_file_adds(kb_checked(acc, tasks, front), tasks, s.last());
    if i == last {
        assert(s.take(i) =~= front);
        assert(s.skip(i + 1) =~= Seq::empty());
        assert(kb_checked(acc, tasks, s) =~= kb_checked(acc, tasks, s.take(i)) + kb_file_checked(
            none,
            tasks,
            s[i],
        ) + kb_checked(none, tasks, s.skip(i + 1)));
    } else {
        law_kb_files_are_independent(acc, tasks, front, i);
        assert(front.take(i) =~= s.take(i));
        assert(front.skip(i + 1) =~= s.skip(i + 1).drop_last());
        assert(s.skip(i + 1).last() == s.last());
        lemma_kb_file_adds(kb_checked(none, tasks, front.skip(i + 1)), tasks, s.last());
        assert(kb_checked(acc, tasks, s) =~= kb_checked(acc, tasks, s.take(i)) + kb_file_checked(
            none,
            tasks,
            s[i],
        ) + kb_checked(none, tasks, s.skip(i + 1)));
    }
}

} // verus!
