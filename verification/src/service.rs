//! Task mutations: the single layer below the command line and the tool
//! server, so the two interfaces cannot disagree.
//!
//! Guarantees:
//! - every logical update is validated as a complete record before anything is
//!   written, and a refused one changes nothing;
//! - unknown and legacy fields in existing files are preserved across
//!   mutations (no data loss on a read/serialize/write cycle);
//! - unsupported and protected fields are rejected, never silently dropped;
//! - external Git side effects never undo a successful transition.
use vstd::prelude::*;

use crate::clock;
use crate::clock::now_ts;
use crate::diag;
use crate::diag::{dependency_nodes, hash_ids, parse_ts, task_position};
use crate::doc;
use crate::doc::{complete_text, DocView};
use crate::error::Error;
use crate::graph;
use crate::graph::{find_cycle, holds, Node, NodeView};
use crate::json;
use crate::json::{
    add_member, add_value, as_integers, as_texts, from_members, from_natural, from_opt_text,
    from_text, from_values, no_members, no_values, read_json, to_float_text, Json, JsonView,
    MemberView,
};
use crate::knowledge;
use crate::knowledge::{
    current_status, status_json, summary_freshness, CurrentStatus, CurrentStatusView, EntriesFile,
    Freshness, FreshnessView, PlacedEntry,
};
use crate::model;
use crate::model::{
    ids_clone, GitDiagnostic, GitDiagnosticView, LifecycleCtx, Priority, Task, TaskAction,
    TaskStatus, TaskView, Times, TimesView,
};
use crate::order;
use crate::order::sort_keyed;
use crate::project;
use crate::project::{GitIntegration, ProjectConfig, ProjectConfigView};
use crate::text;
use crate::text::{
    cat, cat3, int_text, is_among, is_blank, is_listed, is_opt_blank, join, opt_clone, owned, same,
    texts_clone, trimmed,
};

verus! {

/// Three-state patch field distinguishing *absent* (unchanged), explicit
/// *null* (clear a nullable field) and a *value*.
#[derive(Debug, PartialEq)]
pub enum PatchField<T> {
    Absent,
    Null,
    Value(T),
}

impl<T> Default for PatchField<T> {
    fn default() -> (r: PatchField<T>)
        ensures
            r == PatchField::<T>::Absent,
    {
        PatchField::Absent
    }
}

/// Fields that generic patches must never touch: lifecycle state, timestamps,
/// actor and report evidence are controlled exclusively by lifecycle and
/// report operations.
pub const PROTECTED_TASK_FIELDS: [&'static str; 17] = [
    "id",
    "status",
    "blocked",
    "block_reason",
    "created_at",
    "started_at",
    "done_at",
    "updated_at",
    "actor",
    "report_result",
    "report_problems",
    "report_ideas",
    "report_decisions",
    "report_validation",
    "git_diagnostics",
    "history",
    "follow_up_of",
];

/// What a patch is answered that is no JSON text.
pub const INVALID_JSON: &'static str = "patch must be valid JSON";

/// What a patch is answered that has an unknown field or a value of the wrong
/// type.
pub const INVALID_PATCH: &'static str = "invalid patch payload";

/// Patchable fields that hold a text.
pub const TEXT_PATCH_FIELDS: [&'static str; 6] = [
    "title",
    "description",
    "context",
    "assignee",
    "priority",
    "deadline",
];

/// Patchable fields that hold a list of texts.
pub const LIST_PATCH_FIELDS: [&'static str; 3] = ["acceptance", "labels", "links"];

/// Patchable fields that hold an integer.
pub const INTEGER_PATCH_FIELDS: [&'static str; 4] = [
    "estimate_points",
    "parent_id",
    "epic_id",
    "milestone_id",
];

/// A partial task edit. Omitted fields are unchanged; empty lists clear
/// lists; explicit null clears nullable fields; null for required fields is
/// rejected; protected and unknown fields are rejected.
#[derive(Debug)]
pub struct TaskPatch {
    pub title: PatchField<String>,
    pub description: PatchField<String>,
    pub acceptance: PatchField<Vec<String>>,
    pub context: PatchField<String>,
    pub assignee: PatchField<String>,
    pub priority: PatchField<String>,
    pub labels: PatchField<Vec<String>>,
    pub estimate_points: PatchField<i64>,
    /// Hours, as the shortest decimal text of the number.
    pub estimate_hours: PatchField<String>,
    pub deadline: PatchField<String>,
    pub links: PatchField<Vec<String>>,
    pub parent_id: PatchField<i64>,
    pub epic_id: PatchField<i64>,
    pub milestone_id: PatchField<i64>,
    pub depends_on: PatchField<Vec<i64>>,
}

/// What a [`TaskPatch`] holds.
#[verifier::ext_equal]
pub struct TaskPatchView {
    pub title: PatchField<Seq<char>>,
    pub description: PatchField<Seq<char>>,
    pub acceptance: PatchField<Seq<Seq<char>>>,
    pub context: PatchField<Seq<char>>,
    pub assignee: PatchField<Seq<char>>,
    pub priority: PatchField<Seq<char>>,
    pub labels: PatchField<Seq<Seq<char>>>,
    pub estimate_points: PatchField<i64>,
    pub estimate_hours: PatchField<Seq<char>>,
    pub deadline: PatchField<Seq<char>>,
    pub links: PatchField<Seq<Seq<char>>>,
    pub parent_id: PatchField<i64>,
    pub epic_id: PatchField<i64>,
    pub milestone_id: PatchField<i64>,
    pub depends_on: PatchField<Seq<i64>>,
}

/// What a text patch holds.
pub open spec fn patch_text(p: PatchField<String>) -> PatchField<Seq<char>> {
    match p {
        PatchField::Absent => PatchField::Absent,
        PatchField::Null => PatchField::Null,
        PatchField::Value(s) => PatchField::Value(s@),
    }
}

/// What a list patch holds.
pub open spec fn patch_texts(p: PatchField<Vec<String>>) -> PatchField<Seq<Seq<char>>> {
    match p {
        PatchField::Absent => PatchField::Absent,
        PatchField::Null => PatchField::Null,
        PatchField::Value(v) => PatchField::Value(text::texts(v@)),
    }
}

/// What an id list patch holds.
pub open spec fn patch_ids(p: PatchField<Vec<i64>>) -> PatchField<Seq<i64>> {
    match p {
        PatchField::Absent => PatchField::Absent,
        PatchField::Null => PatchField::Null,
        PatchField::Value(v) => PatchField::Value(v@),
    }
}

impl View for TaskPatch {
    type V = TaskPatchView;

    open spec fn view(&self) -> TaskPatchView {
        TaskPatchView {
            title: patch_text(self.title),
            description: patch_text(self.description),
            acceptance: patch_texts(self.acceptance),
            context: patch_text(self.context),
            assignee: patch_text(self.assignee),
            priority: patch_text(self.priority),
            labels: patch_texts(self.labels),
            estimate_points: self.estimate_points,
            estimate_hours: patch_text(self.estimate_hours),
            deadline: patch_text(self.deadline),
            links: patch_texts(self.links),
            parent_id: self.parent_id,
            epic_id: self.epic_id,
            milestone_id: self.milestone_id,
            depends_on: patch_ids(self.depends_on),
        }
    }
}

/// The patch that changes nothing.
pub open spec fn no_patch() -> TaskPatchView {
    TaskPatchView {
        title: PatchField::Absent,
        description: PatchField::Absent,
        acceptance: PatchField::Absent,
        context: PatchField::Absent,
        assignee: PatchField::Absent,
        priority: PatchField::Absent,
        labels: PatchField::Absent,
        estimate_points: PatchField::Absent,
        estimate_hours: PatchField::Absent,
        deadline: PatchField::Absent,
        links: PatchField::Absent,
        parent_id: PatchField::Absent,
        epic_id: PatchField::Absent,
        milestone_id: PatchField::Absent,
        depends_on: PatchField::Absent,
    }
}

impl Default for TaskPatch {
    fn default() -> (r: TaskPatch)
        ensures
            r@ == no_patch(),
    {
        TaskPatch {
            title: PatchField::Absent,
            description: PatchField::Absent,
            acceptance: PatchField::Absent,
            context: PatchField::Absent,
            assignee: PatchField::Absent,
            priority: PatchField::Absent,
            labels: PatchField::Absent,
            estimate_points: PatchField::Absent,
            estimate_hours: PatchField::Absent,
            deadline: PatchField::Absent,
            links: PatchField::Absent,
            parent_id: PatchField::Absent,
            epic_id: PatchField::Absent,
            milestone_id: PatchField::Absent,
            depends_on: PatchField::Absent,
        }
    }
}

/// Whether a value is a number.
pub open spec fn is_number(j: JsonView) -> bool {
    j is Integer || j is Real
}

/// Whether a member of a patch is a patchable field of the right type, or null.
pub open spec fn member_fits(m: MemberView) -> bool {
    if text::listed(m.name, TEXT_PATCH_FIELDS@) {
        m.value is Null || m.value is Text
    } else if text::listed(m.name, LIST_PATCH_FIELDS@) {
        m.value is Null || json::texts_of(m.value) is Some
    } else if text::listed(m.name, INTEGER_PATCH_FIELDS@) {
        m.value is Null || m.value is Integer
    } else if m.name == "estimate_hours"@ {
        m.value is Null || is_number(m.value)
    } else {
        m.name == "depends_on"@ && (m.value is Null || json::integers_of(m.value) is Some)
    }
}

/// The first name in a patch that is protected.
pub open spec fn first_protected(m: Seq<MemberView>) -> Option<Seq<char>>
    decreases m.len(),
{
    if m.len() == 0 {
        None
    } else if text::listed(m[0].name, PROTECTED_TASK_FIELDS@) {
        Some(m[0].name)
    } else {
        first_protected(m.skip(1))
    }
}

/// The text patch of a member.
pub open spec fn text_patch(j: Option<JsonView>) -> PatchField<Seq<char>> {
    match j {
        Some(JsonView::Null) => PatchField::Null,
        Some(JsonView::Text(s)) => PatchField::Value(s),
        _ => PatchField::Absent,
    }
}

/// The list patch of a member.
pub open spec fn list_patch(j: Option<JsonView>) -> PatchField<Seq<Seq<char>>> {
    match j {
        Some(JsonView::Null) => PatchField::Null,
        Some(v) => match json::texts_of(v) {
            Some(l) => PatchField::Value(l),
            None => PatchField::Absent,
        },
        None => PatchField::Absent,
    }
}

/// The integer patch of a member.
pub open spec fn integer_patch(j: Option<JsonView>) -> PatchField<i64> {
    match j {
        Some(JsonView::Null) => PatchField::Null,
        Some(JsonView::Integer(i)) => PatchField::Value(i),
        _ => PatchField::Absent,
    }
}

/// The number patch of a member, as decimal text.
pub open spec fn number_patch(j: Option<JsonView>) -> PatchField<Seq<char>> {
    match j {
        Some(JsonView::Null) => PatchField::Null,
        Some(JsonView::Integer(i)) => PatchField::Value(
            json::float_text(text::decimal(i as int)),
        ),
        Some(JsonView::Real(s)) => PatchField::Value(json::float_text(s)),
        _ => PatchField::Absent,
    }
}

/// The id list patch of a member.
pub open spec fn ids_patch(j: Option<JsonView>) -> PatchField<Seq<i64>> {
    match j {
        Some(JsonView::Null) => PatchField::Null,
        Some(v) => match json::integers_of(v) {
            Some(l) => PatchField::Value(l),
            None => PatchField::Absent,
        },
        None => PatchField::Absent,
    }
}

/// The message about a protected field.
pub open spec fn protected_message(name: Seq<char>) -> Seq<char> {
    "field '"@ + name
        + "' is protected: status, timestamps, actor and report evidence are controlled by lifecycle/report operations (start/review/done/complete/report), not by patches"@
}

/// The patch that a JSON value denotes, or the message with which it is
/// refused: anything but an object, a protected field, then a field that is
/// unknown or of the wrong type.
pub open spec fn patch_of(j: JsonView) -> Result<TaskPatchView, Seq<char>> {
    match j {
        JsonView::Object(m) => match first_protected(m) {
            Some(name) => Err(protected_message(name)),
            None => if !(forall|i: int| 0 <= i < m.len() ==> member_fits(#[trigger] m[i])) {
                Err(INVALID_PATCH@)
            } else {
                Ok(
                    TaskPatchView {
                        title: text_patch(json::lookup(m, "title"@)),
                        description: text_patch(json::lookup(m, "description"@)),
                        acceptance: list_patch(json::lookup(m, "acceptance"@)),
                        context: text_patch(json::lookup(m, "context"@)),
                        assignee: text_patch(json::lookup(m, "assignee"@)),
                        priority: text_patch(json::lookup(m, "priority"@)),
                        labels: list_patch(json::lookup(m, "labels"@)),
                        estimate_points: integer_patch(json::lookup(m, "estimate_points"@)),
                        estimate_hours: number_patch(json::lookup(m, "estimate_hours"@)),
                        deadline: text_patch(json::lookup(m, "deadline"@)),
                        links: list_patch(json::lookup(m, "links"@)),
                        parent_id: integer_patch(json::lookup(m, "parent_id"@)),
                        epic_id: integer_patch(json::lookup(m, "epic_id"@)),
                        milestone_id: integer_patch(json::lookup(m, "milestone_id"@)),
                        depends_on: ids_patch(json::lookup(m, "depends_on"@)),
                    },
                )
            },
        },
        _ => Err("patch must be a JSON object of task fields"@),
    }
}

/// The outcome of reading a patch.
pub open spec fn patch_read(r: Result<TaskPatch, Error>) -> Result<TaskPatchView, Seq<char>> {
    match r {
        Ok(p) => Ok(p@),
        Err(e) => Err(e@),
    }
}

fn fits(m: &json::Member) -> (r: bool)
    ensures
        r == member_fits(m@),
{
    let name = m.name.as_str();
    if is_listed(name, &TEXT_PATCH_FIELDS) {
        matches!(&m.value, Json::Null | Json::Text(_))
    } else if is_listed(name, &LIST_PATCH_FIELDS) {
        matches!(&m.value, Json::Null) || as_texts(&m.value).is_some()
    } else if is_listed(name, &INTEGER_PATCH_FIELDS) {
        matches!(&m.value, Json::Null | Json::Integer(_))
    } else if same(name, "estimate_hours") {
        matches!(&m.value, Json::Null | Json::Integer(_) | Json::Real(_))
    } else {
        same(name, "depends_on") && (matches!(&m.value, Json::Null) || as_integers(
            &m.value,
        ).is_some())
    }
}

fn get_text(j: &Json, name: &str) -> (r: PatchField<String>)
    ensures
        patch_text(r) == text_patch(json::member_of(j@, name@)),
{
    match j.get(name) {
        Some(Json::Null) => PatchField::Null,
        Some(Json::Text(s)) => PatchField::Value(s.clone()),
        _ => PatchField::Absent,
    }
}

fn get_list(j: &Json, name: &str) -> (r: PatchField<Vec<String>>)
    ensures
        patch_texts(r) == list_patch(json::member_of(j@, name@)),
{
    match j.get(name) {
        Some(Json::Null) => PatchField::Null,
        Some(v) => match as_texts(v) {
            Some(l) => PatchField::Value(l),
            None => PatchField::Absent,
        },
        None => PatchField::Absent,
    }
}

fn get_integer(j: &Json, name: &str) -> (r: PatchField<i64>)
    ensures
        r == integer_patch(json::member_of(j@, name@)),
{
    match j.get(name) {
        Some(Json::Null) => PatchField::Null,
        Some(Json::Integer(i)) => PatchField::Value(*i),
        _ => PatchField::Absent,
    }
}

fn get_number(j: &Json, name: &str) -> (r: PatchField<String>)
    ensures
        patch_text(r) == number_patch(json::member_of(j@, name@)),
{
    match j.get(name) {
        Some(Json::Null) => PatchField::Null,
        Some(Json::Integer(i)) => {
            let n = int_text(*i);
            PatchField::Value(to_float_text(n.as_str()))
        },
        Some(Json::Real(s)) => PatchField::Value(to_float_text(s.as_str())),
        _ => PatchField::Absent,
    }
}

fn get_ids(j: &Json, name: &str) -> (r: PatchField<Vec<i64>>)
    ensures
        patch_ids(r) == ids_patch(json::member_of(j@, name@)),
{
    match j.get(name) {
        Some(Json::Null) => PatchField::Null,
        Some(v) => match as_integers(v) {
            Some(l) => PatchField::Value(l),
            None => PatchField::Absent,
        },
        None => PatchField::Absent,
    }
}

/// Parses a patch from a JSON value, rejecting protected fields, and fields that
/// are unknown or of the wrong type.
pub fn parse_task_patch_value(value: &Json) -> (r: Result<TaskPatch, Error>)
    ensures
        patch_read(r) == patch_of(value@),
{
    proof {
        json::lemma_json_view(*value);
    }
    let list = match value {
        Json::Object(list) => list,
        _ => {
            return Err(Error::fixed("patch must be a JSON object of task fields"));
        },
    };
    let ghost all = json::members(list@);
    let mut i: usize = 0;
    assert(all.skip(0) =~= all);
    while i < list.len()
        invariant
            i <= list.len(),
            all == json::members(list@),
            value@ == JsonView::Object(all),
            first_protected(all) == first_protected(all.skip(i as int)),
        decreases list.len() - i,
    {
        assert(all.skip(i as int)[0] == list@[i as int]@);
        let name = list[i].name.as_str();
        if is_listed(name, &PROTECTED_TASK_FIELDS) {
            return Err(
                Error::new(
                    cat3(
                        "field '",
                        name,
                        "' is protected: status, timestamps, actor and report evidence are controlled by lifecycle/report operations (start/review/done/complete/report), not by patches",
                    ),
                ),
            );
        }
        assert(all.skip(i as int).skip(1) =~= all.skip(i + 1));
        i += 1;
    }
    let mut k: usize = 0;
    while k < list.len()
        invariant
            k <= list.len(),
            all == json::members(list@),
            value@ == JsonView::Object(all),
            first_protected(all) is None,
            forall|j: int| 0 <= j < k ==> member_fits(#[trigger] all[j]),
        decreases list.len() - k,
    {
        assert(all[k as int] == list@[k as int]@);
        if !fits(&list[k]) {
            return Err(Error::fixed(INVALID_PATCH));
        }
        k += 1;
    }
    Ok(
        TaskPatch {
            title: get_text(value, "title"),
            description: get_text(value, "description"),
            acceptance: get_list(value, "acceptance"),
            context: get_text(value, "context"),
            assignee: get_text(value, "assignee"),
            priority: get_text(value, "priority"),
            labels: get_list(value, "labels"),
            estimate_points: get_integer(value, "estimate_points"),
            estimate_hours: get_number(value, "estimate_hours"),
            deadline: get_text(value, "deadline"),
            links: get_list(value, "links"),
            parent_id: get_integer(value, "parent_id"),
            epic_id: get_integer(value, "epic_id"),
            milestone_id: get_integer(value, "milestone_id"),
            depends_on: get_ids(value, "depends_on"),
        },
    )
}

/// Parses a patch from JSON text, rejecting protected fields, and fields that are
/// unknown or of the wrong type.
pub fn parse_task_patch(text: &str) -> (r: Result<TaskPatch, Error>)
    ensures
        patch_read(r) == (match json::json_reads(text@) {
            Ok(j) => patch_of(j),
            Err(_) => Err(INVALID_JSON@),
        }),
{
    match read_json(text) {
        Ok(j) => parse_task_patch_value(&j),
        Err(_) => Err(Error::fixed(INVALID_JSON)),
    }
}

/// The message about a required field that is null.
pub open spec fn null_message(name: Seq<char>) -> Seq<char> {
    "field '"@ + name + "' is required and cannot be null"@
}

/// Why a patch is refused, if it is: null for a required field, or a text that
/// names no priority.
pub open spec fn patch_refusal(p: TaskPatchView) -> Option<Seq<char>> {
    if p.title is Null {
        Some(null_message("title"@))
    } else if p.description is Null {
        Some(null_message("description"@))
    } else if p.acceptance is Null {
        Some(null_message("acceptance"@))
    } else if p.context is Null {
        Some(null_message("context"@))
    } else if p.priority is Null {
        Some(null_message("priority"@))
    } else if p.priority matches PatchField::Value(s) && model::priority_of(s) is None {
        Some(
            "unknown priority: "@ + text::trim(p.priority->Value_0)
                + " (use highest|high|medium|low|lowest, or 0..4)"@,
        )
    } else if p.labels is Null {
        Some(null_message("labels"@))
    } else if p.links is Null {
        Some(null_message("links"@))
    } else if p.depends_on is Null {
        Some(null_message("depends_on"@))
    } else {
        None
    }
}

/// The value that a patch gives a required field.
pub open spec fn set_to<T>(p: PatchField<T>, was: T) -> T {
    match p {
        PatchField::Value(v) => v,
        _ => was,
    }
}

/// The value that a patch gives a nullable field.
pub open spec fn set_or_cleared<T>(p: PatchField<T>, was: Option<T>) -> Option<T> {
    match p {
        PatchField::Absent => was,
        PatchField::Null => None,
        PatchField::Value(v) => Some(v),
    }
}

/// A task with the fields that a patch gives it.
pub open spec fn patched(t: TaskView, p: TaskPatchView) -> TaskView {
    TaskView {
        title: set_to(p.title, t.title),
        description: set_to(p.description, t.description),
        acceptance: set_to(p.acceptance, t.acceptance),
        context: set_to(p.context, t.context),
        assignee: set_or_cleared(p.assignee, t.assignee),
        priority: match p.priority {
            PatchField::Value(s) => model::priority_of(s)->0,
            _ => t.priority,
        },
        labels: set_to(p.labels, t.labels),
        estimate_points: set_or_cleared(p.estimate_points, t.estimate_points),
        estimate_hours: set_or_cleared(p.estimate_hours, t.estimate_hours),
        deadline: set_or_cleared(p.deadline, t.deadline),
        links: set_to(p.links, t.links),
        parent_id: set_or_cleared(p.parent_id, t.parent_id),
        epic_id: set_or_cleared(p.epic_id, t.epic_id),
        milestone_id: set_or_cleared(p.milestone_id, t.milestone_id),
        depends_on: set_to(p.depends_on, t.depends_on),
        ..t
    }
}

fn set_required<T>(name: &str, p: PatchField<T>, was: T) -> (r: Result<T, Error>)
    ensures
        match r {
            Ok(v) => !(p is Null) && v == set_to(p, was),
            Err(e) => p is Null && e@ == null_message(name@),
        },
{
    match p {
        PatchField::Absent => Ok(was),
        PatchField::Null => Err(
            Error::new(cat3("field '", name, "' is required and cannot be null")),
        ),
        PatchField::Value(v) => Ok(v),
    }
}

fn set_nullable<T>(p: PatchField<T>, was: Option<T>) -> (r: Option<T>)
    ensures
        r == set_or_cleared(p, was),
{
    match p {
        PatchField::Absent => was,
        PatchField::Null => None,
        PatchField::Value(v) => Some(v),
    }
}

/// Gives a task the fields of a patch.
fn apply_patch(task: Task, p: TaskPatch) -> (r: Result<Task, Error>)
    ensures
        match r {
            Ok(t) => patch_refusal(p@) is None && t@ == patched(task@, p@),
            Err(e) => patch_refusal(p@) == Some(e@),
        },
{
    let title = set_required("title", p.title, task.title)?;
    let description = set_required("description", p.description, task.description)?;
    let acceptance = set_required("acceptance", p.acceptance, task.acceptance)?;
    let context = set_required("context", p.context, task.context)?;
    let assignee = set_nullable(p.assignee, task.assignee);
    let priority = match p.priority {
        PatchField::Absent => task.priority,
        PatchField::Null => {
            return Err(
                Error::new(cat3("field '", "priority", "' is required and cannot be null")),
            );
        },
        PatchField::Value(s) => match Priority::parse(s.as_str()) {
            Ok(v) => v,
            Err(e) => {
                return Err(e);
            },
        },
    };
    let labels = set_required("labels", p.labels, task.labels)?;
    let estimate_points = set_nullable(p.estimate_points, task.estimate_points);
    let estimate_hours = set_nullable(p.estimate_hours, task.estimate_hours);
    let deadline = set_nullable(p.deadline, task.deadline);
    let links = set_required("links", p.links, task.links)?;
    let parent_id = set_nullable(p.parent_id, task.parent_id);
    let epic_id = set_nullable(p.epic_id, task.epic_id);
    let milestone_id = set_nullable(p.milestone_id, task.milestone_id);
    let depends_on = set_required("depends_on", p.depends_on, task.depends_on)?;
    Ok(
        Task {
            title,
            description,
            acceptance,
            context,
            assignee,
            priority,
            labels,
            estimate_points,
            estimate_hours,
            deadline,
            links,
            parent_id,
            epic_id,
            milestone_id,
            depends_on,
            ..task
        },
    )
}

/// Replacement of all editable fields of a task at once (a documented legacy
/// operation).
#[derive(Debug)]
pub struct TaskReplace {
    pub title: String,
    pub description: String,
    pub acceptance: Vec<String>,
    pub context: String,
    pub assignee: Option<String>,
    pub priority: Priority,
    pub labels: Vec<String>,
    pub estimate_points: Option<i64>,
    /// Hours, as the shortest decimal text of the number.
    pub estimate_hours: Option<String>,
    pub deadline: Option<String>,
    pub links: Vec<String>,
    pub parent_id: Option<i64>,
    pub epic_id: Option<i64>,
    pub milestone_id: Option<i64>,
}

/// A task with all editable fields replaced.
pub open spec fn replaced(t: TaskView, r: TaskReplace, actor: Seq<char>) -> TaskView {
    TaskView {
        title: r.title@,
        description: r.description@,
        acceptance: text::texts(r.acceptance@),
        context: r.context@,
        assignee: text::opt_text(r.assignee),
        priority: r.priority,
        labels: text::texts(r.labels@),
        estimate_points: r.estimate_points,
        estimate_hours: text::opt_text(r.estimate_hours),
        deadline: text::opt_text(r.deadline),
        links: text::texts(r.links@),
        parent_id: r.parent_id,
        epic_id: r.epic_id,
        milestone_id: r.milestone_id,
        actor: Some(actor),
        ..t
    }
}

/// A typed report update: any subset of the five report sections in one call.
/// Omitted sections stay unchanged. Lists are real arrays (callers never
/// encode JSON inside strings).
#[derive(Debug)]
pub struct ReportUpdate {
    pub result: Option<String>,
    pub validation: Option<String>,
    pub problems: Option<Vec<String>>,
    pub ideas: Option<Vec<String>>,
    pub decisions: Option<Vec<String>>,
}

/// What a [`ReportUpdate`] holds.
#[verifier::ext_equal]
pub struct ReportUpdateView {
    pub result: Option<Seq<char>>,
    pub validation: Option<Seq<char>>,
    pub problems: Option<Seq<Seq<char>>>,
    pub ideas: Option<Seq<Seq<char>>>,
    pub decisions: Option<Seq<Seq<char>>>,
}

impl View for ReportUpdate {
    type V = ReportUpdateView;

    open spec fn view(&self) -> ReportUpdateView {
        ReportUpdateView {
            result: text::opt_text(self.result),
            validation: text::opt_text(self.validation),
            problems: json::opt_texts(self.problems),
            ideas: json::opt_texts(self.ideas),
            decisions: json::opt_texts(self.decisions),
        }
    }
}

/// The report update that changes nothing.
pub open spec fn no_report() -> ReportUpdateView {
    ReportUpdateView { result: None, validation: None, problems: None, ideas: None, decisions: None }
}

impl Default for ReportUpdate {
    fn default() -> (r: ReportUpdate)
        ensures
            r@ == no_report(),
    {
        ReportUpdate { result: None, validation: None, problems: None, ideas: None, decisions: None }
    }
}

fn opt_texts_clone(o: &Option<Vec<String>>) -> (r: Option<Vec<String>>)
    ensures
        json::opt_texts(r) == json::opt_texts(*o),
{
    match o {
        Some(v) => Some(texts_clone(v)),
        None => None,
    }
}

impl Clone for ReportUpdate {
    fn clone(&self) -> (r: ReportUpdate)
        ensures
            r@ == self@,
    {
        ReportUpdate {
            result: opt_clone(&self.result),
            validation: opt_clone(&self.validation),
            problems: opt_texts_clone(&self.problems),
            ideas: opt_texts_clone(&self.ideas),
            decisions: opt_texts_clone(&self.decisions),
        }
    }
}

impl ReportUpdate {
    fn is_empty(&self) -> (r: bool)
        ensures
            r == (self@ == no_report()),
    {
        self.result.is_none() && self.validation.is_none() && self.problems.is_none()
            && self.ideas.is_none() && self.decisions.is_none()
    }
}

/// The outcome of reading a report update.
pub open spec fn report_read(r: Result<ReportUpdate, Error>) -> Result<
    ReportUpdateView,
    Seq<char>,
> {
    match r {
        Ok(u) => Ok(u@),
        Err(e) => Err(e@),
    }
}

/// How a report update treats what is already there.
#[derive(Debug, Clone, Copy, PartialEq, Eq, Structural)]
pub enum ReportMode {
    /// Omitted sections unchanged; provided sections overwrite.
    Replace,
    /// Provided text sections are appended (separated by a blank line);
    /// provided list sections are appended in order.
    Append,
}

/// The mode that a text names, surrounding white space aside.
pub open spec fn mode_of(text: Seq<char>) -> Option<ReportMode> {
    let s = text::trim(text);
    if s == "replace"@ {
        Some(ReportMode::Replace)
    } else if s == "append"@ {
        Some(ReportMode::Append)
    } else {
        None
    }
}

impl ReportMode {
    /// The mode that `s` names.
    pub fn parse(s: &str) -> (r: Result<ReportMode, Error>)
        ensures
            match r {
                Ok(m) => mode_of(s@) == Some(m),
                Err(e) => mode_of(s@) is None && e@ == "unknown report mode: "@ + text::trim(s@)
                    + " (use replace|append)"@,
            },
    {
        let t = trimmed(s);
        if same(t.as_str(), "replace") {
            Ok(ReportMode::Replace)
        } else if same(t.as_str(), "append") {
            Ok(ReportMode::Append)
        } else {
            Err(Error::new(cat3("unknown report mode: ", t.as_str(), " (use replace|append)")))
        }
    }
}

impl std::str::FromStr for ReportMode {
    type Err = Error;

    fn from_str(s: &str) -> (r: Result<ReportMode, Error>)
        ensures
            match r {
                Ok(m) => mode_of(s@) == Some(m),
                Err(e) => mode_of(s@) is None && e@ == "unknown report mode: "@ + text::trim(s@)
                    + " (use replace|append)"@,
            },
    {
        ReportMode::parse(s)
    }
}

/// A text section with a text appended, separated by a blank line.
pub open spec fn appended_text(was: Option<Seq<char>>, new: Seq<char>) -> Seq<char> {
    match was {
        Some(o) => if text::blank(o) {
            new
        } else {
            o + "\n\n"@ + new
        },
        None => new,
    }
}

/// A text section after an update.
pub open spec fn text_section(
    was: Option<Seq<char>>,
    new: Option<Seq<char>>,
    mode: ReportMode,
) -> Option<Seq<char>> {
    match new {
        Some(n) => match mode {
            ReportMode::Replace => Some(n),
            ReportMode::Append => if text::blank(n) {
                was
            } else {
                Some(appended_text(was, n))
            },
        },
        None => was,
    }
}

/// A list section after an update.
pub open spec fn list_section(
    was: Seq<Seq<char>>,
    new: Option<Seq<Seq<char>>>,
    mode: ReportMode,
) -> Seq<Seq<char>> {
    match new {
        Some(n) => match mode {
            ReportMode::Replace => n,
            ReportMode::Append => was + n,
        },
        None => was,
    }
}

/// A task with its report updated.
pub open spec fn reported(t: TaskView, u: ReportUpdateView, mode: ReportMode) -> TaskView {
    TaskView {
        report_result: text_section(t.report_result, u.result, mode),
        report_validation: text_section(t.report_validation, u.validation, mode),
        report_problems: list_section(t.report_problems, u.problems, mode),
        report_ideas: list_section(t.report_ideas, u.ideas, mode),
        report_decisions: list_section(t.report_decisions, u.decisions, mode),
        ..t
    }
}

/// The message about an update without sections.
pub open spec fn empty_report_message() -> Seq<char> {
    "report update is empty: provide at least one of result/validation/problems/ideas/decisions"@
}

fn update_text(was: Option<String>, new: &Option<String>, mode: ReportMode) -> (r: Option<String>)
    ensures
        text::opt_text(r) == text_section(text::opt_text(was), text::opt_text(*new), mode),
{
    match new {
        None => was,
        Some(n) => match mode {
            ReportMode::Replace => Some(n.clone()),
            ReportMode::Append => if is_blank(n.as_str()) {
                was
            } else {
                match was {
                    None => Some(n.clone()),
                    Some(o) => if is_blank(o.as_str()) {
                        Some(n.clone())
                    } else {
                        Some(cat3(o.as_str(), "\n\n", n.as_str()))
                    },
                }
            },
        },
    }
}

fn update_list(was: Vec<String>, new: &Option<Vec<String>>, mode: ReportMode) -> (r: Vec<String>)
    ensures
        text::texts(r@) == list_section(text::texts(was@), json::opt_texts(*new), mode),
{
    match new {
        None => was,
        Some(n) => match mode {
            ReportMode::Replace => texts_clone(n),
            ReportMode::Append => {
                let mut out = was;
                let mut i: usize = 0;
                assert(text::texts(was@) + text::texts(n@).take(0) =~= text::texts(was@));
                while i < n.len()
                    invariant
                        i <= n.len(),
                        text::texts(out@) == text::texts(was@) + text::texts(n@).take(i as int),
                    decreases n.len() - i,
                {
                    let ghost before = text::texts(out@);
                    out.push(n[i].clone());
                    assert(text::texts(out@) =~= before.push(n@[i as int]@));
                    assert(text::texts(n@).take(i + 1) =~= text::texts(n@).take(i as int).push(
                        n@[i as int]@,
                    ));
                    assert(text::texts(out@) =~= text::texts(was@) + text::texts(n@).take(i + 1));
                    i += 1;
                }
                assert(text::texts(n@).take(i as int) =~= text::texts(n@));
                out
            },
        },
    }
}

/// Updates the report of a task.
fn apply_report(task: Task, u: &ReportUpdate, mode: ReportMode) -> (r: Result<Task, Error>)
    ensures
        match r {
            Ok(t) => u@ != no_report() && t@ == reported(task@, u@, mode),
            Err(e) => u@ == no_report() && e@ == empty_report_message(),
        },
{
    if u.is_empty() {
        return Err(
            Error::fixed(
                "report update is empty: provide at least one of result/validation/problems/ideas/decisions",
            ),
        );
    }
    Ok(
        Task {
            report_result: update_text(task.report_result, &u.result, mode),
            report_validation: update_text(task.report_validation, &u.validation, mode),
            report_problems: update_list(task.report_problems, &u.problems, mode),
            report_ideas: update_list(task.report_ideas, &u.ideas, mode),
            report_decisions: update_list(task.report_decisions, &u.decisions, mode),
            ..task
        },
    )
}

/// Why a text is refused as a timestamp, if it is.
pub open spec fn stamp_refusal(name: Seq<char>, value: Option<Seq<char>>) -> Option<Seq<char>> {
    match value {
        Some(v) => if diag::timestamp_of(v) is None {
            Some(name + " = \""@ + v + "\" is not a valid timestamp"@)
        } else {
            None
        },
        None => None,
    }
}

/// Why a complete record is refused, if it is.
pub open spec fn record_refusal(t: TaskView) -> Option<Seq<char>> {
    if text::blank(t.title) {
        Some("task title must not be blank"@)
    } else if stamp_refusal("created_at"@, Some(t.created_at)) is Some {
        stamp_refusal("created_at"@, Some(t.created_at))
    } else if stamp_refusal("updated_at"@, Some(t.updated_at)) is Some {
        stamp_refusal("updated_at"@, Some(t.updated_at))
    } else if stamp_refusal("started_at"@, t.started_at) is Some {
        stamp_refusal("started_at"@, t.started_at)
    } else if stamp_refusal("done_at"@, t.done_at) is Some {
        stamp_refusal("done_at"@, t.done_at)
    } else if t.status == TaskStatus::Closed && !(t.done_at is Some && model::has_evidence(t)) {
        Some("closed tasks require done_at, a nonblank report_result and report_validation"@)
    } else {
        None
    }
}

fn check_stamp(name: &str, value: &str) -> (r: Option<Error>)
    ensures
        match r {
            Some(e) => stamp_refusal(name@, Some(value@)) == Some(e@),
            None => stamp_refusal(name@, Some(value@)) is None,
        },
{
    if parse_ts(value).is_none() {
        let head = cat3(name, " = \"", value);
        Some(Error::new(cat(head.as_str(), "\" is not a valid timestamp")))
    } else {
        None
    }
}

fn check_opt_stamp(name: &str, value: &Option<String>) -> (r: Option<Error>)
    ensures
        match r {
            Some(e) => stamp_refusal(name@, text::opt_text(*value)) == Some(e@),
            None => stamp_refusal(name@, text::opt_text(*value)) is None,
        },
{
    match value {
        Some(v) => check_stamp(name, v.as_str()),
        None => None,
    }
}

/// Validates a complete proposed record before anything is written.
pub fn validate_record(task: &Task) -> (r: Result<(), Error>)
    ensures
        match r {
            Ok(_) => record_refusal(task@) is None,
            Err(e) => record_refusal(task@) == Some(e@),
        },
{
    if is_blank(task.title.as_str()) {
        return Err(Error::fixed("task title must not be blank"));
    }
    if let Some(e) = check_stamp("created_at", task.created_at.as_str()) {
        return Err(e);
    }
    if let Some(e) = check_stamp("updated_at", task.updated_at.as_str()) {
        return Err(e);
    }
    if let Some(e) = check_opt_stamp("started_at", &task.started_at) {
        return Err(e);
    }
    if let Some(e) = check_opt_stamp("done_at", &task.done_at) {
        return Err(e);
    }
    if task.status == TaskStatus::Closed {
        if task.done_at.is_none() || is_opt_blank(&task.report_result) || is_opt_blank(
            &task.report_validation,
        ) {
            return Err(
                Error::fixed(
                    "closed tasks require done_at, a nonblank report_result and report_validation",
                ),
            );
        }
    }
    Ok(())
}

/// A changed record as it is saved at `now`, or the message with which it is
/// refused.
pub open spec fn saved(t: TaskView, now: Seq<char>) -> Result<TaskView, Seq<char>> {
    match record_refusal(t) {
        Some(e) => Err(e),
        None => Ok(TaskView { updated_at: now, ..t }),
    }
}

/// The outcome of an operation on a task.
pub open spec fn outcome(r: Result<Task, Error>) -> Result<TaskView, Seq<char>> {
    match r {
        Ok(t) => Ok(t@),
        Err(e) => Err(e@),
    }
}

/// Validates a changed record and stamps it.
fn save(task: Task, now: &str) -> (r: Result<Task, Error>)
    ensures
        outcome(r) == saved(task@, now@),
{
    match validate_record(&task) {
        Ok(_) => Ok(Task { updated_at: owned(now), ..task }),
        Err(e) => Err(e),
    }
}

/// The text of a task file that is written in place of another: the fields of
/// the new text and, of the old one, those that are neither known nor in the
/// new one.
pub open spec fn preserved_text(new: Seq<char>, old: Seq<char>) -> Result<Seq<char>, Seq<char>> {
    match (doc::toml_reads(new), doc::toml_reads(old)) {
        (Ok(n), Ok(o)) => doc::toml_writes(preserved(n, o)),
        (Err(e), _) => Err(e),
        (_, Err(e)) => Err(e),
    }
}

/// A task document completed by the fields of the one it replaces that are
/// neither known nor in it.
pub open spec fn preserved(new: DocView, old: DocView) -> DocView {
    doc::completed_doc(new, old, diag::KNOWN_TASK_FIELDS@)
}

/// The text of a task file that is written in place of another, preserving
/// unknown and legacy fields of the old one (e.g. `closed_at`). Two documents
/// that read back give a text that is read as the one completed by the other.
pub fn write_task_preserving(new: &str, old: &str) -> (r: Result<String, Error>)
    ensures
        match r {
            Ok(s) => preserved_text(new@, old@) == Ok::<Seq<char>, Seq<char>>(s@),
            Err(e) => preserved_text(new@, old@) == Err::<Seq<char>, Seq<char>>(e@),
        },
        match (doc::toml_reads(new@), doc::toml_reads(old@)) {
            (Ok(n), Ok(o)) => doc::reads_back(n) && doc::reads_back(o) ==> r is Ok
                && doc::toml_reads(r->Ok_0@) == Ok::<DocView, Seq<char>>(preserved(n, o)),
            _ => true,
        },
{
    match complete_text(new, old, &diag::KNOWN_TASK_FIELDS) {
        Ok(s) => Ok(s),
        Err(e) => Err(Error::new(e)),
    }
}

/// Rewriting a task file loses no unknown field: every field of the old
/// document that is not a known task field is in the new one, with its value
/// unless the new document gives it another.
pub proof fn law_unknown_fields_survive(new: DocView, old: DocView, name: Seq<char>)
    requires
        new is Table,
        !text::listed(name, diag::KNOWN_TASK_FIELDS@),
        doc::field_of(new, name) is None,
    ensures
        doc::field_of(preserved(new, old), name) == doc::field_of(old, name),
{
    if let (DocView::Table(n), DocView::Table(o)) = (new, old) {
        doc::law_completed(n, o, diag::KNOWN_TASK_FIELDS@, name);
    }
}

/// Rewriting a task file writes what the new document says, and clears the
/// known fields that it leaves out.
pub proof fn law_known_fields_are_written(new: DocView, old: DocView, name: Seq<char>)
    requires
        new is Table,
        text::listed(name, diag::KNOWN_TASK_FIELDS@) || doc::field_of(new, name) is Some,
    ensures
        doc::field_of(preserved(new, old), name) == doc::field_of(new, name),
{
    if let (DocView::Table(n), DocView::Table(o)) = (new, old) {
        doc::law_completed(n, o, diag::KNOWN_TASK_FIELDS@, name);
    }
}

/// Why the `i`-th and later dependencies of a task are refused, if they are:
/// on itself, twice, or on a task that does not exist.
pub open spec fn edge_refusal(t: TaskView, others: Seq<TaskView>, i: int) -> Option<Seq<char>>
    decreases t.depends_on.len() - i,
{
    if i < 0 || i >= t.depends_on.len() {
        None
    } else {
        let d = t.depends_on[i];
        if d == t.id {
            Some("task "@ + text::decimal(t.id as int) + " cannot depend on itself"@)
        } else if t.depends_on.take(i).contains(d) {
            Some(
                "duplicate dependency #"@ + text::decimal(d as int) + " on task "@ + text::decimal(
                    t.id as int,
                ),
            )
        } else if !diag::has_task(others, d) {
            Some(
                "task "@ + text::decimal(t.id as int) + " depends on #"@ + text::decimal(d as int)
                    + ", which does not exist in this project (dependencies are local; remove the edge explicitly)"@,
            )
        } else {
            edge_refusal(t, others, i + 1)
        }
    }
}

/// The dependencies among a task and the others.
pub open spec fn projected_graph(t: TaskView, others: Seq<TaskView>) -> Seq<NodeView> {
    seq![NodeView { id: t.id, to: t.depends_on }] + diag::dependency_graph(others)
}

/// Why the dependencies of a task are refused, if they are.
pub open spec fn dependency_refusal(t: TaskView, others: Seq<TaskView>) -> Option<Seq<char>> {
    match edge_refusal(t, others, 0) {
        Some(e) => Some(e),
        None => match graph::first_cycle_from(projected_graph(t, others), t.id) {
            Some(c) => Some("dependency cycle: "@ + text::joined(diag::hashed(c), " -> "@)),
            None => None,
        },
    }
}

/// Validates a task's `depends_on` edges against the rest of the project:
/// no duplicates, no self-dependency, no missing ids, no cycles. `others`
/// must be every other task in the project (excluding `task` itself).
pub fn check_dependency_edges(task: &Task, others: &Vec<Task>) -> (r: Result<(), Error>)
    ensures
        match r {
            Ok(_) => dependency_refusal(task@, model::tasks(others@)) is None,
            Err(e) => dependency_refusal(task@, model::tasks(others@)) == Some(e@),
        },
{
    let ghost rest = model::tasks(others@);
    let ghost ids = task@.depends_on;
    let mut seen: Vec<i64> = Vec::new();
    let own = int_text(task.id);
    let mut i: usize = 0;
    assert(ids.take(0) =~= seen@);
    while i < task.depends_on.len()
        invariant
            i <= task.depends_on.len(),
            rest == model::tasks(others@),
            ids == task@.depends_on,
            own@ == text::decimal(task.id as int),
            seen@ == ids.take(i as int),
            edge_refusal(task@, rest, 0) == edge_refusal(task@, rest, i as int),
        decreases task.depends_on.len() - i,
    {
        let d = task.depends_on[i];
        let other = int_text(d);
        if d == task.id {
            return Err(Error::new(cat3("task ", own.as_str(), " cannot depend on itself")));
        }
        if holds(&seen, d) {
            let head = cat3("duplicate dependency #", other.as_str(), " on task ");
            return Err(Error::new(cat(head.as_str(), own.as_str())));
        }
        if task_position(others, d).is_none() {
            let head = cat3("task ", own.as_str(), " depends on #");
            return Err(
                Error::new(
                    cat3(
                        head.as_str(),
                        other.as_str(),
                        ", which does not exist in this project (dependencies are local; remove the edge explicitly)",
                    ),
                ),
            );
        }
        seen.push(d);
        assert(ids.take(i + 1) =~= ids.take(i as int).push(d));
        i += 1;
    }
    let mut nodes: Vec<Node> = Vec::new();
    nodes.push(Node { id: task.id, to: ids_clone(&task.depends_on) });
    let mut more = dependency_nodes(others);
    let ghost first = nodes@;
    let ghost tail = more@;
    nodes.append(&mut more);
    assert(graph::nodes(nodes@) =~= projected_graph(task@, rest)) by {
        assert(graph::nodes(first + tail) =~= graph::nodes(first) + graph::nodes(tail));
    }
    if let Some(c) = find_cycle(&nodes, task.id) {
        let hashes = hash_ids(&c);
        let desc = join(&hashes, " -> ");
        return Err(Error::new(cat("dependency cycle: ", desc.as_str())));
    }
    Ok(())
}

/// The tasks with another id, in order.
pub open spec fn others_of(all: Seq<TaskView>, id: i64) -> Seq<TaskView> {
    all.filter(|t: TaskView| t.id != id)
}

/// Copies of the tasks with another id.
fn other_tasks(all: &Vec<Task>, id: i64) -> (r: Vec<Task>)
    ensures
        model::tasks(r@) == others_of(model::tasks(all@), id),
{
    let mut out: Vec<Task> = Vec::new();
    let ghost list = model::tasks(all@);
    let ghost keep = |t: TaskView| t.id != id;
    let mut i: usize = 0;
    reveal(Seq::filter);
    assert(list.take(0) =~= Seq::empty());
    assert(model::tasks(out@) =~= Seq::empty());
    while i < all.len()
        invariant
            i <= all.len(),
            list == model::tasks(all@),
            keep == (|t: TaskView| t.id != id),
            model::tasks(out@) == list.take(i as int).filter(keep),
        decreases all.len() - i,
    {
        proof {
            text::lemma_filter_take(list, keep, i as int);
        }
        assert(list[i as int] == all@[i as int]@);
        let ghost before = out@;
        if all[i].id != id {
            out.push(all[i].clone());
            assert(model::tasks(out@) =~= model::tasks(before).push(list[i as int]));
        }
        i += 1;
    }
    assert(list.take(i as int) =~= list);
    out
}

/// Validates a task's dependency edges against all tasks of the project.
pub fn validate_dependencies(all: &Vec<Task>, task: &Task) -> (r: Result<(), Error>)
    ensures
        match r {
            Ok(_) => dependency_refusal(task@, others_of(model::tasks(all@), task.id)) is None,
            Err(e) => dependency_refusal(task@, others_of(model::tasks(all@), task.id)) == Some(
                e@,
            ),
        },
{
    let others = other_tasks(all, task.id);
    check_dependency_edges(task, &others)
}

/// Whether some task with the given id is closed.
pub open spec fn is_met(all: Seq<TaskView>, id: i64) -> bool {
    exists|i: int|
        0 <= i < all.len() && (#[trigger] all[i]).id == id && all[i].status == TaskStatus::Closed
}

/// The dependencies of a task that are not closed, in order.
pub open spec fn unmet(all: Seq<TaskView>, t: TaskView) -> Seq<i64> {
    t.depends_on.filter(|d: i64| !is_met(all, d))
}

fn dependency_met(all: &Vec<Task>, id: i64) -> (r: bool)
    ensures
        r == is_met(model::tasks(all@), id),
{
    let ghost list = model::tasks(all@);
    let mut i: usize = 0;
    while i < all.len()
        invariant
            i <= all.len(),
            list == model::tasks(all@),
            forall|j: int|
                0 <= j < i ==> !((#[trigger] list[j]).id == id && list[j].status
                    == TaskStatus::Closed),
        decreases all.len() - i,
    {
        assert(list[i as int] == all@[i as int]@);
        if all[i].id == id && all[i].status == TaskStatus::Closed {
            return true;
        }
        i += 1;
    }
    false
}

/// Ids of `t`'s dependencies that are not closed. Cancelled prerequisites do
/// not count as completed; missing ids count as unmet.
pub fn unmet_dependencies(all: &Vec<Task>, t: &Task) -> (r: Vec<i64>)
    ensures
        r@ == unmet(model::tasks(all@), t@),
{
    let mut out: Vec<i64> = Vec::new();
    let ghost list = model::tasks(all@);
    let ghost ids = t@.depends_on;
    let ghost keep = |d: i64| !is_met(list, d);
    let mut i: usize = 0;
    reveal(Seq::filter);
    assert(ids.take(0) =~= Seq::empty());
    while i < t.depends_on.len()
        invariant
            i <= t.depends_on.len(),
            list == model::tasks(all@),
            ids == t@.depends_on,
            keep == (|d: i64| !is_met(list, d)),
            out@ == ids.take(i as int).filter(keep),
        decreases t.depends_on.len() - i,
    {
        proof {
            text::lemma_filter_take(ids, keep, i as int);
        }
        if !dependency_met(all, t.depends_on[i]) {
            out.push(t.depends_on[i]);
        }
        i += 1;
    }
    assert(ids.take(i as int) =~= ids);
    out
}

/// Whether a task is ready: open, unblocked, and every dependency closed.
pub open spec fn is_ready(all: Seq<TaskView>, t: TaskView) -> bool {
    t.status == TaskStatus::Open && !t.blocked && unmet(all, t).len() == 0
}

/// Whether a task goes before another: by priority rank, then by id.
pub open spec fn more_urgent(a: TaskView, b: TaskView) -> bool {
    order::pair_less(
        (model::priority_rank(a.priority), a.id as int),
        (model::priority_rank(b.priority), b.id as int),
    )
}

/// The order of tasks by priority rank, then by id.
pub open spec fn urgency() -> spec_fn(TaskView, TaskView) -> bool {
    |a: TaskView, b: TaskView| more_urgent(a, b)
}

/// The ready tasks, in order.
pub open spec fn ready_among(all: Seq<TaskView>) -> Seq<TaskView> {
    all.filter(|t: TaskView| is_ready(all, t))
}

/// Sorts tasks by priority rank, then by id.
pub fn sort_by_urgency(list: Vec<Task>) -> (r: Vec<Task>)
    ensures
        model::tasks(r@) == order::sorted_by(model::tasks(list@), urgency()),
{
    let mut keys: Vec<(i64, i64)> = Vec::new();
    let mut i: usize = 0;
    while i < list.len()
        invariant
            i <= list.len(),
            keys.len() == i,
            forall|j: int|
                0 <= j < i ==> (#[trigger] keys@[j]).0 == model::priority_rank(list@[j].priority)
                    && keys@[j].1 == list@[j].id,
        decreases list.len() - i,
    {
        keys.push((list[i].priority.rank() as i64, list[i].id));
        i += 1;
    }
    let ghost less = |a: Task, b: Task| more_urgent(a@, b@);
    let ghost view = |t: Task| t@;
    let ghost all = list@;
    assert forall|a: int, b: int| 0 <= a < all.len() && 0 <= b < all.len() implies #[trigger] less(
        all[a],
        all[b],
    ) == order::pair_less(
        (keys@[a].0 as int, keys@[a].1 as int),
        (keys@[b].0 as int, keys@[b].1 as int),
    ) by {
        assert(keys@[a].0 == model::priority_rank(list@[a].priority));
        assert(keys@[b].0 == model::priority_rank(list@[b].priority));
    }
    proof {
        order::lemma_sorted_map(all, less, view, urgency());
    }
    sort_keyed(list, keys, Ghost(less))
}

/// Ready work: open, unblocked tasks whose dependencies are all closed, sorted
/// by priority rank then id. (Does not touch the manual blocked flag.)
pub fn ready_tasks(all: &Vec<Task>) -> (r: Vec<Task>)
    ensures
        model::tasks(r@) == order::sorted_by(ready_among(model::tasks(all@)), urgency()),
{
    let mut out: Vec<Task> = Vec::new();
    let ghost list = model::tasks(all@);
    let ghost keep = |t: TaskView| is_ready(list, t);
    let mut i: usize = 0;
    reveal(Seq::filter);
    assert(list.take(0) =~= Seq::empty());
    assert(model::tasks(out@) =~= Seq::empty());
    while i < all.len()
        invariant
            i <= all.len(),
            list == model::tasks(all@),
            keep == (|t: TaskView| is_ready(list, t)),
            model::tasks(out@) == list.take(i as int).filter(keep),
        decreases all.len() - i,
    {
        proof {
            text::lemma_filter_take(list, keep, i as int);
        }
        assert(list[i as int] == all@[i as int]@);
        let ghost before = out@;
        let t = &all[i];
        if t.status == TaskStatus::Open && !t.blocked && unmet_dependencies(all, t).len() == 0 {
            out.push(t.clone());
            assert(model::tasks(out@) =~= model::tasks(before).push(list[i as int]));
        }
        i += 1;
    }
    assert(list.take(i as int) =~= list);
    sort_by_urgency(out)
}

/// Urgency is an order.
pub proof fn lemma_urgency_orders()
    ensures
        order::orders(urgency()),
{
    assert forall|a: TaskView, b: TaskView| #[trigger] urgency()(a, b) implies !urgency()(b, a) by {}
    assert forall|a: TaskView, b: TaskView, c: TaskView|
        #![trigger urgency()(b, a), urgency()(c, b)]
        !urgency()(b, a) && !urgency()(c, b) implies !urgency()(c, a) by {}
}

/// The ready list holds each open, unblocked task whose dependencies are all
/// closed, exactly as often as the project does, by priority and then by id;
/// a cancelled or missing prerequisite does not count.
pub proof fn law_ready_work(all: Seq<TaskView>)
    ensures
        ({
            let ready = order::sorted_by(ready_among(all), urgency());
            &&& order::in_order(ready, urgency())
            &&& ready.to_multiset() == ready_among(all).to_multiset()
            &&& forall|i: int|
                0 <= i < ready.len() ==> {
                    let t = #[trigger] ready[i];
                    &&& t.status == TaskStatus::Open
                    &&& !t.blocked
                    &&& forall|k: int|
                        0 <= k < t.depends_on.len() ==> is_met(all, #[trigger] t.depends_on[k])
                }
            &&& forall|i: int|
                0 <= i < all.len() && all[i].status == TaskStatus::Open && !all[i].blocked && (
                forall|k: int|
                    0 <= k < all[i].depends_on.len() ==> is_met(
                        all,
                        #[trigger] all[i].depends_on[k],
                    )) ==> ready.contains(#[trigger] all[i])
        }),
{
    lemma_urgency_orders();
    let some = ready_among(all);
    order::lemma_sorted(some, urgency());
    let ready = order::sorted_by(some, urgency());
    broadcast use vstd::seq_lib::group_to_multiset_ensures;
    broadcast use vstd::seq_lib::group_seq_properties;

    assert forall|i: int| 0 <= i < ready.len() implies {
        let t = #[trigger] ready[i];
        &&& t.status == TaskStatus::Open
        &&& !t.blocked
        &&& forall|k: int| 0 <= k < t.depends_on.len() ==> is_met(all, #[trigger] t.depends_on[k])
    } by {
        let t = ready[i];
        assert(ready.contains(t));
        assert(ready.to_multiset().count(t) > 0);
        assert(some.to_multiset().count(t) > 0);
        assert(some.contains(t));
        let j = choose|j: int| 0 <= j < some.len() && some[j] == t;
        text::lemma_filter_keeps(all, |x: TaskView| is_ready(all, x), j);
        assert(is_ready(all, t));
        assert forall|k: int| 0 <= k < t.depends_on.len() implies is_met(
            all,
            #[trigger] t.depends_on[k],
        ) by {
            if !is_met(all, t.depends_on[k]) {
                lemma_filter_takes(t.depends_on, |d: i64| !is_met(all, d), k);
            }
        }
    }
    assert forall|i: int|
        0 <= i < all.len() && all[i].status == TaskStatus::Open && !all[i].blocked && (forall|k: int|
            0 <= k < all[i].depends_on.len() ==> is_met(
                all,
                #[trigger] all[i].depends_on[k],
            )) implies ready.contains(#[trigger] all[i]) by {
        let t = all[i];
        if unmet(all, t).len() > 0 {
            text::lemma_filter_keeps(t.depends_on, |d: i64| !is_met(all, d), 0);
            let k = choose|k: int|
                0 <= k < t.depends_on.len() && t.depends_on[k] == unmet(all, t)[0];
            assert(is_met(all, t.depends_on[k]));
        }
        lemma_filter_takes(all, |x: TaskView| is_ready(all, x), i);
        assert(some.contains(t));
        assert(some.to_multiset().count(t) > 0);
        assert(ready.to_multiset().count(t) > 0);
    }
}

proof fn lemma_filter_takes<T>(s: Seq<T>, f: spec_fn(T) -> bool, k: int)
    requires
        0 <= k < s.len(),
        f(s[k]),
    ensures
        s.filter(f).contains(s[k]),
    decreases s.len(),
{
    reveal(Seq::filter);
    let rest = s.drop_last().filter(f);
    if k == s.len() - 1 {
        assert(s.filter(f)[rest.len() as int] == s[k]);
    } else {
        lemma_filter_takes(s.drop_last(), f, k);
        let i = choose|i: int| 0 <= i < rest.len() && rest[i] == s[k];
        assert(s.filter(f)[i] == s[k]);
    }
}

/// Accepting the dependencies of a task keeps the dependencies of the project
/// free of cycles.
pub proof fn law_dependencies_stay_acyclic(t: TaskView, others: Seq<TaskView>)
    requires
        graph::acyclic(diag::dependency_graph(others)),
        dependency_refusal(t, others) is None,
    ensures
        graph::acyclic(projected_graph(t, others)),
{
    let g = projected_graph(t, others);
    let rest = diag::dependency_graph(others);
    graph::law_first_cycle_decides(g, t.id);
    assert(g.skip(1) =~= rest);
    graph::law_extension_stays_acyclic(g, rest);
}

/// A new task that a project accepts, or the message with which it is refused.
pub open spec fn created(t: TaskView, all: Seq<TaskView>) -> Result<TaskView, Seq<char>> {
    match record_refusal(t) {
        Some(e) => Err(e),
        None => match dependency_refusal(t, others_of(all, t.id)) {
            Some(e) => Err(e),
            None => Ok(t),
        },
    }
}

/// Accepts a new task, whose id has been allocated, into a project.
pub fn create_task(task: Task, all: &Vec<Task>) -> (r: Result<Task, Error>)
    ensures
        outcome(r) == created(task@, model::tasks(all@)),
{
    if let Err(e) = validate_record(&task) {
        return Err(e);
    }
    if let Err(e) = validate_dependencies(all, &task) {
        return Err(e);
    }
    Ok(task)
}

/// A task after a patch, or the message with which it is refused.
pub open spec fn patch_outcome(
    t: TaskView,
    all: Seq<TaskView>,
    p: TaskPatchView,
    actor: Seq<char>,
    now: Seq<char>,
) -> Result<TaskView, Seq<char>> {
    match patch_refusal(p) {
        Some(e) => Err(e),
        None => {
            let n = patched(t, p);
            match dependency_refusal(n, others_of(all, n.id)) {
                Some(e) => Err(e),
                None => saved(TaskView { actor: Some(actor), ..n }, now),
            }
        },
    }
}

/// Applies a partial patch at `now`. Omitted fields unchanged; validation
/// happens on the complete proposed record.
pub fn patch_task_at(task: Task, all: &Vec<Task>, patch: TaskPatch, actor: &str, now: &str) -> (r:
    Result<Task, Error>)
    ensures
        outcome(r) == patch_outcome(task@, model::tasks(all@), patch@, actor@, now@),
{
    let t = match apply_patch(task, patch) {
        Ok(t) => t,
        Err(e) => {
            return Err(e);
        },
    };
    if let Err(e) = validate_dependencies(all, &t) {
        return Err(e);
    }
    save(Task { actor: Some(owned(actor)), ..t }, now)
}

/// Applies a partial patch now.
pub fn patch_task(task: Task, all: &Vec<Task>, patch: TaskPatch, actor: &str) -> (r: Result<
    Task,
    Error,
>)
    ensures
        exists|now: Seq<char>|
            clock::is_stamp(now) && outcome(r) == #[trigger] patch_outcome(
                task@,
                model::tasks(all@),
                patch@,
                actor@,
                now,
            ),
{
    let now = now_ts();
    patch_task_at(task, all, patch, actor, now.as_str())
}

/// Replaces all editable fields of a task at `now`.
pub fn replace_task_at(task: Task, by: TaskReplace, actor: &str, now: &str) -> (r: Result<
    Task,
    Error,
>)
    ensures
        outcome(r) == saved(replaced(task@, by, actor@), now@),
{
    let t = Task {
        title: by.title,
        description: by.description,
        acceptance: by.acceptance,
        context: by.context,
        assignee: by.assignee,
        priority: by.priority,
        labels: by.labels,
        estimate_points: by.estimate_points,
        estimate_hours: by.estimate_hours,
        deadline: by.deadline,
        links: by.links,
        parent_id: by.parent_id,
        epic_id: by.epic_id,
        milestone_id: by.milestone_id,
        actor: Some(owned(actor)),
        ..task
    };
    save(t, now)
}

/// Replaces all editable fields of a task now.
pub fn replace_task(task: Task, by: TaskReplace, actor: &str) -> (r: Result<Task, Error>)
    ensures
        exists|now: Seq<char>|
            clock::is_stamp(now) && outcome(r) == #[trigger] saved(replaced(task@, by, actor@), now),
{
    let now = now_ts();
    replace_task_at(task, by, actor, now.as_str())
}

/// A task after a report update, or the message with which it is refused.
pub open spec fn report_outcome(
    t: TaskView,
    u: ReportUpdateView,
    mode: ReportMode,
    actor: Seq<char>,
    now: Seq<char>,
) -> Result<TaskView, Seq<char>> {
    if u == no_report() {
        Err(empty_report_message())
    } else {
        saved(TaskView { actor: Some(actor), ..reported(t, u, mode) }, now)
    }
}

/// One typed update of any subset of the five report sections, at `now`.
pub fn update_report_at(
    task: Task,
    u: &ReportUpdate,
    mode: ReportMode,
    actor: &str,
    now: &str,
) -> (r: Result<Task, Error>)
    ensures
        outcome(r) == report_outcome(task@, u@, mode, actor@, now@),
{
    match apply_report(task, u, mode) {
        Ok(t) => save(Task { actor: Some(owned(actor)), ..t }, now),
        Err(e) => Err(e),
    }
}

/// One typed update of any subset of the five report sections, now.
pub fn update_report(task: Task, u: &ReportUpdate, mode: ReportMode, actor: &str) -> (r: Result<
    Task,
    Error,
>)
    ensures
        exists|now: Seq<char>|
            clock::is_stamp(now) && outcome(r) == #[trigger] report_outcome(task@, u@, mode, actor@, now),
{
    let now = now_ts();
    update_report_at(task, u, mode, actor, now.as_str())
}

/// The list that a text denotes: that of a JSON array of strings, or the text
/// alone.
pub open spec fn listed_text(content: Seq<char>, read: Result<JsonView, Seq<char>>) -> Seq<
    Seq<char>,
> {
    match read {
        Ok(j) => match json::texts_of(j) {
            Some(l) => l,
            None => seq![content],
        },
        Err(_) => seq![content],
    }
}

/// The update of one report section by a text, or the message about an unknown
/// section.
pub open spec fn section_update(
    section: Seq<char>,
    content: Seq<char>,
    read: Result<JsonView, Seq<char>>,
) -> Result<ReportUpdateView, Seq<char>> {
    if section == "result"@ {
        Ok(ReportUpdateView { result: Some(content), ..no_report() })
    } else if section == "validation"@ {
        Ok(ReportUpdateView { validation: Some(content), ..no_report() })
    } else if section == "problems"@ {
        Ok(ReportUpdateView { problems: Some(listed_text(content, read)), ..no_report() })
    } else if section == "ideas"@ {
        Ok(ReportUpdateView { ideas: Some(listed_text(content, read)), ..no_report() })
    } else if section == "decisions"@ {
        Ok(ReportUpdateView { decisions: Some(listed_text(content, read)), ..no_report() })
    } else {
        Err(
            "unknown report section: "@ + section
                + " (use result|validation|problems|ideas|decisions)"@,
        )
    }
}

/// What reading a JSON text gives.
pub open spec fn json_read(r: Result<Json, String>) -> Result<JsonView, Seq<char>> {
    match r {
        Ok(j) => Ok(j@),
        Err(e) => Err(e@),
    }
}

fn list_of_text(content: &str, read: &Result<Json, String>) -> (r: Vec<String>)
    ensures
        text::texts(r@) == listed_text(content@, json_read(*read)),
{
    if let Ok(j) = read {
        if let Some(l) = as_texts(j) {
            return l;
        }
    }
    let mut one: Vec<String> = Vec::new();
    one.push(owned(content));
    assert(text::texts(one@) =~= seq![content@]);
    one
}

/// The update of one report section by a text, given what the text reads as;
/// list sections accept a JSON-array-encoded string.
pub fn section_update_of(section: &str, content: &str, read: &Result<Json, String>) -> (r: Result<
    ReportUpdate,
    Error,
>)
    ensures
        report_read(r) == section_update(section@, content@, json_read(*read)),
{
    let none = ReportUpdate::default();
    if same(section, "result") {
        Ok(ReportUpdate { result: Some(owned(content)), ..none })
    } else if same(section, "validation") {
        Ok(ReportUpdate { validation: Some(owned(content)), ..none })
    } else if same(section, "problems") {
        Ok(ReportUpdate { problems: Some(list_of_text(content, read)), ..none })
    } else if same(section, "ideas") {
        Ok(ReportUpdate { ideas: Some(list_of_text(content, read)), ..none })
    } else if same(section, "decisions") {
        Ok(ReportUpdate { decisions: Some(list_of_text(content, read)), ..none })
    } else {
        Err(
            Error::new(
                cat3(
                    "unknown report section: ",
                    section,
                    " (use result|validation|problems|ideas|decisions)",
                ),
            ),
        )
    }
}

/// A task after a legacy section update, or the message with which it is
/// refused.
pub open spec fn section_outcome(
    t: TaskView,
    section: Seq<char>,
    content: Seq<char>,
    actor: Seq<char>,
    now: Seq<char>,
) -> Result<TaskView, Seq<char>> {
    match section_update(section, content, json::json_reads(content)) {
        Ok(u) => report_outcome(t, u, ReportMode::Replace, actor, now),
        Err(e) => Err(e),
    }
}

/// Legacy single-section replacement (including the historical quirk that list
/// sections accept a JSON-array-encoded string), at `now`.
pub fn update_report_section_legacy_at(
    task: Task,
    section: &str,
    content: &str,
    actor: &str,
    now: &str,
) -> (r: Result<Task, Error>)
    ensures
        outcome(r) == section_outcome(task@, section@, content@, actor@, now@),
{
    let read = read_json(content);
    match section_update_of(section, content, &read) {
        Ok(u) => update_report_at(task, &u, ReportMode::Replace, actor, now),
        Err(e) => Err(e),
    }
}

/// Legacy single-section replacement now.
pub fn update_report_section_legacy(task: Task, section: &str, content: &str, actor: &str) -> (r:
    Result<Task, Error>)
    ensures
        exists|now: Seq<char>|
            clock::is_stamp(now) && outcome(r) == #[trigger] section_outcome(task@, section@, content@, actor@, now),
{
    let now = now_ts();
    update_report_section_legacy_at(task, section, content, actor, now.as_str())
}

/// The message about completing a task that is not in review.
pub open spec fn not_in_review(id: i64, status: TaskStatus) -> Seq<char> {
    "complete requires a task in review (task "@ + text::decimal(id as int) + " is "@
        + model::status_name(status)
        + "); move it to review first — review is never silently skipped"@
}

/// A task brought to review for its completion, or the message with which it
/// is refused: without automation a started task passes through review, which
/// is recorded.
pub open spec fn in_review(
    id: i64,
    t: TaskView,
    actor: Seq<char>,
    mode: GitIntegration,
    times: TimesView,
) -> Result<TaskView, Seq<char>> {
    if t.status == TaskStatus::Started && mode == GitIntegration::Off {
        match model::refusal(t, TaskAction::Review, None) {
            Some(e) => Err(e),
            None => Ok(model::applied(t, TaskAction::Review, actor, None, times)),
        }
    } else if t.status != TaskStatus::Review {
        Err(not_in_review(id, t.status))
    } else {
        Ok(t)
    }
}

/// A task after its completion, or the message with which it is refused.
pub open spec fn complete_outcome(
    id: i64,
    t: TaskView,
    u: ReportUpdateView,
    actor: Seq<char>,
    mode: GitIntegration,
    review: TimesView,
    done: TimesView,
    now: Seq<char>,
) -> Result<TaskView, Seq<char>> {
    match in_review(id, t, actor, mode, review) {
        Err(e) => Err(e),
        Ok(ready) => if u == no_report() {
            Err(empty_report_message())
        } else {
            let full = reported(ready, u, ReportMode::Replace);
            match model::refusal(full, TaskAction::Done, None) {
                Some(e) => Err(e),
                None => {
                    let closed = model::applied(full, TaskAction::Done, actor, None, done);
                    match record_refusal(closed) {
                        Some(e) => Err(e),
                        None => Ok(
                            TaskView { actor: Some(actor), updated_at: now, ..closed },
                        ),
                    }
                },
            }
        },
    }
}

/// Saves the report and closes a task in one step, at the given times. Review
/// is never silently skipped: the task must be in review, or pass through it
/// on the record where nothing automatic depends on it. A refusal changes
/// nothing.
pub fn complete_task_at(
    id: i64,
    task: Task,
    u: &ReportUpdate,
    actor: &str,
    mode: GitIntegration,
    review: &Times,
    done: &Times,
    now: &str,
) -> (r: Result<Task, Error>)
    ensures
        outcome(r) == complete_outcome(id, task@, u@, actor@, mode, review@, done@, now@),
{
    let ctx = LifecycleCtx::new(actor, None);
    let mut t = task;
    if t.status == TaskStatus::Started && mode == GitIntegration::Off {
        if let Err(e) = t.apply_at(TaskAction::Review, &ctx, review) {
            return Err(e);
        }
    } else if t.status != TaskStatus::Review {
        let n = int_text(id);
        let head = cat3("complete requires a task in review (task ", n.as_str(), " is ");
        return Err(
            Error::new(
                cat3(
                    head.as_str(),
                    t.status.as_str(),
                    "); move it to review first — review is never silently skipped",
                ),
            ),
        );
    }
    let mut full = match apply_report(t, u, ReportMode::Replace) {
        Ok(f) => f,
        Err(e) => {
            return Err(e);
        },
    };
    if let Err(e) = full.apply_at(TaskAction::Done, &ctx, done) {
        return Err(e);
    }
    if let Err(e) = validate_record(&full) {
        return Err(e);
    }
    Ok(Task { actor: Some(owned(actor)), updated_at: owned(now), ..full })
}

/// Saves the report and closes a task in one step, now.
pub fn complete_task(id: i64, task: Task, u: &ReportUpdate, actor: &str, mode: GitIntegration)
    -> (r: Result<Task, Error>)
    ensures
        exists|review: TimesView, done: TimesView, now: Seq<char>|
            model::stamped(review) && model::stamped(done) && clock::is_stamp(now) && outcome(r)
                == #[trigger] complete_outcome(
                id,
                task@,
                u@,
                actor@,
                mode,
                review,
                done,
                now,
            ),
{
    let review = Times::now();
    let done = Times::now();
    let now = now_ts();
    complete_task_at(id, task, u, actor, mode, &review, &done, now.as_str())
}

/// Why a task cannot be started for its dependencies, if it cannot.
pub open spec fn start_refusal(id: i64, all: Seq<TaskView>) -> Option<Seq<char>> {
    match diag::find_task(all, id) {
        Some(t) => if unmet(all, t).len() > 0 {
            Some(
                "cannot start task "@ + text::decimal(id as int) + ": unmet dependencies "@
                    + text::joined(diag::hashed(unmet(all, t)), ", "@)
                    + " (a dependency must be closed; cancelled does not count)"@,
            )
        } else {
            None
        },
        None => None,
    }
}

/// A task after an action, or the message with which it is refused.
pub open spec fn action_outcome(
    id: i64,
    t: TaskView,
    all: Seq<TaskView>,
    action: TaskAction,
    actor: Seq<char>,
    reason: Option<Seq<char>>,
    times: TimesView,
    now: Seq<char>,
) -> Result<TaskView, Seq<char>> {
    if action == TaskAction::Start && start_refusal(id, all) is Some {
        Err(start_refusal(id, all)->0)
    } else {
        match model::refusal(t, action, reason) {
            Some(e) => Err(e),
            None => saved(model::applied(t, action, actor, reason, times), now),
        }
    }
}

fn check_start(id: i64, all: &Vec<Task>) -> (r: Option<Error>)
    ensures
        match r {
            Some(e) => start_refusal(id, model::tasks(all@)) == Some(e@),
            None => start_refusal(id, model::tasks(all@)) is None,
        },
{
    let at = match task_position(all, id) {
        Some(at) => at,
        None => {
            return None;
        },
    };
    let missing = unmet_dependencies(all, &all[at]);
    if missing.len() == 0 {
        return None;
    }
    let hashes = hash_ids(&missing);
    let list = join(&hashes, ", ");
    let n = int_text(id);
    let head = cat3("cannot start task ", n.as_str(), ": unmet dependencies ");
    Some(
        Error::new(
            cat3(
                head.as_str(),
                list.as_str(),
                " (a dependency must be closed; cancelled does not count)",
            ),
        ),
    )
}

/// Lifecycle entry point: the state-machine transition, at the given times. A
/// start is refused while a dependency is not closed.
pub fn apply_action_at(
    id: i64,
    task: Task,
    all: &Vec<Task>,
    action: TaskAction,
    actor: &str,
    reason: Option<&str>,
    times: &Times,
    now: &str,
) -> (r: Result<Task, Error>)
    ensures
        outcome(r) == action_outcome(
            id,
            task@,
            model::tasks(all@),
            action,
            actor@,
            text::given(reason),
            times@,
            now@,
        ),
{
    if action == TaskAction::Start {
        if let Some(e) = check_start(id, all) {
            return Err(e);
        }
    }
    let ctx = LifecycleCtx::new(actor, reason);
    let mut t = task;
    if let Err(e) = t.apply_at(action, &ctx, times) {
        return Err(e);
    }
    save(t, now)
}

/// Lifecycle entry point, now.
pub fn apply_action(
    id: i64,
    task: Task,
    all: &Vec<Task>,
    action: TaskAction,
    actor: &str,
    reason: Option<&str>,
) -> (r: Result<Task, Error>)
    ensures
        exists|times: TimesView, now: Seq<char>|
            model::stamped(times) && clock::is_stamp(now) && outcome(r) == #[trigger] action_outcome(
                id,
                task@,
                model::tasks(all@),
                action,
                actor@,
                text::given(reason),
                times,
                now,
            ),
{
    let times = Times::now();
    let now = now_ts();
    apply_action_at(id, task, all, action, actor, reason, &times, now.as_str())
}

/// What git integration does after a transition.
#[derive(Debug, Clone, Copy, PartialEq, Eq, Structural)]
pub enum GitStep {
    Nothing,
    Branch,
    PullRequest,
}

/// What git integration does after an action: a branch on start, a pull
/// request on review, and nothing unless automation is on.
pub fn git_step(mode: GitIntegration, action: TaskAction) -> (r: GitStep)
    ensures
        r == (if mode == GitIntegration::Auto && action == TaskAction::Start {
            GitStep::Branch
        } else if mode == GitIntegration::Auto && action == TaskAction::Review {
            GitStep::PullRequest
        } else {
            GitStep::Nothing
        }),
{
    if mode == GitIntegration::Auto {
        match action {
            TaskAction::Start => GitStep::Branch,
            TaskAction::Review => GitStep::PullRequest,
            _ => GitStep::Nothing,
        }
    } else {
        GitStep::Nothing
    }
}

/// A follow-up task, or the message with which it is refused.
pub open spec fn follow_up_outcome(
    id: i64,
    original_id: i64,
    original: bool,
    title: Seq<char>,
    description: Seq<char>,
    actor: Seq<char>,
    all: Seq<TaskView>,
    now: Seq<char>,
) -> Result<TaskView, Seq<char>> {
    if text::blank(title) {
        Err("a follow-up requires a supplied nonblank title"@)
    } else if !original {
        Err("task "@ + text::decimal(original_id as int) + " not found"@)
    } else {
        created(
            TaskView {
                follow_up_of: Some(original_id),
                actor: Some(actor),
                ..model::fresh_task(id, title, description, now)
            },
            all,
        )
    }
}

/// Creates an explicit follow-up task with the allocated `id`, linked to
/// `original_id` via `follow_up_of`, at `now`; `original` tells whether that
/// task exists. The original task is left unchanged (it stays closed when
/// closed). No dependency is implied unless one is requested separately.
pub fn create_follow_up_at(
    id: i64,
    original_id: i64,
    original: bool,
    title: String,
    description: String,
    actor: &str,
    all: &Vec<Task>,
    now: &str,
) -> (r: Result<Task, Error>)
    ensures
        outcome(r) == follow_up_outcome(
            id,
            original_id,
            original,
            title@,
            description@,
            actor@,
            model::tasks(all@),
            now@,
        ),
{
    if is_blank(title.as_str()) {
        return Err(Error::fixed("a follow-up requires a supplied nonblank title"));
    }
    if !original {
        let n = int_text(original_id);
        return Err(Error::new(cat3("task ", n.as_str(), " not found")));
    }
    let t = Task::new_at(id, title, description, now);
    let t = Task { follow_up_of: Some(original_id), actor: Some(owned(actor)), ..t };
    create_task(t, all)
}

/// Creates an explicit follow-up task now.
pub fn create_follow_up(
    id: i64,
    original_id: i64,
    original: bool,
    title: String,
    description: String,
    actor: &str,
    all: &Vec<Task>,
) -> (r: Result<Task, Error>)
    ensures
        exists|now: Seq<char>|
            clock::is_stamp(now) && outcome(r) == #[trigger] follow_up_outcome(
                id,
                original_id,
                original,
                title@,
                description@,
                actor@,
                model::tasks(all@),
                now,
            ),
{
    let now = now_ts();
    create_follow_up_at(id, original_id, original, title, description, actor, all, now.as_str())
}

/// The ids of the tasks that depend on the given one, in order.
pub open spec fn dependents(all: Seq<TaskView>, id: i64) -> Seq<i64> {
    all.filter(|t: TaskView| t.depends_on.contains(id)).map_values(|t: TaskView| t.id)
}

/// The ids of the follow-ups of the given task, in order.
pub open spec fn followers(all: Seq<TaskView>, id: i64) -> Seq<i64> {
    all.filter(|t: TaskView| t.follow_up_of == Some(id)).map_values(|t: TaskView| t.id)
}

/// Ids as a list.
pub open spec fn id_list(ids: Seq<i64>) -> Seq<char> {
    text::joined(diag::hashed(ids), ", "@)
}

/// Why a task cannot be moved to another project, if it cannot: a dependency
/// or follow-up reference in either direction would break.
pub open spec fn move_refusal(id: i64, t: TaskView, all: Seq<TaskView>) -> Option<Seq<char>> {
    let n = text::decimal(id as int);
    if t.depends_on.len() > 0 {
        Some(
            "task "@ + n + " depends on "@ + id_list(t.depends_on)
                + " in this project; remove those dependency edges explicitly before moving it across projects (dependencies are project-local)"@,
        )
    } else if dependents(all, id).len() > 0 {
        Some(
            "tasks "@ + id_list(dependents(all, id)) + " depend on task "@ + n
                + " in this project; remove those dependency edges explicitly before moving it (no dangling ids are created)"@,
        )
    } else if t.follow_up_of is Some {
        Some(
            "task "@ + n + " is a follow-up of task #"@ + text::decimal(t.follow_up_of->0 as int)
                + " in this project; clear follow_up_of explicitly before moving it (references must not silently break)"@,
        )
    } else if followers(all, id).len() > 0 {
        Some(
            "tasks "@ + id_list(followers(all, id)) + " are follow-ups of task "@ + n
                + "; clear their follow_up_of references explicitly before moving it"@,
        )
    } else {
        None
    }
}

/// A task after its move, or the message with which it is refused.
pub open spec fn move_outcome(
    id: i64,
    t: TaskView,
    all: Seq<TaskView>,
    new_id: i64,
    actor: Seq<char>,
    now: Seq<char>,
) -> Result<TaskView, Seq<char>> {
    match move_refusal(id, t, all) {
        Some(e) => Err(e),
        None => {
            let moved = TaskView { id: new_id, actor: Some(actor), updated_at: now, ..t };
            match record_refusal(moved) {
                Some(e) => Err(e),
                None => Ok(moved),
            }
        },
    }
}

fn dependent_ids(all: &Vec<Task>, id: i64) -> (r: Vec<i64>)
    ensures
        r@ == dependents(model::tasks(all@), id),
{
    let mut out: Vec<i64> = Vec::new();
    let ghost list = model::tasks(all@);
    let ghost keep = |t: TaskView| t.depends_on.contains(id);
    let ghost pick = |t: TaskView| t.id;
    let mut i: usize = 0;
    reveal(Seq::filter);
    assert(list.take(0) =~= Seq::empty());
    assert(out@ =~= list.take(0).filter(keep).map_values(pick));
    while i < all.len()
        invariant
            i <= all.len(),
            list == model::tasks(all@),
            keep == (|t: TaskView| t.depends_on.contains(id)),
            pick == (|t: TaskView| t.id),
            out@ == list.take(i as int).filter(keep).map_values(pick),
        decreases all.len() - i,
    {
        proof {
            text::lemma_filter_take(list, keep, i as int);
        }
        let ghost kept = list.take(i as int).filter(keep);
        assert(list[i as int] == all@[i as int]@);
        if holds(&all[i].depends_on, id) {
            out.push(all[i].id);
            assert(kept.push(list[i as int]).map_values(pick) =~= kept.map_values(pick).push(
                list[i as int].id,
            ));
        }
        i += 1;
    }
    assert(list.take(i as int) =~= list);
    out
}

fn follower_ids(all: &Vec<Task>, id: i64) -> (r: Vec<i64>)
    ensures
        r@ == followers(model::tasks(all@), id),
{
    let mut out: Vec<i64> = Vec::new();
    let ghost list = model::tasks(all@);
    let ghost keep = |t: TaskView| t.follow_up_of == Some(id);
    let ghost pick = |t: TaskView| t.id;
    let mut i: usize = 0;
    reveal(Seq::filter);
    assert(list.take(0) =~= Seq::empty());
    assert(out@ =~= list.take(0).filter(keep).map_values(pick));
    while i < all.len()
        invariant
            i <= all.len(),
            list == model::tasks(all@),
            keep == (|t: TaskView| t.follow_up_of == Some(id)),
            pick == (|t: TaskView| t.id),
            out@ == list.take(i as int).filter(keep).map_values(pick),
        decreases all.len() - i,
    {
        proof {
            text::lemma_filter_take(list, keep, i as int);
        }
        let ghost kept = list.take(i as int).filter(keep);
        assert(list[i as int] == all@[i as int]@);
        let follows = match all[i].follow_up_of {
            Some(o) => o == id,
            None => false,
        };
        if follows {
            out.push(all[i].id);
            assert(kept.push(list[i as int]).map_values(pick) =~= kept.map_values(pick).push(
                list[i as int].id,
            ));
        }
        i += 1;
    }
    assert(list.take(i as int) =~= list);
    out
}

fn list_ids(ids: &Vec<i64>) -> (r: String)
    ensures
        r@ == id_list(ids@),
{
    let hashes = hash_ids(ids);
    join(&hashes, ", ")
}

/// Moves a task to another project, where `new_id` has been allocated, at
/// `now`; `all` are the tasks of the project that it leaves.
pub fn move_task_at(
    id: i64,
    task: Task,
    all: &Vec<Task>,
    new_id: i64,
    actor: &str,
    now: &str,
) -> (r: Result<Task, Error>)
    ensures
        outcome(r) == move_outcome(id, task@, model::tasks(all@), new_id, actor@, now@),
{
    let n = int_text(id);
    if task.depends_on.len() > 0 {
        let list = list_ids(&task.depends_on);
        let head = cat3("task ", n.as_str(), " depends on ");
        return Err(
            Error::new(
                cat3(
                    head.as_str(),
                    list.as_str(),
                    " in this project; remove those dependency edges explicitly before moving it across projects (dependencies are project-local)",
                ),
            ),
        );
    }
    let dependents = dependent_ids(all, id);
    if dependents.len() > 0 {
        let list = list_ids(&dependents);
        let head = cat3("tasks ", list.as_str(), " depend on task ");
        return Err(
            Error::new(
                cat3(
                    head.as_str(),
                    n.as_str(),
                    " in this project; remove those dependency edges explicitly before moving it (no dangling ids are created)",
                ),
            ),
        );
    }
    if let Some(original) = task.follow_up_of {
        let o = int_text(original);
        let head = cat3("task ", n.as_str(), " is a follow-up of task #");
        return Err(
            Error::new(
                cat3(
                    head.as_str(),
                    o.as_str(),
                    " in this project; clear follow_up_of explicitly before moving it (references must not silently break)",
                ),
            ),
        );
    }
    let followers = follower_ids(all, id);
    if followers.len() > 0 {
        let list = list_ids(&followers);
        let head = cat3("tasks ", list.as_str(), " are follow-ups of task ");
        return Err(
            Error::new(
                cat3(
                    head.as_str(),
                    n.as_str(),
                    "; clear their follow_up_of references explicitly before moving it",
                ),
            ),
        );
    }
    let moved = Task { id: new_id, actor: Some(owned(actor)), updated_at: owned(now), ..task };
    match validate_record(&moved) {
        Ok(_) => Ok(moved),
        Err(e) => Err(e),
    }
}

/// Moves a task to another project, where `new_id` has been allocated, now.
pub fn move_task(id: i64, task: Task, all: &Vec<Task>, new_id: i64, actor: &str) -> (r: Result<
    Task,
    Error,
>)
    ensures
        exists|now: Seq<char>|
            clock::is_stamp(now) && outcome(r) == #[trigger] move_outcome(
                id,
                task@,
                model::tasks(all@),
                new_id,
                actor@,
                now,
            ),
{
    let now = now_ts();
    move_task_at(id, task, all, new_id, actor, now.as_str())
}

/// A task with a link, which it has at most once more than before.
pub open spec fn linked(t: TaskView, link: Seq<char>) -> TaskView {
    TaskView {
        links: if text::among(link, t.links) {
            t.links
        } else {
            t.links.push(link)
        },
        ..t
    }
}

/// Appends a link to a task (deduplicated), at `now`.
pub fn add_task_link_at(task: Task, link: &str, now: &str) -> (r: Result<Task, Error>)
    ensures
        outcome(r) == saved(linked(task@, link@), now@),
{
    let mut t = task;
    if !is_among(link, &t.links) {
        let ghost before = t.links@;
        t.links.push(owned(link));
        assert(text::texts(t.links@) =~= text::texts(before).push(link@));
    }
    save(t, now)
}

/// Appends a link to a task (deduplicated), now.
pub fn add_task_link(task: Task, link: &str) -> (r: Result<Task, Error>)
    ensures
        exists|now: Seq<char>|
            clock::is_stamp(now) && outcome(r) == #[trigger] saved(linked(task@, link@), now),
{
    let now = now_ts();
    add_task_link_at(task, link, now.as_str())
}

/// A task with an integration diagnostic.
pub open spec fn diagnosed(
    t: TaskView,
    operation: Seq<char>,
    message: Seq<char>,
    at: Seq<char>,
) -> TaskView {
    TaskView {
        git_diagnostics: t.git_diagnostics.push(GitDiagnosticView { operation, message, at }),
        ..t
    }
}

/// A task with an integration diagnostic, as it is saved, or the message with
/// which it is refused.
pub open spec fn diagnostic_outcome(
    t: TaskView,
    operation: Seq<char>,
    message: Seq<char>,
    at: Seq<char>,
    now: Seq<char>,
) -> Result<TaskView, Seq<char>> {
    saved(diagnosed(t, operation, message, at), now)
}

/// Appends a structured integration diagnostic, recorded at `at`, at `now`.
pub fn add_git_diagnostic_at(task: Task, operation: &str, message: &str, at: &str, now: &str)
    -> (r: Result<Task, Error>)
    ensures
        outcome(r) == diagnostic_outcome(task@, operation@, message@, at@, now@),
{
    let mut t = task;
    let ghost before = t.git_diagnostics@;
    let d = GitDiagnostic { operation: owned(operation), message: owned(message), at: owned(at) };
    t.git_diagnostics.push(d);
    assert(model::diagnostics(t.git_diagnostics@) =~= model::diagnostics(before).push(d@));
    save(t, now)
}

/// Appends a structured integration diagnostic, now.
pub fn add_git_diagnostic(task: Task, operation: &str, message: &str) -> (r: Result<Task, Error>)
    ensures
        exists|at: Seq<char>, now: Seq<char>|
            clock::is_stamp(at) && clock::is_stamp(now) && outcome(r)
                == #[trigger] diagnostic_outcome(task@, operation@, message@, at, now),
{
    let at = now_ts();
    let now = now_ts();
    add_git_diagnostic_at(task, operation, message, at.as_str(), now.as_str())
}

/// A patch never touches identity, lifecycle state, timestamps, report
/// evidence, diagnostics or history, whatever it holds.
pub proof fn law_patch_protects(t: TaskView, p: TaskPatchView)
    ensures
        ({
            let n = patched(t, p);
            n == (TaskView {
                title: n.title,
                description: n.description,
                acceptance: n.acceptance,
                context: n.context,
                assignee: n.assignee,
                priority: n.priority,
                labels: n.labels,
                estimate_points: n.estimate_points,
                estimate_hours: n.estimate_hours,
                deadline: n.deadline,
                links: n.links,
                parent_id: n.parent_id,
                epic_id: n.epic_id,
                milestone_id: n.milestone_id,
                depends_on: n.depends_on,
                ..t
            })
        }),
{
}

/// Fields that a patch omits stay unchanged: the patch without fields changes
/// nothing, and is what an object without members denotes.
pub proof fn law_empty_patch_changes_nothing(t: TaskView)
    ensures
        patch_of(JsonView::Object(Seq::empty())) == Ok::<TaskPatchView, Seq<char>>(no_patch()),
        patch_refusal(no_patch()) is None,
        patched(t, no_patch()) == t,
{
    let m = Seq::<MemberView>::empty();
    assert(patch_of(JsonView::Object(m))->Ok_0 =~= no_patch());
    assert(patched(t, no_patch()) =~= t);
}

/// No patch with a protected field is accepted, wherever the field stands.
pub proof fn law_protected_fields_are_rejected(m: Seq<MemberView>, i: int)
    requires
        0 <= i < m.len(),
        text::listed(m[i].name, PROTECTED_TASK_FIELDS@),
    ensures
        patch_of(JsonView::Object(m)) is Err,
    decreases m.len(),
{
    lemma_protected_found(m, i);
}

proof fn lemma_protected_found(m: Seq<MemberView>, i: int)
    requires
        0 <= i < m.len(),
        text::listed(m[i].name, PROTECTED_TASK_FIELDS@),
    ensures
        first_protected(m) is Some,
    decreases m.len(),
{
    if i > 0 && !text::listed(m[0].name, PROTECTED_TASK_FIELDS@) {
        assert(m.skip(1)[i - 1] == m[i]);
        lemma_protected_found(m.skip(1), i - 1);
    }
}

/// No patch with an unknown field is accepted, wherever the field stands.
pub proof fn law_unknown_fields_are_rejected(m: Seq<MemberView>, i: int)
    requires
        0 <= i < m.len(),
        !text::listed(m[i].name, TEXT_PATCH_FIELDS@),
        !text::listed(m[i].name, LIST_PATCH_FIELDS@),
        !text::listed(m[i].name, INTEGER_PATCH_FIELDS@),
        m[i].name != "estimate_hours"@,
        m[i].name != "depends_on"@,
    ensures
        patch_of(JsonView::Object(m)) is Err,
{
    assert(!member_fits(m[i]));
}

/// Appending to a report loses nothing: list sections keep what they hold, in
/// order, and a nonblank text section begins with what it held.
pub proof fn law_append_keeps(t: TaskView, u: ReportUpdateView)
    ensures
        ({
            let n = reported(t, u, ReportMode::Append);
            &&& t.report_problems.is_prefix_of(n.report_problems)
            &&& t.report_ideas.is_prefix_of(n.report_ideas)
            &&& t.report_decisions.is_prefix_of(n.report_decisions)
            &&& t.report_result matches Some(s) ==> !text::blank(s) ==> n.report_result is Some
                && s.is_prefix_of(n.report_result->0)
            &&& t.report_validation matches Some(s) ==> !text::blank(s) ==> n.report_validation
                is Some && s.is_prefix_of(n.report_validation->0)
        }),
{
    let n = reported(t, u, ReportMode::Append);
    if let Some(s) = t.report_result {
        if let Some(x) = u.result {
            assert(s =~= (s + "\n\n"@ + x).subrange(0, s.len() as int));
        }
    }
    if let Some(s) = t.report_validation {
        if let Some(x) = u.validation {
            assert(s =~= (s + "\n\n"@ + x).subrange(0, s.len() as int));
        }
    }
}

/// A report update leaves omitted sections, and everything but the report,
/// unchanged.
pub proof fn law_report_touches_only_given_sections(
    t: TaskView,
    u: ReportUpdateView,
    mode: ReportMode,
)
    ensures
        ({
            let n = reported(t, u, mode);
            &&& u.result is None ==> n.report_result == t.report_result
            &&& u.validation is None ==> n.report_validation == t.report_validation
            &&& u.problems is None ==> n.report_problems == t.report_problems
            &&& u.ideas is None ==> n.report_ideas == t.report_ideas
            &&& u.decisions is None ==> n.report_decisions == t.report_decisions
            &&& n == (TaskView {
                report_result: n.report_result,
                report_validation: n.report_validation,
                report_problems: n.report_problems,
                report_ideas: n.report_ideas,
                report_decisions: n.report_decisions,
                ..t
            })
        }),
{
}

/// Whatever is saved has a title, and a closed record carries its completion
/// evidence and timestamp.
pub proof fn law_saved_records_are_valid(t: TaskView, now: Seq<char>)
    requires
        saved(t, now) is Ok,
    ensures
        !text::blank(saved(t, now)->Ok_0.title),
        model::closed_is_backed(saved(t, now)->Ok_0),
{
}

/// A completed task is closed with the evidence of the report, and its history
/// records every step: the closing one, and the review before it where the
/// task was only started.
pub proof fn law_completion_is_recorded(
    id: i64,
    t: TaskView,
    u: ReportUpdateView,
    actor: Seq<char>,
    mode: GitIntegration,
    review: TimesView,
    done: TimesView,
    now: Seq<char>,
)
    requires
        complete_outcome(id, t, u, actor, mode, review, done, now) is Ok,
    ensures
        ({
            let c = complete_outcome(id, t, u, actor, mode, review, done, now)->Ok_0;
            let n = t.history.len() as int;
            &&& c.status == TaskStatus::Closed
            &&& model::closed_is_backed(c)
            &&& t.history.is_prefix_of(c.history)
            &&& c.history.last().from == Some(TaskStatus::Review)
            &&& c.history.last().to == TaskStatus::Closed
            &&& t.status == TaskStatus::Review ==> c.history.len() == n + 1
            &&& t.status == TaskStatus::Started ==> c.history.len() == n + 2 && c.history[n].to
                == TaskStatus::Review
            &&& t.status == TaskStatus::Review || t.status == TaskStatus::Started && mode
                == GitIntegration::Off
        }),
{
    let c = complete_outcome(id, t, u, actor, mode, review, done, now)->Ok_0;
    assert(t.history =~= c.history.subrange(0, t.history.len() as int));
}

/// With automation on, and from any status but started or review, nothing is
/// completed without a review first.
pub proof fn law_review_is_never_skipped(
    id: i64,
    t: TaskView,
    u: ReportUpdateView,
    actor: Seq<char>,
    mode: GitIntegration,
    review: TimesView,
    done: TimesView,
    now: Seq<char>,
)
    requires
        t.status != TaskStatus::Review,
        mode == GitIntegration::Auto || t.status != TaskStatus::Started,
    ensures
        complete_outcome(id, t, u, actor, mode, review, done, now) == Err::<TaskView, Seq<char>>(
            not_in_review(id, t.status),
        ),
{
}

/// A task starts only when each of its dependencies is closed, and a ready
/// task is never refused a start for its dependencies.
pub proof fn law_start_needs_dependencies(
    id: i64,
    t: TaskView,
    all: Seq<TaskView>,
    actor: Seq<char>,
    reason: Option<Seq<char>>,
    times: TimesView,
    now: Seq<char>,
)
    requires
        diag::find_task(all, id) == Some(t),
    ensures
        action_outcome(id, t, all, TaskAction::Start, actor, reason, times, now) is Ok ==> forall|
            k: int,
        |
            0 <= k < t.depends_on.len() ==> is_met(all, #[trigger] t.depends_on[k]),
        is_ready(all, t) ==> start_refusal(id, all) is None && model::refusal(
            t,
            TaskAction::Start,
            reason,
        ) is None,
{
    if action_outcome(id, t, all, TaskAction::Start, actor, reason, times, now) is Ok {
        assert forall|k: int| 0 <= k < t.depends_on.len() implies is_met(
            all,
            #[trigger] t.depends_on[k],
        ) by {
            if !is_met(all, t.depends_on[k]) {
                lemma_filter_takes(t.depends_on, |d: i64| !is_met(all, d), k);
            }
        }
    }
}

/// A move breaks no reference: nothing that stays depends on the moved task or
/// follows up on it, nor the other way round, and the task keeps everything
/// but its id, last writer and last change.
pub proof fn law_move_breaks_nothing(
    id: i64,
    t: TaskView,
    all: Seq<TaskView>,
    new_id: i64,
    actor: Seq<char>,
    now: Seq<char>,
)
    requires
        move_outcome(id, t, all, new_id, actor, now) is Ok,
    ensures
        t.depends_on.len() == 0,
        t.follow_up_of is None,
        forall|i: int|
            0 <= i < all.len() ==> !(#[trigger] all[i]).depends_on.contains(id)
                && all[i].follow_up_of != Some(id),
        move_outcome(id, t, all, new_id, actor, now)->Ok_0 == (TaskView {
            id: new_id,
            actor: Some(actor),
            updated_at: now,
            ..t
        }),
{
    assert forall|i: int| 0 <= i < all.len() implies !(#[trigger] all[i]).depends_on.contains(id)
        && all[i].follow_up_of != Some(id) by {
        if all[i].depends_on.contains(id) {
            lemma_filter_takes(all, |x: TaskView| x.depends_on.contains(id), i);
        }
        if all[i].follow_up_of == Some(id) {
            lemma_filter_takes(all, |x: TaskView| x.follow_up_of == Some(id), i);
        }
    }
}

/// A follow-up is an ordinary open task that names its original and depends on
/// nothing.
pub proof fn law_follow_up_is_open(
    id: i64,
    original_id: i64,
    original: bool,
    title: Seq<char>,
    description: Seq<char>,
    actor: Seq<char>,
    all: Seq<TaskView>,
    now: Seq<char>,
)
    requires
        follow_up_outcome(id, original_id, original, title, description, actor, all, now) is Ok,
    ensures
        ({
            let f = follow_up_outcome(
                id,
                original_id,
                original,
                title,
                description,
                actor,
                all,
                now,
            )->Ok_0;
            &&& f.follow_up_of == Some(original_id)
            &&& f.status == TaskStatus::Open
            &&& f.depends_on.len() == 0
            &&& f.title == title
        }),
{
}

/// Adding a link twice is adding it once.
pub proof fn law_links_are_deduplicated(t: TaskView, link: Seq<char>)
    ensures
        text::among(link, linked(t, link).links),
        linked(linked(t, link), link) == linked(t, link),
{
    if !text::among(link, t.links) {
        let links = t.links.push(link);
        assert(links[t.links.len() as int] == link);
    }
}

// ===== project context =====

/// How many tasks have a status.
pub open spec fn count_of(all: Seq<TaskView>, s: TaskStatus) -> nat {
    all.filter(|t: TaskView| t.status == s).len()
}

/// The counts by status count every task once.
pub proof fn law_every_task_is_counted(all: Seq<TaskView>)
    ensures
        count_of(all, TaskStatus::Open) + count_of(all, TaskStatus::Started) + count_of(
            all,
            TaskStatus::Review,
        ) + count_of(all, TaskStatus::Closed) + count_of(all, TaskStatus::Cancelled) == all.len(),
    decreases all.len(),
{
    reveal(Seq::filter);
    if all.len() > 0 {
        law_every_task_is_counted(all.drop_last());
    }
}

/// How many tasks have each status that occurs.
pub open spec fn counted(all: Seq<TaskView>) -> Seq<(TaskStatus, nat)> {
    TaskStatus::ALL@.filter(|s: TaskStatus| count_of(all, s) > 0).map_values(
        |s: TaskStatus| (s, count_of(all, s)),
    )
}

/// What a list of counts holds.
pub open spec fn counts(v: Seq<(TaskStatus, usize)>) -> Seq<(TaskStatus, nat)> {
    v.map_values(|c: (TaskStatus, usize)| (c.0, c.1 as nat))
}

/// How many tasks have a status.
pub fn count_status(all: &Vec<Task>, s: TaskStatus) -> (r: usize)
    ensures
        r == count_of(model::tasks(all@), s),
{
    let ghost list = model::tasks(all@);
    let ghost keep = |t: TaskView| t.status == s;
    let mut n: usize = 0;
    let mut i: usize = 0;
    assert(list.take(0).filter(keep).len() == 0) by {
        reveal(Seq::filter);
    }
    while i < all.len()
        invariant
            i <= all.len(),
            n <= i,
            list == model::tasks(all@),
            keep == (|t: TaskView| t.status == s),
            n == list.take(i as int).filter(keep).len(),
        decreases all.len() - i,
    {
        proof {
            text::lemma_filter_take(list, keep, i as int);
        }
        if all[i].status == s {
            n += 1;
        }
        i += 1;
    }
    assert(list.take(i as int) =~= list);
    n
}

/// How many tasks have each status that occurs.
pub fn status_counts(all: &Vec<Task>) -> (r: Vec<(TaskStatus, usize)>)
    ensures
        counts(r@) == counted(model::tasks(all@)),
{
    let ghost list = model::tasks(all@);
    let ghost keep = |s: TaskStatus| count_of(list, s) > 0;
    let ghost pair = |s: TaskStatus| (s, count_of(list, s));
    let ghost names = TaskStatus::ALL@;
    let mut out: Vec<(TaskStatus, usize)> = Vec::new();
    let mut i: usize = 0;
    assert(names.take(0).filter(keep) =~= Seq::empty()) by {
        reveal(Seq::filter);
    }
    assert(counts(out@) =~= names.take(0).filter(keep).map_values(pair));
    while i < 5
        invariant
            i <= 5,
            list == model::tasks(all@),
            keep == (|s: TaskStatus| count_of(list, s) > 0),
            pair == (|s: TaskStatus| (s, count_of(list, s))),
            names == TaskStatus::ALL@,
            counts(out@) == names.take(i as int).filter(keep).map_values(pair),
        decreases 5 - i,
    {
        proof {
            text::lemma_filter_take(names, keep, i as int);
        }
        let s = TaskStatus::ALL[i];
        let n = count_status(all, s);
        if n > 0 {
            let ghost before = counts(out@);
            out.push((s, n));
            assert(counts(out@) =~= before.push((s, n as nat)));
            assert(names.take(i + 1).filter(keep).map_values(pair) =~= before.push(pair(s)));
        }
        i += 1;
    }
    assert(names.take(5) =~= names);
    out
}

/// The counts of a project as JSON.
pub open spec fn counts_value(c: Seq<(TaskStatus, nat)>) -> JsonView {
    JsonView::Object(
        c.map_values(
            |p: (TaskStatus, nat)| json::member(model::status_name(p.0), json::natural(p.1)),
        ),
    )
}

/// The counts of a project as JSON.
pub fn counts_json(c: &Vec<(TaskStatus, usize)>) -> (r: Json)
    ensures
        r@ == counts_value(counts(c@)),
{
    let ghost all = counts(c@).map_values(
        |p: (TaskStatus, nat)| json::member(model::status_name(p.0), json::natural(p.1)),
    );
    let mut m = no_members();
    let mut i: usize = 0;
    assert(all.take(0) =~= Seq::empty());
    while i < c.len()
        invariant
            i <= c.len(),
            all == counts(c@).map_values(
                |p: (TaskStatus, nat)| json::member(model::status_name(p.0), json::natural(p.1)),
            ),
            json::members(m@) == all.take(i as int),
        decreases c.len() - i,
    {
        assert(all.take(i + 1) =~= all.take(i as int).push(all[i as int]));
        add_member(&mut m, c[i].0.as_str(), from_natural(c[i].1));
        i += 1;
    }
    assert(all.take(i as int) =~= all);
    from_members(m)
}

/// What a list of tasks says of one.
pub open spec fn brief_members(t: TaskView) -> Seq<MemberView> {
    seq![
        json::member("id"@, JsonView::Integer(t.id)),
        json::member("title"@, JsonView::Text(t.title)),
        json::member("priority"@, JsonView::Text(model::priority_name(t.priority))),
    ]
}

/// A task, in brief, as JSON.
pub open spec fn brief_value(t: TaskView) -> JsonView {
    JsonView::Object(brief_members(t))
}

/// A blocked task, in brief, as JSON.
pub open spec fn blocked_value(t: TaskView) -> JsonView {
    JsonView::Object(
        brief_members(t).push(json::member("block_reason"@, json::text_or_null(t.block_reason))),
    )
}

fn brief(t: &Task) -> (r: Vec<json::Member>)
    ensures
        json::members(r@) == brief_members(t@),
{
    let mut m = no_members();
    add_member(&mut m, "id", Json::Integer(t.id));
    add_member(&mut m, "title", from_text(t.title.as_str()));
    add_member(&mut m, "priority", from_text(t.priority.as_str()));
    m
}

/// Tasks that are started.
pub open spec fn active_among(all: Seq<TaskView>) -> Seq<TaskView> {
    all.filter(|t: TaskView| t.status == TaskStatus::Started)
}

/// Tasks that are blocked.
pub open spec fn blocked_among(all: Seq<TaskView>) -> Seq<TaskView> {
    all.filter(|t: TaskView| t.blocked)
}

fn active_json(all: &Vec<Task>) -> (r: Json)
    ensures
        r@ == JsonView::Array(
            active_among(model::tasks(all@)).map_values(|t: TaskView| brief_value(t)),
        ),
{
    let ghost list = model::tasks(all@);
    let ghost keep = |t: TaskView| t.status == TaskStatus::Started;
    let ghost form = |t: TaskView| brief_value(t);
    let mut out = no_values();
    let mut i: usize = 0;
    assert(list.take(0).filter(keep) =~= Seq::empty()) by {
        reveal(Seq::filter);
    }
    assert(list.take(0).filter(keep).map_values(form) =~= Seq::empty());
    while i < all.len()
        invariant
            i <= all.len(),
            list == model::tasks(all@),
            keep == (|t: TaskView| t.status == TaskStatus::Started),
            form == (|t: TaskView| brief_value(t)),
            json::jsons(out@) == list.take(i as int).filter(keep).map_values(form),
        decreases all.len() - i,
    {
        proof {
            text::lemma_filter_take(list, keep, i as int);
        }
        if all[i].status == TaskStatus::Started {
            assert(list.take(i + 1).filter(keep).map_values(form) =~= list.take(i as int).filter(
                keep,
            ).map_values(form).push(brief_value(list[i as int])));
            add_value(&mut out, from_members(brief(&all[i])));
        }
        i += 1;
    }
    assert(list.take(i as int) =~= list);
    from_values(out)
}

fn blocked_json(all: &Vec<Task>) -> (r: Json)
    ensures
        r@ == JsonView::Array(
            blocked_among(model::tasks(all@)).map_values(|t: TaskView| blocked_value(t)),
        ),
{
    let ghost list = model::tasks(all@);
    let ghost keep = |t: TaskView| t.blocked;
    let ghost form = |t: TaskView| blocked_value(t);
    let mut out = no_values();
    let mut i: usize = 0;
    assert(list.take(0).filter(keep) =~= Seq::empty()) by {
        reveal(Seq::filter);
    }
    assert(list.take(0).filter(keep).map_values(form) =~= Seq::empty());
    while i < all.len()
        invariant
            i <= all.len(),
            list == model::tasks(all@),
            keep == (|t: TaskView| t.blocked),
            form == (|t: TaskView| blocked_value(t)),
            json::jsons(out@) == list.take(i as int).filter(keep).map_values(form),
        decreases all.len() - i,
    {
        proof {
            text::lemma_filter_take(list, keep, i as int);
        }
        if all[i].blocked {
            assert(list.take(i + 1).filter(keep).map_values(form) =~= list.take(i as int).filter(
                keep,
            ).map_values(form).push(blocked_value(list[i as int])));
            let mut m = brief(&all[i]);
            add_member(&mut m, "block_reason", from_opt_text(&all[i].block_reason));
            add_value(&mut out, from_members(m));
        }
        i += 1;
    }
    assert(list.take(i as int) =~= list);
    from_values(out)
}

fn briefs_json(tasks: &Vec<Task>) -> (r: Json)
    ensures
        r@ == JsonView::Array(
            model::tasks(tasks@).map_values(|t: TaskView| brief_value(t)),
        ),
{
    let ghost all = model::tasks(tasks@).map_values(|t: TaskView| brief_value(t));
    let mut out = no_values();
    let mut i: usize = 0;
    assert(all.take(0) =~= Seq::empty());
    while i < tasks.len()
        invariant
            i <= tasks.len(),
            all == model::tasks(tasks@).map_values(|t: TaskView| brief_value(t)),
            json::jsons(out@) == all.take(i as int),
        decreases tasks.len() - i,
    {
        assert(all.take(i + 1) =~= all.take(i as int).push(all[i as int]));
        add_value(&mut out, from_members(brief(&tasks[i])));
        i += 1;
    }
    assert(all.take(i as int) =~= all);
    from_values(out)
}

/// The combined context of a project as JSON; `summary` is its current status,
/// with provenance and freshness.
pub open spec fn context_value(
    c: ProjectConfigView,
    root: Seq<char>,
    all: Seq<TaskView>,
    summary: Option<(CurrentStatusView, FreshnessView)>,
) -> JsonView {
    JsonView::Object(
        seq![
            json::member("project"@, JsonView::Text(c.name)),
            json::member("root"@, JsonView::Text(root)),
            json::member(
                "git_integration"@,
                JsonView::Text(project::integration_name(project::effective_integration(c))),
            ),
            json::member("counts"@, counts_value(counted(all))),
            json::member(
                "active"@,
                JsonView::Array(active_among(all).map_values(|t: TaskView| brief_value(t))),
            ),
            json::member(
                "blocked"@,
                JsonView::Array(blocked_among(all).map_values(|t: TaskView| blocked_value(t))),
            ),
            json::member(
                "ready"@,
                JsonView::Array(
                    order::sorted_by(ready_among(all), urgency()).map_values(
                        |t: TaskView| brief_value(t),
                    ),
                ),
            ),
            json::member(
                "summary"@,
                match summary {
                    Some((s, f)) => knowledge::status_value(s, f),
                    None => JsonView::Null,
                },
            ),
        ],
    )
}

/// What a current status and its freshness hold.
pub open spec fn summary_of(o: Option<(CurrentStatus, Freshness)>) -> Option<
    (CurrentStatusView, FreshnessView),
> {
    match o {
        Some((s, f)) => Some((s@, f@)),
        None => None,
    }
}

/// The combined context of a project, when its current status and freshness
/// are given.
pub fn project_context_with(
    config: &ProjectConfig,
    root: &str,
    all: &Vec<Task>,
    summary: &Option<(CurrentStatus, Freshness)>,
) -> (r: Json)
    ensures
        r@ == context_value(config@, root@, model::tasks(all@), summary_of(*summary)),
{
    let mut m = no_members();
    add_member(&mut m, "project", from_text(config.name.as_str()));
    add_member(&mut m, "root", from_text(root));
    add_member(
        &mut m,
        "git_integration",
        from_text(config.effective_git_integration().as_str()),
    );
    let c = status_counts(all);
    add_member(&mut m, "counts", counts_json(&c));
    add_member(&mut m, "active", active_json(all));
    add_member(&mut m, "blocked", blocked_json(all));
    let ready = ready_tasks(all);
    add_member(&mut m, "ready", briefs_json(&ready));
    let s = match summary {
        Some((s, f)) => status_json(s, f),
        None => Json::Null,
    };
    add_member(&mut m, "summary", s);
    assert(json::members(m@) =~= context_value(
        config@,
        root@,
        model::tasks(all@),
        summary_of(*summary),
    )->Object_0);
    from_members(m)
}

/// Whether a summary is that of a status file, with the freshness of some
/// reading of all the timestamps.
pub open spec fn summarises(
    file: knowledge::EntriesFileView,
    all: Seq<TaskView>,
    kb: Seq<knowledge::PlacedEntryView>,
    head: Option<Seq<char>>,
    summary: Option<(CurrentStatusView, FreshnessView)>,
) -> bool {
    match (knowledge::status_of(file), summary) {
        (Some(s), Some((t, f))) => s == t && knowledge::fresh_for_some_reading(
            s,
            all,
            kb,
            head,
            f,
        ),
        (None, None) => true,
        _ => false,
    }
}

/// The current status of a project, with its freshness.
pub fn project_summary(
    file: &EntriesFile,
    all: &Vec<Task>,
    kb: &Vec<PlacedEntry>,
    head: Option<String>,
) -> (r: Option<(CurrentStatus, Freshness)>)
    ensures
        summarises(
            file@,
            model::tasks(all@),
            knowledge::placed(kb@),
            text::opt_text(head),
            summary_of(r),
        ),
{
    match current_status(file) {
        Some(s) => {
            let f = summary_freshness(&s, all, kb, head);
            Some((s, f))
        },
        None => None,
    }
}

/// Combined project context: summary + provenance + freshness, task counts,
/// active/blocked tasks and ready work. One shared implementation behind
/// `jay status` and the MCP `project_context` tool (CLI/MCP parity).
pub fn project_context(
    config: &ProjectConfig,
    root: &str,
    all: &Vec<Task>,
    file: &EntriesFile,
    kb: &Vec<PlacedEntry>,
    head: Option<String>,
) -> (r: Json)
    ensures
        exists|summary: Option<(CurrentStatusView, FreshnessView)>|
            summarises(
                file@,
                model::tasks(all@),
                knowledge::placed(kb@),
                text::opt_text(head),
                summary,
            ) && r@ == #[trigger] context_value(config@, root@, model::tasks(all@), summary),
{
    let summary = project_summary(file, all, kb, head);
    project_context_with(config, root, all, &summary)
}

} // verus!
