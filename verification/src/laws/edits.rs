//! Edits of a task: patches, replacements, links, and the records they leave.
use vstd::prelude::*;

use crate::clock;
use crate::json;
use crate::json::{JsonView, MemberView};
use crate::model;
use crate::model::{TaskStatus, TaskView};
use crate::service;
use crate::service::{PatchField, TaskPatchView, TaskReplace};
use crate::text;

verus! {

/// Whether a text says something: it holds a character other than white space.
pub open spec fn says(s: Seq<char>) -> bool {
    exists|i: int| 0 <= i < s.len() && !text::is_space(#[trigger] s[i])
}

/// Whether a text is a timestamp: with an offset, or naive.
pub open spec fn is_time(s: Seq<char>) -> bool {
    clock::rfc3339(s) is Some || clock::naive_time(s, "%Y-%m-%dT%H:%M:%S"@) is Some
}

/// Whether a record is sound: it has a title and its timestamps are timestamps;
/// a closed one has a completion time, a result and a validation.
pub open spec fn is_sound(t: TaskView) -> bool {
    &&& says(t.title)
    &&& is_time(t.created_at)
    &&& is_time(t.updated_at)
    &&& t.started_at matches Some(s) ==> is_time(s)
    &&& t.done_at matches Some(s) ==> is_time(s)
    &&& t.status == TaskStatus::Closed ==> t.done_at is Some && (t.report_result matches Some(s)
        && says(s)) && (t.report_validation matches Some(s) && says(s))
}

/// Records are accepted exactly when they are sound, and saved as they are but
/// for the time of the change.
pub proof fn law_sound_records_are_saved(t: TaskView, now: Seq<char>)
    ensures
        service::record_refusal(t) is None <==> is_sound(t),
        is_sound(t) ==> service::saved(t, now) == Ok::<TaskView, Seq<char>>(
            TaskView { updated_at: now, ..t },
        ),
        !is_sound(t) ==> service::saved(t, now) is Err,
{
}

/// Whether a required field after a patch is what it gives, or what was there.
pub open spec fn required<T>(p: PatchField<T>, was: T, is: T) -> bool {
    match p {
        PatchField::Absent => is == was,
        PatchField::Null => false,
        PatchField::Value(v) => is == v,
    }
}

/// Whether a nullable field after a patch is what it gives, nothing where it gives
/// null, or what was there.
pub open spec fn nullable<T>(p: PatchField<T>, was: Option<T>, is: Option<T>) -> bool {
    match p {
        PatchField::Absent => is == was,
        PatchField::Null => is is None,
        PatchField::Value(v) => is == Some(v),
    }
}

/// A patch that is accepted sets each field that it gives, clears each nullable
/// one that it gives as null, and leaves every other field alone, but for the
/// last writer and the time of the change.
pub proof fn law_patch_sets_its_fields(
    t: TaskView,
    all: Seq<TaskView>,
    p: TaskPatchView,
    actor: Seq<char>,
    now: Seq<char>,
)
    requires
        service::patch_outcome(t, all, p, actor, now) is Ok,
    ensures
        ({
            let n = service::patch_outcome(t, all, p, actor, now)->Ok_0;
            &&& required(p.title, t.title, n.title)
            &&& required(p.description, t.description, n.description)
            &&& required(p.acceptance, t.acceptance, n.acceptance)
            &&& required(p.context, t.context, n.context)
            &&& required(p.labels, t.labels, n.labels)
            &&& required(p.links, t.links, n.links)
            &&& required(p.depends_on, t.depends_on, n.depends_on)
            &&& match p.priority {
                PatchField::Absent => n.priority == t.priority,
                PatchField::Null => false,
                PatchField::Value(s) => model::priority_of(s) == Some(n.priority),
            }
            &&& nullable(p.assignee, t.assignee, n.assignee)
            &&& nullable(p.estimate_points, t.estimate_points, n.estimate_points)
            &&& nullable(p.estimate_hours, t.estimate_hours, n.estimate_hours)
            &&& nullable(p.deadline, t.deadline, n.deadline)
            &&& nullable(p.parent_id, t.parent_id, n.parent_id)
            &&& nullable(p.epic_id, t.epic_id, n.epic_id)
            &&& nullable(p.milestone_id, t.milestone_id, n.milestone_id)
            &&& n.actor == Some(actor)
            &&& n.updated_at == now
            &&& n.id == t.id
            &&& n.status == t.status
            &&& n.blocked == t.blocked
            &&& n.block_reason == t.block_reason
            &&& n.report_result == t.report_result
            &&& n.report_validation == t.report_validation
            &&& n.report_problems == t.report_problems
            &&& n.report_ideas == t.report_ideas
            &&& n.report_decisions == t.report_decisions
            &&& n.created_at == t.created_at
            &&& n.started_at == t.started_at
            &&& n.done_at == t.done_at
            &&& n.follow_up_of == t.follow_up_of
            &&& n.git_diagnostics == t.git_diagnostics
            &&& n.history == t.history
        }),
{
}

/// A patch is accepted exactly when it gives no required field as null, its
/// priority is one, the dependencies that the task then has are accepted, and the
/// record is then sound.
pub proof fn law_patch_is_accepted(
    t: TaskView,
    all: Seq<TaskView>,
    p: TaskPatchView,
    actor: Seq<char>,
    now: Seq<char>,
    n: TaskView,
)
    requires
        n == (TaskView {
            title: n.title,
            description: n.description,
            acceptance: n.acceptance,
            context: n.context,
            assignee: n.assignee,
            priority: n.priority,
            labels: n.labels,
            estimate_points: n.estimate_points,
            estimate_hours: n.estimate_hours,
            deadline: n.deadline,
            links: n.links,
            parent_id: n.parent_id,
            epic_id: n.epic_id,
            milestone_id: n.milestone_id,
            depends_on: n.depends_on,
            ..t
        }),
        required(p.title, t.title, n.title),
        required(p.description, t.description, n.description),
        required(p.acceptance, t.acceptance, n.acceptance),
        required(p.context, t.context, n.context),
        required(p.labels, t.labels, n.labels),
        required(p.links, t.links, n.links),
        required(p.depends_on, t.depends_on, n.depends_on),
        match p.priority {
            PatchField::Absent => n.priority == t.priority,
            PatchField::Null => false,
            PatchField::Value(s) => model::priority_of(s) == Some(n.priority),
        },
        nullable(p.assignee, t.assignee, n.assignee),
        nullable(p.estimate_points, t.estimate_points, n.estimate_points),
        nullable(p.estimate_hours, t.estimate_hours, n.estimate_hours),
        nullable(p.deadline, t.deadline, n.deadline),
        nullable(p.parent_id, t.parent_id, n.parent_id),
        nullable(p.epic_id, t.epic_id, n.epic_id),
        nullable(p.milestone_id, t.milestone_id, n.milestone_id),
    ensures
        service::patch_outcome(t, all, p, actor, now) is Ok <==> service::dependency_refusal(
            n,
            all.filter(|x: TaskView| x.id != t.id),
        ) is None && is_sound(n),
        service::patch_outcome(t, all, p, actor, now) is Ok
            ==> service::patch_outcome(t, all, p, actor, now)->Ok_0 == (TaskView {
            actor: Some(actor),
            updated_at: now,
            ..n
        }),
{
    assert(service::patched(t, p) == n);
    law_sound_records_are_saved(TaskView { actor: Some(actor), ..n }, now);
}

/// A priority is named in words or by its rank, white space around it aside.
pub proof fn law_priorities_are_named(s: Seq<char>)
    ensures
        match model::priority_of(s) {
            Some(model::Priority::Highest) => text::trim(s) == "highest"@ || text::trim(s) == "0"@,
            Some(model::Priority::High) => text::trim(s) == "high"@ || text::trim(s) == "1"@,
            Some(model::Priority::Medium) => text::trim(s) == "medium"@ || text::trim(s) == "2"@,
            Some(model::Priority::Low) => text::trim(s) == "low"@ || text::trim(s) == "3"@,
            Some(model::Priority::Lowest) => text::trim(s) == "lowest"@ || text::trim(s) == "4"@,
            None => {
                let n = text::trim(s);
                &&& n != "highest"@ && n != "high"@ && n != "medium"@ && n != "low"@ && n
                    != "lowest"@
                &&& n != "0"@ && n != "1"@ && n != "2"@ && n != "3"@ && n != "4"@
            },
        },
{
}

/// Whether a member of a patch is a field that may be patched, with a value of
/// its type or null.
pub open spec fn may_patch(m: MemberView) -> bool {
    ||| (m.name == "title"@ || m.name == "description"@ || m.name == "context"@ || m.name
        == "assignee"@ || m.name == "priority"@ || m.name == "deadline"@) && (m.value is Null
        || m.value is Text)
    ||| (m.name == "acceptance"@ || m.name == "labels"@ || m.name == "links"@) && (m.value is Null
        || json::texts_of(m.value) is Some)
    ||| (m.name == "estimate_points"@ || m.name == "parent_id"@ || m.name == "epic_id"@ || m.name
        == "milestone_id"@) && (m.value is Null || m.value is Integer)
    ||| m.name == "estimate_hours"@ && (m.value is Null || m.value is Integer || m.value is Real)
    ||| m.name == "depends_on"@ && (m.value is Null || json::integers_of(m.value) is Some)
}

/// Whether a name is that of a field that only the lifecycle, reports and git
/// integration write.
pub open spec fn is_kept_from_patches(n: Seq<char>) -> bool {
    ||| n == "id"@ || n == "status"@ || n == "blocked"@ || n == "block_reason"@
    ||| n == "created_at"@ || n == "started_at"@ || n == "done_at"@ || n == "updated_at"@
    ||| n == "actor"@ || n == "report_result"@ || n == "report_problems"@ || n == "report_ideas"@
    ||| n == "report_decisions"@ || n == "report_validation"@ || n == "git_diagnostics"@
    ||| n == "history"@ || n == "follow_up_of"@
}

proof fn lemma_text_names(n: Seq<char>)
    ensures
        text::listed(n, service::TEXT_PATCH_FIELDS@) <==> n == "title"@ || n == "description"@ || n
            == "context"@ || n == "assignee"@ || n == "priority"@ || n == "deadline"@,
{
    let l = service::TEXT_PATCH_FIELDS@;
    assert(l[0]@ == "title"@ && l[1]@ == "description"@ && l[2]@ == "context"@);
    assert(l[3]@ == "assignee"@ && l[4]@ == "priority"@ && l[5]@ == "deadline"@);
}

proof fn lemma_list_names(n: Seq<char>)
    ensures
        text::listed(n, service::LIST_PATCH_FIELDS@) <==> n == "acceptance"@ || n == "labels"@ || n
            == "links"@,
{
    let l = service::LIST_PATCH_FIELDS@;
    assert(l[0]@ == "acceptance"@ && l[1]@ == "labels"@ && l[2]@ == "links"@);
}

proof fn lemma_integer_names(n: Seq<char>)
    ensures
        text::listed(n, service::INTEGER_PATCH_FIELDS@) <==> n == "estimate_points"@ || n
            == "parent_id"@ || n == "epic_id"@ || n == "milestone_id"@,
{
    let l = service::INTEGER_PATCH_FIELDS@;
    assert(l[0]@ == "estimate_points"@ && l[1]@ == "parent_id"@);
    assert(l[2]@ == "epic_id"@ && l[3]@ == "milestone_id"@);
}

/// The protected names are those that patches are kept from.
pub proof fn lemma_protected_names(n: Seq<char>)
    ensures
        text::listed(n, service::PROTECTED_TASK_FIELDS@) <==> is_kept_from_patches(n),
{
    let l = service::PROTECTED_TASK_FIELDS@;
    assert(l[0]@ == "id"@ && l[1]@ == "status"@ && l[2]@ == "blocked"@ && l[3]@ == "block_reason"@);
    assert(l[4]@ == "created_at"@ && l[5]@ == "started_at"@ && l[6]@ == "done_at"@);
    assert(l[7]@ == "updated_at"@ && l[8]@ == "actor"@ && l[9]@ == "report_result"@);
    assert(l[10]@ == "report_problems"@ && l[11]@ == "report_ideas"@);
    assert(l[12]@ == "report_decisions"@ && l[13]@ == "report_validation"@);
    assert(l[14]@ == "git_diagnostics"@ && l[15]@ == "history"@ && l[16]@ == "follow_up_of"@);
}

proof fn lemma_names_apart()
    ensures
        "title"@.len() == 5,
        "description"@.len() == 11,
        "context"@.len() == 7,
        "assignee"@.len() == 8,
        "priority"@.len() == 8,
        "deadline"@.len() == 8,
        "acceptance"@.len() == 10,
        "labels"@.len() == 6,
        "links"@.len() == 5,
        "estimate_points"@.len() == 15,
        "parent_id"@.len() == 9,
        "epic_id"@.len() == 7,
        "milestone_id"@.len() == 12,
        "estimate_hours"@.len() == 14,
        "depends_on"@.len() == 10,
        "title"@[0] == 't',
        "links"@[0] == 'l',
        "context"@[0] == 'c',
        "epic_id"@[0] == 'e',
        "acceptance"@[0] == 'a',
        "depends_on"@[0] == 'd',
{
    reveal_strlit("title");
    reveal_strlit("description");
    reveal_strlit("context");
    reveal_strlit("assignee");
    reveal_strlit("priority");
    reveal_strlit("deadline");
    reveal_strlit("acceptance");
    reveal_strlit("labels");
    reveal_strlit("links");
    reveal_strlit("estimate_points");
    reveal_strlit("parent_id");
    reveal_strlit("epic_id");
    reveal_strlit("milestone_id");
    reveal_strlit("estimate_hours");
    reveal_strlit("depends_on");
}

proof fn lemma_member_fits(m: MemberView)
    ensures
        service::member_fits(m) == may_patch(m),
{
    lemma_text_names(m.name);
    lemma_list_names(m.name);
    lemma_integer_names(m.name);
    lemma_names_apart();
}

proof fn lemma_first_protected(m: Seq<MemberView>)
    ensures
        service::first_protected(m) is None <==> forall|i: int|
            0 <= i < m.len() ==> !is_kept_from_patches((#[trigger] m[i]).name),
    decreases m.len(),
{
    if m.len() > 0 {
        let rest = m.skip(1);
        lemma_protected_names(m[0].name);
        lemma_first_protected(rest);
        if service::first_protected(m) is None {
            assert forall|i: int| 0 <= i < m.len() implies !is_kept_from_patches(
                (#[trigger] m[i]).name,
            ) by {
                if i > 0 {
                    assert(rest[i - 1] == m[i]);
                }
            }
        }
        if forall|i: int| 0 <= i < m.len() ==> !is_kept_from_patches((#[trigger] m[i]).name) {
            assert forall|i: int| 0 <= i < rest.len() implies !is_kept_from_patches(
                (#[trigger] rest[i]).name,
            ) by {
                assert(rest[i] == m[i + 1]);
            }
        }
    }
}

/// Whether the field of a patch is what the first member of that name gives, and
/// absent where there is none.
pub open spec fn text_given(m: Seq<MemberView>, name: Seq<char>, p: PatchField<Seq<char>>) -> bool {
    match p {
        PatchField::Absent => forall|k: int| 0 <= k < m.len() ==> (#[trigger] m[k]).name != name,
        PatchField::Null => exists|k: int| #[trigger]
            json::first_named(m, name, k) && m[k].value is Null,
        PatchField::Value(s) => exists|k: int| #[trigger]
            json::first_named(m, name, k) && m[k].value == JsonView::Text(s),
    }
}

/// As [`text_given`], for a list of texts.
pub open spec fn list_given(
    m: Seq<MemberView>,
    name: Seq<char>,
    p: PatchField<Seq<Seq<char>>>,
) -> bool {
    match p {
        PatchField::Absent => forall|k: int| 0 <= k < m.len() ==> (#[trigger] m[k]).name != name,
        PatchField::Null => exists|k: int| #[trigger]
            json::first_named(m, name, k) && m[k].value is Null,
        PatchField::Value(l) => exists|k: int| #[trigger]
            json::first_named(m, name, k) && json::texts_of(m[k].value) == Some(l),
    }
}

/// As [`text_given`], for an integer.
pub open spec fn integer_given(m: Seq<MemberView>, name: Seq<char>, p: PatchField<i64>) -> bool {
    match p {
        PatchField::Absent => forall|k: int| 0 <= k < m.len() ==> (#[trigger] m[k]).name != name,
        PatchField::Null => exists|k: int| #[trigger]
            json::first_named(m, name, k) && m[k].value is Null,
        PatchField::Value(i) => exists|k: int| #[trigger]
            json::first_named(m, name, k) && m[k].value == JsonView::Integer(i),
    }
}

/// As [`text_given`], for a number, as the decimal text of its floating-point
/// value.
pub open spec fn number_given(m: Seq<MemberView>, name: Seq<char>, p: PatchField<Seq<char>>) -> bool {
    match p {
        PatchField::Absent => forall|k: int| 0 <= k < m.len() ==> (#[trigger] m[k]).name != name,
        PatchField::Null => exists|k: int| #[trigger]
            json::first_named(m, name, k) && m[k].value is Null,
        PatchField::Value(s) => exists|k: int| #[trigger]
            json::first_named(m, name, k) && match m[k].value {
                JsonView::Integer(i) => s == json::float_text(text::decimal(i as int)),
                JsonView::Real(n) => s == json::float_text(n),
                _ => false,
            },
    }
}

/// As [`text_given`], for a list of ids.
pub open spec fn ids_given(m: Seq<MemberView>, name: Seq<char>, p: PatchField<Seq<i64>>) -> bool {
    match p {
        PatchField::Absent => forall|k: int| 0 <= k < m.len() ==> (#[trigger] m[k]).name != name,
        PatchField::Null => exists|k: int| #[trigger]
            json::first_named(m, name, k) && m[k].value is Null,
        PatchField::Value(l) => exists|k: int| #[trigger]
            json::first_named(m, name, k) && json::integers_of(m[k].value) == Some(l),
    }
}

/// A patch is read exactly from objects whose members are all fields that may be
/// patched, each with a value of its type or null, and none of them a protected
/// one.
pub proof fn law_patches_are_read(m: Seq<MemberView>)
    ensures
        service::patch_of(JsonView::Object(m)) is Ok <==> forall|i: int|
            0 <= i < m.len() ==> may_patch(#[trigger] m[i]) && !is_kept_from_patches(m[i].name),
{
    lemma_first_protected(m);
    let all = forall|i: int| 0 <= i < m.len() ==> service::member_fits(#[trigger] m[i]);
    if all {
        assert forall|i: int| 0 <= i < m.len() implies may_patch(#[trigger] m[i]) by {
            assert(service::member_fits(m[i]));
            lemma_member_fits(m[i]);
        }
    }
    if forall|i: int| 0 <= i < m.len() ==> may_patch(#[trigger] m[i]) && !is_kept_from_patches(
        m[i].name,
    ) {
        assert forall|i: int| 0 <= i < m.len() implies service::member_fits(#[trigger] m[i]) by {
            lemma_member_fits(m[i]);
        }
        assert forall|i: int| 0 <= i < m.len() implies !is_kept_from_patches(
            (#[trigger] m[i]).name,
        ) by {}
    }
}

proof fn lemma_text_given(m: Seq<MemberView>, name: Seq<char>)
    requires
        forall|i: int| 0 <= i < m.len() ==> may_patch(#[trigger] m[i]),
        name == "title"@ || name == "description"@ || name == "context"@ || name == "assignee"@
            || name == "priority"@ || name == "deadline"@,
    ensures
        text_given(m, name, service::text_patch(json::lookup(m, name))),
{
    json::law_members_are_found_by_name(m, name);
    lemma_names_apart();
    if let Some(v) = json::lookup(m, name) {
        let k = choose|k: int| #[trigger] json::first_named(m, name, k) && m[k].value == v;
        assert(may_patch(m[k]));
    }
}

proof fn lemma_list_given(m: Seq<MemberView>, name: Seq<char>)
    requires
        forall|i: int| 0 <= i < m.len() ==> may_patch(#[trigger] m[i]),
        name == "acceptance"@ || name == "labels"@ || name == "links"@,
    ensures
        list_given(m, name, service::list_patch(json::lookup(m, name))),
{
    json::law_members_are_found_by_name(m, name);
    lemma_names_apart();
    if let Some(v) = json::lookup(m, name) {
        let k = choose|k: int| #[trigger] json::first_named(m, name, k) && m[k].value == v;
        assert(may_patch(m[k]));
    }
}

proof fn lemma_integer_given(m: Seq<MemberView>, name: Seq<char>)
    requires
        forall|i: int| 0 <= i < m.len() ==> may_patch(#[trigger] m[i]),
        name == "estimate_points"@ || name == "parent_id"@ || name == "epic_id"@ || name
            == "milestone_id"@,
    ensures
        integer_given(m, name, service::integer_patch(json::lookup(m, name))),
{
    json::law_members_are_found_by_name(m, name);
    lemma_names_apart();
    if let Some(v) = json::lookup(m, name) {
        let k = choose|k: int| #[trigger] json::first_named(m, name, k) && m[k].value == v;
        assert(may_patch(m[k]));
    }
}

proof fn lemma_number_given(m: Seq<MemberView>)
    requires
        forall|i: int| 0 <= i < m.len() ==> may_patch(#[trigger] m[i]),
    ensures
        number_given(
            m,
            "estimate_hours"@,
            service::number_patch(json::lookup(m, "estimate_hours"@)),
        ),
{
    let name = "estimate_hours"@;
    json::law_members_are_found_by_name(m, name);
    lemma_names_apart();
    if let Some(v) = json::lookup(m, name) {
        let k = choose|k: int| #[trigger] json::first_named(m, name, k) && m[k].value == v;
        assert(may_patch(m[k]));
    }
}

proof fn lemma_ids_given(m: Seq<MemberView>)
    requires
        forall|i: int| 0 <= i < m.len() ==> may_patch(#[trigger] m[i]),
    ensures
        ids_given(m, "depends_on"@, service::ids_patch(json::lookup(m, "depends_on"@))),
{
    let name = "depends_on"@;
    json::law_members_are_found_by_name(m, name);
    lemma_names_apart();
    if let Some(v) = json::lookup(m, name) {
        let k = choose|k: int| #[trigger] json::first_named(m, name, k) && m[k].value == v;
        assert(may_patch(m[k]));
    }
}

/// A patch that is read says what its members say: a field is absent where no
/// member names it, null where the member is null, and the member's value
/// otherwise.
pub proof fn law_patch_says_what_its_members_say(m: Seq<MemberView>)
    requires
        service::patch_of(JsonView::Object(m)) is Ok,
    ensures
        ({
            let p = service::patch_of(JsonView::Object(m))->Ok_0;
            &&& text_given(m, "title"@, p.title)
            &&& text_given(m, "description"@, p.description)
            &&& list_given(m, "acceptance"@, p.acceptance)
            &&& text_given(m, "context"@, p.context)
            &&& text_given(m, "assignee"@, p.assignee)
            &&& text_given(m, "priority"@, p.priority)
            &&& list_given(m, "labels"@, p.labels)
            &&& integer_given(m, "estimate_points"@, p.estimate_points)
            &&& number_given(m, "estimate_hours"@, p.estimate_hours)
            &&& text_given(m, "deadline"@, p.deadline)
            &&& list_given(m, "links"@, p.links)
            &&& integer_given(m, "parent_id"@, p.parent_id)
            &&& integer_given(m, "epic_id"@, p.epic_id)
            &&& integer_given(m, "milestone_id"@, p.milestone_id)
            &&& ids_given(m, "depends_on"@, p.depends_on)
        }),
{
    law_patches_are_read(m);
    lemma_text_given(m, "title"@);
    lemma_text_given(m, "description"@);
    lemma_text_given(m, "context"@);
    lemma_text_given(m, "assignee"@);
    lemma_text_given(m, "priority"@);
    lemma_text_given(m, "deadline"@);
    lemma_list_given(m, "acceptance"@);
    lemma_list_given(m, "labels"@);
    lemma_list_given(m, "links"@);
    lemma_integer_given(m, "estimate_points"@);
    lemma_integer_given(m, "parent_id"@);
    lemma_integer_given(m, "epic_id"@);
    lemma_integer_given(m, "milestone_id"@);
    lemma_number_given(m);
    lemma_ids_given(m);
}

/// A replacement gives the task every editable field and leaves its state, its
/// report, its dependencies and its history alone.
pub proof fn law_replacement_sets_every_editable_field(
    t: TaskView,
    r: TaskReplace,
    actor: Seq<char>,
    now: Seq<char>,
)
    requires
        service::saved(service::replaced(t, r, actor), now) is Ok,
    ensures
        ({
            let n = service::saved(service::replaced(t, r, actor), now)->Ok_0;
            &&& n.title == r.title@
            &&& n.description == r.description@
            &&& n.acceptance == text::texts(r.acceptance@)
            &&& n.context == r.context@
            &&& n.assignee == text::opt_text(r.assignee)
            &&& n.priority == r.priority
            &&& n.labels == text::texts(r.labels@)
            &&& n.estimate_points == r.estimate_points
            &&& n.estimate_hours == text::opt_text(r.estimate_hours)
            &&& n.deadline == text::opt_text(r.deadline)
            &&& n.links == text::texts(r.links@)
            &&& n.parent_id == r.parent_id
            &&& n.epic_id == r.epic_id
            &&& n.milestone_id == r.milestone_id
            &&& n.actor == Some(actor)
            &&& n.updated_at == now
            &&& n.id == t.id && n.status == t.status && n.blocked == t.blocked && n.block_reason
                == t.block_reason
            &&& n.depends_on == t.depends_on && n.follow_up_of == t.follow_up_of
            &&& n.report_result == t.report_result && n.report_validation == t.report_validation
            &&& n.report_problems == t.report_problems && n.report_ideas == t.report_ideas
                && n.report_decisions == t.report_decisions
            &&& n.created_at == t.created_at && n.started_at == t.started_at && n.done_at
                == t.done_at
            &&& n.git_diagnostics == t.git_diagnostics && n.history == t.history
        }),
{
}

/// Adding a link puts it at the end of the links, unless it is there already; all
/// else stays.
pub proof fn law_link_is_added(t: TaskView, link: Seq<char>)
    ensures
        service::linked(t, link) == (TaskView { links: service::linked(t, link).links, ..t }),
        t.links.contains(link) ==> service::linked(t, link).links == t.links,
        !t.links.contains(link) ==> service::linked(t, link).links == t.links + seq![link],
{
    assert(t.links.push(link) =~= t.links + seq![link]);
}

/// A git diagnostic is recorded after the others, as it was given; all else
/// stays.
pub proof fn law_diagnostic_is_added(
    t: TaskView,
    operation: Seq<char>,
    message: Seq<char>,
    at: Seq<char>,
)
    ensures
        ({
            let n = service::diagnosed(t, operation, message, at);
            &&& n == (TaskView { git_diagnostics: n.git_diagnostics, ..t })
            &&& n.git_diagnostics.len() == t.git_diagnostics.len() + 1
            &&& t.git_diagnostics.is_prefix_of(n.git_diagnostics)
            &&& n.git_diagnostics.last().operation == operation
            &&& n.git_diagnostics.last().message == message
            &&& n.git_diagnostics.last().at == at
        }),
{
    let n = service::diagnosed(t, operation, message, at);
    assert(t.git_diagnostics =~= n.git_diagnostics.subrange(0, t.git_diagnostics.len() as int));
}

/// A new task is accepted as it is, exactly when its record is sound and its
/// dependencies are accepted among the tasks with another id.
pub proof fn law_creation_takes_the_task_as_it_is(t: TaskView, all: Seq<TaskView>)
    ensures
        service::created(t, all) is Ok <==> is_sound(t) && service::dependency_refusal(
            t,
            all.filter(|x: TaskView| x.id != t.id),
        ) is None,
        service::created(t, all) is Ok ==> service::created(t, all)->Ok_0 == t,
{
    law_sound_records_are_saved(t, t.updated_at);
}

/// A fresh task has what it was given, and nothing else: it is open, of medium
/// priority, unblocked, and empty in every list.
pub proof fn law_fresh_task_is_bare(
    id: i64,
    title: Seq<char>,
    description: Seq<char>,
    now: Seq<char>,
)
    ensures
        ({
            let t = model::fresh_task(id, title, description, now);
            &&& t.id == id && t.title == title && t.description == description
            &&& t.status == TaskStatus::Open && !t.blocked && t.block_reason is None
            &&& t.priority == model::Priority::Medium
            &&& t.acceptance.len() == 0 && t.context.len() == 0 && t.labels.len() == 0
            &&& t.links.len() == 0 && t.depends_on.len() == 0 && t.history.len() == 0
            &&& t.git_diagnostics.len() == 0
            &&& t.assignee is None && t.estimate_points is None && t.estimate_hours is None
            &&& t.deadline is None && t.parent_id is None && t.epic_id is None
            &&& t.milestone_id is None && t.follow_up_of is None && t.actor is None
            &&& t.report_result is None && t.report_validation is None
            &&& t.report_problems.len() == 0 && t.report_ideas.len() == 0
                && t.report_decisions.len() == 0
            &&& t.started_at is None && t.done_at is None
            &&& t.created_at == now && t.updated_at == now
        }),
{
}

/// A follow-up is a fresh task that names its original and its creator, and is
/// refused exactly when its title says nothing, there is no original, or the
/// time is none.
pub proof fn law_follow_up_is_a_fresh_task(
    id: i64,
    original_id: i64,
    original: bool,
    title: Seq<char>,
    description: Seq<char>,
    actor: Seq<char>,
    all: Seq<TaskView>,
    now: Seq<char>,
)
    ensures
        ({
            let out = service::follow_up_outcome(
                id,
                original_id,
                original,
                title,
                description,
                actor,
                all,
                now,
            );
            &&& out is Ok <==> says(title) && original && is_time(now)
            &&& out matches Ok(t) ==> t == (TaskView {
                follow_up_of: Some(original_id),
                actor: Some(actor),
                ..model::fresh_task(id, title, description, now)
            })
        }),
{
    let t = TaskView {
        follow_up_of: Some(original_id),
        actor: Some(actor),
        ..model::fresh_task(id, title, description, now)
    };
    law_creation_takes_the_task_as_it_is(t, all);
    crate::laws::dependencies::lemma_no_dependencies(t, all.filter(|x: TaskView| x.id != t.id));
}

/// A move is accepted exactly when no reference would break, in either direction,
/// and the record is sound at its new time; the task keeps everything but its id,
/// its last writer and that time.
pub proof fn law_move_is_accepted(
    id: i64,
    t: TaskView,
    all: Seq<TaskView>,
    new_id: i64,
    actor: Seq<char>,
    now: Seq<char>,
)
    ensures
        ({
            let out = service::move_outcome(id, t, all, new_id, actor, now);
            let moved = TaskView { id: new_id, actor: Some(actor), updated_at: now, ..t };
            &&& out is Ok <==> {
                &&& t.depends_on.len() == 0
                &&& t.follow_up_of is None
                &&& forall|i: int|
                    0 <= i < all.len() ==> !(#[trigger] all[i]).depends_on.contains(id)
                        && all[i].follow_up_of != Some(id)
                &&& is_sound(moved)
            }
            &&& out is Ok ==> out->Ok_0 == moved
        }),
{
    let moved = TaskView { id: new_id, actor: Some(actor), updated_at: now, ..t };
    law_sound_records_are_saved(moved, now);
    let a = |x: TaskView| x.depends_on.contains(id);
    let b = |x: TaskView| x.follow_up_of == Some(id);
    crate::laws::dependencies::lemma_none_kept(all, a);
    crate::laws::dependencies::lemma_none_kept(all, b);
    let free = forall|i: int|
        0 <= i < all.len() ==> !(#[trigger] all[i]).depends_on.contains(id) && all[i].follow_up_of
            != Some(id);
    if free {
        assert forall|k: int| 0 <= k < all.len() implies !a(#[trigger] all[k]) by {}
        assert forall|k: int| 0 <= k < all.len() implies !b(#[trigger] all[k]) by {}
    }
    if all.filter(a).len() == 0 && all.filter(b).len() == 0 {
        assert forall|i: int| 0 <= i < all.len() implies !(#[trigger] all[i]).depends_on.contains(id)
            && all[i].follow_up_of != Some(id) by {
            assert(!a(all[i]));
            assert(!b(all[i]));
        }
    }
    assert(service::dependents(all, id).len() == all.filter(a).len());
    assert(service::followers(all, id).len() == all.filter(b).len());
}

} // verus!
