//! Refusals: what a refused request is answered names what is wrong with it.
use vstd::prelude::*;

use crate::diag;
use crate::json::{JsonView, MemberView};
use crate::knowledge;
use crate::laws::dependencies::{
    completed, has_id, law_only_closed_counts, law_tasks_are_found_by_id,
};
use crate::laws::display::{lemma_either, lemma_itself, lemma_joined};
use crate::laws::edits::{is_kept_from_patches, is_time, says};
use crate::laws::entries;
use crate::laws::search::holds_text;
use crate::model;
use crate::model::{KnowledgeEntryView, TaskAction, TaskStatus, TaskView, TimesView};
use crate::project::GitIntegration;
use crate::service;
use crate::service::{PatchField, ReportUpdateView, TaskPatchView};
use crate::text;

verus! {

proof fn lemma_three(a: Seq<char>, b: Seq<char>, c: Seq<char>)
    ensures
        holds_text(a + b + c, b),
{
}

/// A blocked task answers every move along the workflow that it is blocked, whatever
/// its status; any other task in the wrong status is answered with its status.
pub proof fn law_refused_moves_are_answered(
    t: TaskView,
    action: TaskAction,
    reason: Option<Seq<char>>,
)
    ensures
        ({
            let out = model::refusal(t, action, reason);
            let along = action == TaskAction::Start || action == TaskAction::Review || action
                == TaskAction::Done || action == TaskAction::Rewind;
            let wrong = {
                ||| action == TaskAction::Start && t.status != TaskStatus::Open
                ||| action == TaskAction::Review && t.status != TaskStatus::Started
                ||| action == TaskAction::Done && t.status != TaskStatus::Review
                ||| action == TaskAction::Rewind && t.status != TaskStatus::Review && t.status
                    != TaskStatus::Started
                ||| action == TaskAction::Reopen && t.status != TaskStatus::Closed && t.status
                    != TaskStatus::Cancelled
                ||| action == TaskAction::Block && (t.status == TaskStatus::Closed || t.status
                    == TaskStatus::Cancelled)
            };
            &&& along && t.blocked ==> out == Some("task is blocked — unblock it first"@)
            &&& wrong && !(along && t.blocked) ==> out is Some && holds_text(
                out->0,
                model::status_name(t.status),
            )
            &&& action == TaskAction::Unblock && !t.blocked ==> out == Some("task is not blocked"@)
            &&& action == TaskAction::Cancel && t.status == TaskStatus::Closed ==> out == Some(
                "cannot cancel a closed task"@,
            )
        }),
{
    let n = model::status_name(t.status);
    lemma_three("cannot block a "@, n, " task"@);
    lemma_three("only a closed or cancelled task can be reopened (current: "@, n, ")"@);
    lemma_three("cannot start a "@, n, " task (must be open)"@);
    lemma_three("cannot review a "@, n, " task (must be started)"@);
    lemma_three("cannot close a "@, n, " task (must be in review)"@);
    lemma_three("cannot rewind a "@, n, " task"@);
}

/// Whether the `j`-th dependency of a task is the first that is wrong: on the task
/// itself, on one that came before, or on one that is missing.
pub open spec fn first_wrong_at(t: TaskView, others: Seq<TaskView>, j: int) -> bool {
    &&& 0 <= j < t.depends_on.len()
    &&& wrong_at(t, others, j)
    &&& forall|i: int| 0 <= i < j ==> !#[trigger] wrong_at(t, others, i)
}

/// Whether the `j`-th dependency of a task is wrong.
pub open spec fn wrong_at(t: TaskView, others: Seq<TaskView>, j: int) -> bool {
    let d = t.depends_on[j];
    d == t.id || t.depends_on.take(j).contains(d) || !has_id(others, d)
}

proof fn lemma_edge_answer(t: TaskView, others: Seq<TaskView>, i: int)
    requires
        0 <= i <= t.depends_on.len(),
        forall|k: int| 0 <= k < i ==> !#[trigger] wrong_at(t, others, k),
    ensures
        service::edge_refusal(t, others, i) matches Some(m) ==> exists|j: int| #[trigger]
            first_wrong_at(t, others, j) && holds_text(m, text::decimal(t.depends_on[j] as int))
                && holds_text(m, text::decimal(t.id as int)),
    decreases t.depends_on.len() - i,
{
    if i < t.depends_on.len() {
        let d = t.depends_on[i];
        let n = text::decimal(t.id as int);
        let x = text::decimal(d as int);
        law_tasks_are_found_by_id(others, d);
        if diag::has_task(others, d) {
            let f = diag::find_task(others, d)->0;
            let k = choose|k: int| #[trigger]
                crate::laws::dependencies::first_at(others, d, k) && others[k] == f;
            assert(others[k].id == d);
        }
        if wrong_at(t, others, i) {
            assert(first_wrong_at(t, others, i));
            lemma_three("task "@, n, " cannot depend on itself"@);
            let a = "duplicate dependency #"@ + x;
            lemma_itself(x);
            lemma_itself(n);
            lemma_either("duplicate dependency #"@, x, x);
            lemma_either(a, " on task "@, x);
            lemma_either(a + " on task "@, n, x);
            lemma_either(a + " on task "@, n, n);
            let b = "task "@ + n;
            let c = b + " depends on #"@;
            let tail = ", which does not exist in this project (dependencies are local; remove the edge explicitly)"@;
            lemma_either("task "@, n, n);
            lemma_either(b, " depends on #"@, n);
            lemma_either(c, x, n);
            lemma_either(c, x, x);
            lemma_either(c + x, tail, n);
            lemma_either(c + x, tail, x);
        } else {
            lemma_edge_answer(t, others, i + 1);
        }
    }
}

/// A task whose dependencies are wrong one by one is answered with the first that is,
/// and with itself.
pub proof fn law_wrong_dependency_is_named(t: TaskView, others: Seq<TaskView>, j: int)
    requires
        first_wrong_at(t, others, j),
    ensures
        service::dependency_refusal(t, others) matches Some(m) && holds_text(
            m,
            text::decimal(t.depends_on[j] as int),
        ) && holds_text(m, text::decimal(t.id as int)),
{
    lemma_edge_answer(t, others, 0);
    crate::laws::dependencies::law_dependencies_are_accepted(t, others);
    lemma_edge_refused(t, others, 0, j);
    let m = service::edge_refusal(t, others, 0)->0;
    let k = choose|k: int| #[trigger]
        first_wrong_at(t, others, k) && holds_text(m, text::decimal(t.depends_on[k] as int))
            && holds_text(m, text::decimal(t.id as int));
    if k < j {
        assert(!wrong_at(t, others, k));
    } else if j < k {
        assert(!wrong_at(t, others, j));
    }
}

proof fn lemma_edge_refused(t: TaskView, others: Seq<TaskView>, i: int, j: int)
    requires
        0 <= i <= j < t.depends_on.len(),
        wrong_at(t, others, j),
    ensures
        service::edge_refusal(t, others, i) is Some,
    decreases j - i,
{
    law_tasks_are_found_by_id(others, t.depends_on[i]);
    if i < j {
        lemma_edge_refused(t, others, i + 1, j);
    }
}

/// A start that waits is answered with every dependency that is not completed.
pub proof fn law_unmet_dependencies_are_named(id: i64, all: Seq<TaskView>, t: TaskView, k: int)
    requires
        diag::find_task(all, id) == Some(t),
        0 <= k < t.depends_on.len(),
        !completed(all, t.depends_on[k]),
    ensures
        service::start_refusal(id, all) matches Some(m) && holds_text(
            m,
            "#"@ + text::decimal(t.depends_on[k] as int),
        ) && holds_text(m, text::decimal(id as int)),
{
    let d = t.depends_on[k];
    let f = |x: i64| !completed(all, x);
    let list = service::unmet(all, t);
    law_only_closed_counts(all, t);
    t.depends_on.lemma_filter_contains(f, k);
    let at = choose|i: int| 0 <= i < list.len() && list[i] == d;
    let items = diag::hashed(list);
    let p = "#"@ + text::decimal(d as int);
    let n = text::decimal(id as int);
    assert(items[at] == p);
    lemma_itself(p);
    lemma_joined(items, ", "@, at, p);
    let j = text::joined(items, ", "@);
    let a = "cannot start task "@ + n;
    let b = a + ": unmet dependencies "@;
    let tail = " (a dependency must be closed; cancelled does not count)"@;
    lemma_itself(n);
    lemma_either("cannot start task "@, n, n);
    lemma_either(a, ": unmet dependencies "@, n);
    lemma_either(b, j, n);
    lemma_either(b, j, p);
    lemma_either(b + j, tail, n);
    lemma_either(b + j, tail, p);
}

/// A patch with a required field that is null is answered with the name of the first
/// such field, and with a text that is no priority with that text, in the order of the
/// fields.
pub proof fn law_refused_patches_are_answered(p: TaskPatchView)
    ensures
        ({
            let out = service::patch_refusal(p);
            let n1 = p.title is Null;
            let n2 = n1 || p.description is Null;
            let n3 = n2 || p.acceptance is Null;
            let n4 = n3 || p.context is Null;
            let n5 = n4 || p.priority is Null;
            let odd = p.priority matches PatchField::Value(s) && model::priority_of(s) is None;
            let n6 = n5 || odd || p.labels is Null;
            let n7 = n6 || p.links is Null;
            &&& n1 ==> out is Some && holds_text(out->0, "'title'"@)
            &&& !n1 && p.description is Null ==> out is Some && holds_text(
                out->0,
                "'description'"@,
            )
            &&& !n2 && p.acceptance is Null ==> out is Some && holds_text(out->0, "'acceptance'"@)
            &&& !n3 && p.context is Null ==> out is Some && holds_text(out->0, "'context'"@)
            &&& !n4 && p.priority is Null ==> out is Some && holds_text(out->0, "'priority'"@)
            &&& !n5 && odd ==> out is Some && holds_text(out->0, text::trim(p.priority->Value_0))
            &&& !n5 && !odd && p.labels is Null ==> out is Some && holds_text(out->0, "'labels'"@)
            &&& !n6 && p.links is Null ==> out is Some && holds_text(out->0, "'links'"@)
            &&& !n7 && p.depends_on is Null ==> out is Some && holds_text(
                out->0,
                "'depends_on'"@,
            )
            &&& out is Some <==> n7 || p.depends_on is Null
        }),
{
    lemma_quoted("title"@, "'title'"@);
    lemma_quoted("description"@, "'description'"@);
    lemma_quoted("acceptance"@, "'acceptance'"@);
    lemma_quoted("context"@, "'context'"@);
    lemma_quoted("priority"@, "'priority'"@);
    lemma_quoted("labels"@, "'labels'"@);
    lemma_quoted("links"@, "'links'"@);
    lemma_quoted("depends_on"@, "'depends_on'"@);
    reveal_strlit("title");
    reveal_strlit("'title'");
    reveal_strlit("description");
    reveal_strlit("'description'");
    reveal_strlit("acceptance");
    reveal_strlit("'acceptance'");
    reveal_strlit("context");
    reveal_strlit("'context'");
    reveal_strlit("priority");
    reveal_strlit("'priority'");
    reveal_strlit("labels");
    reveal_strlit("'labels'");
    reveal_strlit("links");
    reveal_strlit("'links'");
    reveal_strlit("depends_on");
    reveal_strlit("'depends_on'");
    assert("'title'"@ =~= seq!['\''] + "title"@ + seq!['\'']);
    assert("'description'"@ =~= seq!['\''] + "description"@ + seq!['\'']);
    assert("'acceptance'"@ =~= seq!['\''] + "acceptance"@ + seq!['\'']);
    assert("'context'"@ =~= seq!['\''] + "context"@ + seq!['\'']);
    assert("'priority'"@ =~= seq!['\''] + "priority"@ + seq!['\'']);
    assert("'labels'"@ =~= seq!['\''] + "labels"@ + seq!['\'']);
    assert("'links'"@ =~= seq!['\''] + "links"@ + seq!['\'']);
    assert("'depends_on'"@ =~= seq!['\''] + "depends_on"@ + seq!['\'']);
    if let PatchField::Value(s) = p.priority {
        lemma_three(
            "unknown priority: "@,
            text::trim(s),
            " (use highest|high|medium|low|lowest, or 0..4)"@,
        );
    }
}

proof fn lemma_quoted(name: Seq<char>, quoted: Seq<char>)
    ensures
        quoted == seq!['\''] + name + seq!['\''] ==> holds_text(service::null_message(name), quoted),
{
    let a = "field '"@;
    let b = "' is required and cannot be null"@;
    reveal_strlit("field '");
    reveal_strlit("' is required and cannot be null");
    let x = a.drop_last();
    let y = b.skip(1);
    assert(a =~= x + seq!['\'']);
    assert(b =~= seq!['\''] + y);
    assert(service::null_message(name) =~= x + (seq!['\''] + name + seq!['\'']) + y);
}

/// A patch that is no object is refused; one that names a protected field is answered
/// with the first that it names.
pub proof fn law_unreadable_patches_are_answered(j: JsonView)
    ensures
        !(j is Object) ==> service::patch_of(j) is Err,
        j matches JsonView::Object(m) ==> forall|k: int|
            #[trigger] first_kept_at(m, k) ==> (service::patch_of(j) matches Err(e) && holds_text(
                e,
                m[k].name,
            )),
{
    if let JsonView::Object(m) = j {
        assert forall|k: int| #[trigger] first_kept_at(m, k) implies (service::patch_of(
            j,
        ) matches Err(e) && holds_text(e, m[k].name)) by {
            lemma_first_kept(m, k);
            lemma_three(
                "field '"@,
                m[k].name,
                "' is protected: status, timestamps, actor and report evidence are controlled by lifecycle/report operations (start/review/done/complete/report), not by patches"@,
            );
        }
    }
}

/// Whether the `k`-th member of a patch is the first that names a protected field.
pub open spec fn first_kept_at(m: Seq<MemberView>, k: int) -> bool {
    0 <= k < m.len() && is_kept_from_patches(m[k].name) && forall|i: int|
        0 <= i < k ==> !is_kept_from_patches((#[trigger] m[i]).name)
}

proof fn lemma_first_kept(m: Seq<MemberView>, k: int)
    requires
        first_kept_at(m, k),
    ensures
        service::first_protected(m) == Some(m[k].name),
    decreases k,
{
    crate::laws::edits::lemma_protected_names(m[0].name);
    if k > 0 {
        let rest = m.skip(1);
        assert(rest[k - 1] == m[k]);
        assert forall|i: int| 0 <= i < k - 1 implies !is_kept_from_patches(
            (#[trigger] rest[i]).name,
        ) by {
            assert(rest[i] == m[i + 1]);
        }
        assert(!is_kept_from_patches(m[0].name));
        lemma_first_kept(rest, k - 1);
    }
}

/// A record that is refused is answered with the first thing that is wrong with it:
/// the title, then the name and the text of a timestamp that is none, then evidence
/// that is missing.
pub proof fn law_refused_records_are_answered(t: TaskView)
    ensures
        ({
            let out = service::record_refusal(t);
            let g1 = says(t.title);
            let g2 = g1 && is_time(t.created_at);
            let g3 = g2 && is_time(t.updated_at);
            let g4 = g3 && (t.started_at matches Some(s) ==> is_time(s));
            let g5 = g4 && (t.done_at matches Some(s) ==> is_time(s));
            &&& !g1 ==> out == Some("task title must not be blank"@)
            &&& g1 && !g2 ==> out is Some && holds_text(out->0, "created_at = \""@ + t.created_at)
            &&& g2 && !g3 ==> out is Some && holds_text(out->0, "updated_at = \""@ + t.updated_at)
            &&& g3 && !g4 ==> out is Some && holds_text(
                out->0,
                "started_at = \""@ + t.started_at->0,
            )
            &&& g4 && !g5 ==> out is Some && holds_text(out->0, "done_at = \""@ + t.done_at->0)
            &&& g5 && out is Some ==> out
                == Some("closed tasks require done_at, a nonblank report_result and report_validation"@)
        }),
{
    lemma_stamp_answer("created_at"@, t.created_at);
    lemma_stamp_answer("updated_at"@, t.updated_at);
    reveal_strlit(" = \"");
    reveal_strlit("created_at");
    reveal_strlit("created_at = \"");
    reveal_strlit("updated_at");
    reveal_strlit("updated_at = \"");
    reveal_strlit("started_at");
    reveal_strlit("started_at = \"");
    reveal_strlit("done_at");
    reveal_strlit("done_at = \"");
    assert("created_at"@ + " = \""@ =~= "created_at = \""@);
    assert("updated_at"@ + " = \""@ =~= "updated_at = \""@);
    assert("started_at"@ + " = \""@ =~= "started_at = \""@);
    assert("done_at"@ + " = \""@ =~= "done_at = \""@);
    if let Some(s) = t.started_at {
        lemma_stamp_answer("started_at"@, s);
    }
    if let Some(s) = t.done_at {
        lemma_stamp_answer("done_at"@, s);
    }
}

proof fn lemma_stamp_answer(name: Seq<char>, v: Seq<char>)
    ensures
        service::stamp_refusal(name, Some(v)) matches Some(m) ==> holds_text(
            m,
            name + " = \""@ + v,
        ),
{
    let p = name + " = \""@ + v;
    lemma_itself(p);
    lemma_either(p, "\" is not a valid timestamp"@, p);
}

/// A task that is not in review, where it must be, is answered with its id and its
/// status.
pub proof fn law_skipped_review_is_answered(
    id: i64,
    t: TaskView,
    u: ReportUpdateView,
    actor: Seq<char>,
    mode: GitIntegration,
    review: TimesView,
    done: TimesView,
    now: Seq<char>,
)
    requires
        t.status != TaskStatus::Review,
        t.status != TaskStatus::Started || mode == GitIntegration::Auto,
    ensures
        service::complete_outcome(id, t, u, actor, mode, review, done, now) matches Err(m)
            && holds_text(m, text::decimal(id as int)) && holds_text(
            m,
            model::status_name(t.status),
        ),
{
    let n = text::decimal(id as int);
    let s = model::status_name(t.status);
    let a = "complete requires a task in review (task "@ + n;
    let b = a + " is "@;
    let tail = "); move it to review first — review is never silently skipped"@;
    lemma_itself(n);
    lemma_itself(s);
    lemma_either("complete requires a task in review (task "@, n, n);
    lemma_either(a, " is "@, n);
    lemma_either(b, s, n);
    lemma_either(b, s, s);
    lemma_either(b + s, tail, n);
    lemma_either(b + s, tail, s);
}

/// A move that would break references is answered with the tasks that they lead to or
/// come from: dependencies of the task, then its dependents, then the task that it
/// follows up, then its follow-ups.
pub proof fn law_refused_moves_name_references(id: i64, t: TaskView, all: Seq<TaskView>, k: int)
    ensures
        ({
            let out = service::move_refusal(id, t, all);
            let back = all.filter(|x: TaskView| x.depends_on.contains(id));
            let after = all.filter(|x: TaskView| x.follow_up_of == Some(id));
            &&& 0 <= k < t.depends_on.len() ==> out is Some && holds_text(
                out->0,
                "#"@ + text::decimal(t.depends_on[k] as int),
            )
            &&& t.depends_on.len() == 0 && 0 <= k < back.len() ==> out is Some && holds_text(
                out->0,
                "#"@ + text::decimal(back[k].id as int),
            )
            &&& t.depends_on.len() == 0 && back.len() == 0 && t.follow_up_of is Some ==> out is Some
                && holds_text(out->0, "#"@ + text::decimal(t.follow_up_of->0 as int))
            &&& t.depends_on.len() == 0 && back.len() == 0 && t.follow_up_of is None && 0 <= k
                < after.len() ==> out is Some && holds_text(
                out->0,
                "#"@ + text::decimal(after[k].id as int),
            )
        }),
{
    let n = text::decimal(id as int);
    let back = service::dependents(all, id);
    let after = service::followers(all, id);
    if 0 <= k < t.depends_on.len() {
        let p = "#"@ + text::decimal(t.depends_on[k] as int);
        let l = service::id_list(t.depends_on);
        lemma_listed(t.depends_on, k);
        let a = "task "@ + n + " depends on "@;
        lemma_either(a, l, p);
        lemma_either(
            a + l,
            " in this project; remove those dependency edges explicitly before moving it across projects (dependencies are project-local)"@,
            p,
        );
    }
    if 0 <= k < back.len() {
        let p = "#"@ + text::decimal(back[k] as int);
        let l = service::id_list(back);
        lemma_listed(back, k);
        let a = "tasks "@ + l;
        lemma_either("tasks "@, l, p);
        lemma_either(a, " depend on task "@, p);
        lemma_either(a + " depend on task "@, n, p);
        lemma_either(
            a + " depend on task "@ + n,
            " in this project; remove those dependency edges explicitly before moving it (no dangling ids are created)"@,
            p,
        );
    }
    if let Some(f) = t.follow_up_of {
        let x = text::decimal(f as int);
        let p = "#"@ + x;
        reveal_strlit(" is a follow-up of task #");
        reveal_strlit(" is a follow-up of task ");
        reveal_strlit("#");
        assert(" is a follow-up of task #"@ =~= " is a follow-up of task "@ + "#"@);
        let a = "task "@ + n + " is a follow-up of task "@;
        let b = "task "@ + n + " is a follow-up of task #"@ + x;
        assert(b =~= a + p);
        lemma_itself(p);
        lemma_either(a, p, p);
        lemma_either(
            b,
            " in this project; clear follow_up_of explicitly before moving it (references must not silently break)"@,
            p,
        );
    }
    if 0 <= k < after.len() {
        let p = "#"@ + text::decimal(after[k] as int);
        let l = service::id_list(after);
        lemma_listed(after, k);
        let a = "tasks "@ + l;
        lemma_either("tasks "@, l, p);
        lemma_either(a, " are follow-ups of task "@, p);
        lemma_either(a + " are follow-ups of task "@, n, p);
        lemma_either(
            a + " are follow-ups of task "@ + n,
            "; clear their follow_up_of references explicitly before moving it"@,
            p,
        );
    }
}

proof fn lemma_listed(ids: Seq<i64>, k: int)
    requires
        0 <= k < ids.len(),
    ensures
        holds_text(service::id_list(ids), "#"@ + text::decimal(ids[k] as int)),
{
    let items = diag::hashed(ids);
    let p = "#"@ + text::decimal(ids[k] as int);
    assert(items[k] == p);
    lemma_itself(p);
    lemma_joined(items, ", "@, k, p);
}

/// An entry that supersedes itself, or one that is missing, is refused with the id of
/// the entry; a designation of a missing entry with the id that was asked for.
pub proof fn law_refused_entries_are_answered(
    e: KnowledgeEntryView,
    others: Seq<KnowledgeEntryView>,
    f: knowledge::EntriesFileView,
    id: i64,
    actor: Seq<char>,
    commit: Option<Seq<char>>,
    now: Seq<char>,
)
    ensures
        e.supersedes.len() > 0 && (e.supersedes[0] == e.id || !entries::has_id(
            others,
            e.supersedes[0],
        )) ==> (knowledge::supersedes_refusal(e, others) matches Some(m) && holds_text(
            m,
            text::decimal(e.id as int),
        ) && holds_text(m, text::decimal(e.supersedes[0] as int))),
        knowledge::designated(f, id, actor, commit, now) matches Err(m) ==> holds_text(
            m,
            "#"@ + text::decimal(id as int),
        ),
{
    let n = text::decimal(e.id as int);
    lemma_itself(n);
    if e.supersedes.len() > 0 {
        let s = text::decimal(e.supersedes[0] as int);
        entries::law_entries_are_found_by_id(others, e.supersedes[0]);
        lemma_three("entry "@, n, " cannot supersede itself"@);
        let a = "entry "@ + n;
        let b = a + " supersedes #"@;
        let c = b + s;
        let d = c + ", which does not exist among "@;
        let g = d + model::kind_name(e.kind);
        lemma_itself(s);
        lemma_either("entry "@, n, n);
        lemma_either(a, " supersedes #"@, n);
        lemma_either(b, s, n);
        lemma_either(b, s, s);
        lemma_either(c, ", which does not exist among "@, n);
        lemma_either(c, ", which does not exist among "@, s);
        lemma_either(d, model::kind_name(e.kind), n);
        lemma_either(d, model::kind_name(e.kind), s);
        lemma_either(g, " entries"@, n);
        lemma_either(g, " entries"@, s);
        assert(!e.supersedes.take(0).contains(e.supersedes[0]));
    }
    let x = text::decimal(id as int);
    let p = "#"@ + x;
    reveal_strlit("status entry #");
    reveal_strlit("status entry ");
    reveal_strlit("#");
    assert("status entry #"@ =~= "status entry "@ + "#"@);
    assert("status entry #"@ + x =~= "status entry "@ + p);
    lemma_itself(p);
    lemma_either("status entry "@, p, p);
    lemma_either("status entry #"@ + x, " not found"@, p);
    lemma_either(
        "status entry #"@ + x,
        " has blank content; a current summary must be meaningful"@,
        p,
    );
}

} // verus!
