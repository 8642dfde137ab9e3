//! Git integration: branch names, pull requests, and what they leave on a task.
use vstd::prelude::*;

use crate::forgejo;
use crate::gitflow;
use crate::gitflow::{BranchStepView, GitRecordView, PrStepView};
use crate::json;
use crate::json::{JsonView, MemberView};
use crate::laws::edits;
use crate::laws::edits::{is_sound, says};
use crate::laws::texts;
use crate::model::{LifecycleEventView, TaskStatus, TaskView};
use crate::project::ProjectConfigView;
use crate::service;
use crate::text;

verus! {

proof fn lemma_placeholders()
    ensures
        "{project}"@.len() == 9,
        "{task-id}"@.len() == 9,
        "{task_id}"@.len() == 9,
        "{slug}"@.len() == 6,
        "{project}"@[0] == '{',
        "{task-id}"@[0] == '{',
        "{task_id}"@[0] == '{',
        "{slug}"@[0] == '{',
        "{project}"@[1] == 'p',
        "{task-id}"@[1] == 't',
        "{task_id}"@[1] == 't',
        "{slug}"@[1] == 's',
        "{task-id}"@[5] == '-',
        "{task_id}"@[5] == '_',
        !"{project}"@.skip(1).contains('{'),
        !"{task-id}"@.skip(1).contains('{'),
        !"{task_id}"@.skip(1).contains('{'),
        !"{slug}"@.skip(1).contains('{'),
{
    reveal_strlit("{project}");
    reveal_strlit("{task-id}");
    reveal_strlit("{task_id}");
    reveal_strlit("{slug}");
}

proof fn lemma_other_at(other: Seq<char>, b: Seq<char>, from: Seq<char>, k: int)
    requires
        0 <= k < other.len(),
        k < from.len(),
        other[k] != from[k],
    ensures
        !text::begins(other + b, from),
{
    let s = other + b;
    text::law_begins(s, from);
    if from.is_prefix_of(s) {
        assert(s.subrange(0, from.len() as int)[k] == s[k]);
        assert(s[k] == other[k]);
    }
}

proof fn lemma_decimal_is_plain(i: int)
    ensures
        !text::decimal(i).contains('{'),
{
    text::lemma_decimal_chars(i);
}

proof fn lemma_plain_sum(a: Seq<char>, b: Seq<char>)
    requires
        !a.contains('{'),
        !b.contains('{'),
    ensures
        !(a + b).contains('{'),
{
    let s = a + b;
    if s.contains('{') {
        let i = choose|i: int| 0 <= i < s.len() && s[i] == '{';
        if i < a.len() {
            assert(a[i] == '{');
        } else {
            assert(b[i - a.len()] == '{');
        }
    }
}

/// A branch template is filled in from left to right: text without braces stays
/// as it is, and each placeholder gives way to the name of the project, the id of
/// the task or the slug, where none of these holds a brace.
pub proof fn law_template_is_filled_in(
    a: Seq<char>,
    b: Seq<char>,
    name: Seq<char>,
    id: i64,
    slug: Seq<char>,
)
    requires
        !a.contains('{'),
        !name.contains('{'),
        !slug.contains('{'),
    ensures
        gitflow::rendered(a, name, id, slug) == a,
        gitflow::rendered(a + "{project}"@ + b, name, id, slug) == a + name + gitflow::rendered(
            b,
            name,
            id,
            slug,
        ),
        gitflow::rendered(a + "{task-id}"@ + b, name, id, slug) == a + text::decimal(id as int)
            + gitflow::rendered(b, name, id, slug),
        gitflow::rendered(a + "{task_id}"@ + b, name, id, slug) == a + text::decimal(id as int)
            + gitflow::rendered(b, name, id, slug),
        gitflow::rendered(a + "{slug}"@ + b, name, id, slug) == a + slug + gitflow::rendered(
            b,
            name,
            id,
            slug,
        ),
{
    let p = "{project}"@;
    let t = "{task-id}"@;
    let u = "{task_id}"@;
    let s = "{slug}"@;
    let n = text::decimal(id as int);
    lemma_placeholders();
    lemma_decimal_is_plain(id as int);
    texts::law_replacing(a, p, b, name);
    texts::law_replacing(a, t, b, n);
    texts::law_replacing(a, u, b, n);
    texts::law_replacing(a, s, b, slug);
    let b1 = text::replaced(b, p, name);
    let b2 = text::replaced(b1, t, n);
    let b3 = text::replaced(b2, u, n);
    // The name of the project.
    let x = a + name;
    lemma_plain_sum(a, name);
    texts::law_replacing(x, t, b1, n);
    texts::law_replacing(x, u, b2, n);
    texts::law_replacing(x, s, b3, slug);
    // The id, written with a hyphen.
    lemma_other_at(t, b, p, 1);
    texts::law_replacing_elsewhere(a, t, p, b, name);
    texts::law_replacing(a, t, b1, n);
    let y = a + n;
    lemma_plain_sum(a, n);
    texts::law_replacing(y, u, b2, n);
    texts::law_replacing(y, s, b3, slug);
    // The id, written with an underscore.
    lemma_other_at(u, b, p, 1);
    texts::law_replacing_elsewhere(a, u, p, b, name);
    lemma_other_at(u, b1, t, 5);
    texts::law_replacing_elsewhere(a, u, t, b1, n);
    texts::law_replacing(a, u, b2, n);
    // The slug.
    lemma_other_at(s, b, p, 1);
    texts::law_replacing_elsewhere(a, s, p, b, name);
    lemma_other_at(s, b1, t, 1);
    texts::law_replacing_elsewhere(a, s, t, b1, n);
    lemma_other_at(s, b2, u, 1);
    texts::law_replacing_elsewhere(a, s, u, b2, n);
    texts::law_replacing(a, s, b3, slug);
}

/// Whether an event of a history reopened the task.
pub open spec fn is_reopening(e: LifecycleEventView) -> bool {
    e.to == TaskStatus::Open && (e.from == Some(TaskStatus::Closed) || e.from == Some(
        TaskStatus::Cancelled,
    ))
}

/// A task has a branch exactly when the project has a template that says
/// something: the template filled in for the task, and after `n` reopenings with
/// the number of the cycle, which is `n + 1`, behind it.
pub proof fn law_branch_of_a_task(c: ProjectConfigView, t: TaskView, slug: Seq<char>)
    ensures
        ({
            let n = t.history.filter(|e: LifecycleEventView| is_reopening(e)).len();
            let out = gitflow::branch_of(c, t, slug);
            &&& out is Some <==> (c.branch_template matches Some(b) && says(b))
            &&& out matches Some(b) ==> {
                let base = gitflow::rendered(c.branch_template->0, c.name, t.id, slug);
                &&& n == 0 ==> b == base
                &&& n > 0 ==> b == base + "-cycle-"@ + text::decimal(n as int + 1)
            }
        }),
{
    let f = |e: LifecycleEventView| is_reopening(e);
    let g = |e: LifecycleEventView| gitflow::reopens(e);
    text::lemma_filter_same(t.history, f, g);
}

/// Whether the `k`-th link is the first to a branch.
pub open spec fn first_branch_at(links: Seq<Seq<char>>, k: int) -> bool {
    0 <= k < links.len() && "branch:"@.is_prefix_of(links[k]) && forall|j: int|
        0 <= j < k ==> !"branch:"@.is_prefix_of(#[trigger] links[j])
}

/// The branch of a task is what its first branch link names, and there is none
/// exactly when no link is to a branch.
pub proof fn law_linked_branch(links: Seq<Seq<char>>)
    ensures
        match gitflow::linked_branch(links) {
            Some(b) => exists|k: int| #[trigger]
                first_branch_at(links, k) && links[k] == "branch:"@ + b,
            None => forall|k: int|
                0 <= k < links.len() ==> !"branch:"@.is_prefix_of(#[trigger] links[k]),
        },
    decreases links.len(),
{
    if links.len() > 0 {
        let rest = links.skip(1);
        texts::law_affixes(links[0], "branch:"@);
        law_linked_branch(rest);
        if text::after_prefix(links[0], "branch:"@) is Some {
            assert(first_branch_at(links, 0));
        } else {
            match gitflow::linked_branch(rest) {
                Some(b) => {
                    let k = choose|k: int| #[trigger]
                        first_branch_at(rest, k) && rest[k] == "branch:"@ + b;
                    assert(links[k + 1] == rest[k]);
                    assert(first_branch_at(links, k + 1)) by {
                        assert forall|j: int| 0 <= j < k + 1 implies !"branch:"@.is_prefix_of(
                            #[trigger] links[j],
                        ) by {
                            if j > 0 {
                                assert(rest[j - 1] == links[j]);
                            }
                        }
                    }
                },
                None => {
                    assert forall|k: int| 0 <= k < links.len() implies !"branch:"@.is_prefix_of(
                        #[trigger] links[k],
                    ) by {
                        if k > 0 {
                            assert(rest[k - 1] == links[k]);
                        }
                    }
                },
            }
        }
    }
}

/// Whether a link is to a pull request: a placeholder, or an address below
/// `/pulls/`.
pub open spec fn to_pull_request(l: Seq<char>) -> bool {
    "pr:"@.is_prefix_of(l) || exists|a: Seq<char>, b: Seq<char>| l == #[trigger] (a + "/pulls/"@ + b)
}

/// Whether a repository is a path on this machine.
pub open spec fn on_this_machine(repo: Seq<char>) -> bool {
    "/"@.is_prefix_of(repo) || "."@.is_prefix_of(repo) || "~/"@.is_prefix_of(repo)
        || "~\\"@.is_prefix_of(repo)
}

/// A repository is local exactly when it is a path on this machine.
pub proof fn law_local_repositories(repo: Seq<char>)
    ensures
        gitflow::is_local(repo) == on_this_machine(repo),
{
    text::law_begins(repo, "/"@);
    text::law_begins(repo, "."@);
    text::law_begins(repo, "~/"@);
    text::law_begins(repo, "~\\"@);
}

/// A pull request is opened exactly when the task has none, is on a branch, the
/// project has a repository elsewhere that names its owner, and there is a client
/// to open it with: for that branch, at that repository. Nothing is recorded where
/// there is one already or the repository is on this machine, and a diagnostic in
/// every other case.
pub proof fn law_pull_request_is_opened(c: ProjectConfigView, t: TaskView, has_client: bool)
    ensures
        ({
            let step = gitflow::pr_step(c, t, has_client);
            let asked = exists|i: int| 0 <= i < t.links.len() && to_pull_request(#[trigger] t.links[i]);
            let branched = exists|k: int| first_branch_at(t.links, k);
            let elsewhere = c.git_repo is Some && !on_this_machine(c.git_repo->0);
            let named = c.git_repo is Some && forgejo::repo_of(c.git_repo->0) is Some;
            &&& step is Open <==> !asked && branched && elsewhere && named && has_client
            &&& step matches PrStepView::Open { branch, owner, repo } ==> {
                &&& forgejo::repo_of(c.git_repo->0) == Some((owner, repo))
                &&& exists|k: int| #[trigger]
                    first_branch_at(t.links, k) && t.links[k] == "branch:"@ + branch
            }
            &&& step == PrStepView::Record(GitRecordView::Nothing) <==> asked || branched
                && c.git_repo is Some && !elsewhere
            &&& !(step matches PrStepView::Record(GitRecordView::Link(_)))
        }),
{
    let asked = exists|i: int| 0 <= i < t.links.len() && to_pull_request(#[trigger] t.links[i]);
    let had = exists|i: int| 0 <= i < t.links.len() && gitflow::is_pr_link(#[trigger] t.links[i]);
    if asked {
        let i = choose|i: int| 0 <= i < t.links.len() && to_pull_request(#[trigger] t.links[i]);
        text::law_begins(t.links[i], "pr:"@);
        text::law_has_text(t.links[i], "/pulls/"@);
        assert(gitflow::is_pr_link(t.links[i]));
    }
    if had {
        let i = choose|i: int| 0 <= i < t.links.len() && gitflow::is_pr_link(#[trigger] t.links[i]);
        text::law_begins(t.links[i], "pr:"@);
        text::law_has_text(t.links[i], "/pulls/"@);
        assert(to_pull_request(t.links[i]));
    }
    law_linked_branch(t.links);
    if gitflow::linked_branch(t.links) is None {
        assert forall|k: int| !first_branch_at(t.links, k) by {
            if first_branch_at(t.links, k) {
                assert("branch:"@.is_prefix_of(t.links[k]));
            }
        }
    }
    if c.git_repo is Some {
        law_local_repositories(c.git_repo->0);
    }
}

/// A branch is created exactly when the task has one and the project is a
/// repository; everything else is a diagnostic.
pub proof fn law_branch_is_created(branch: Option<Seq<char>>, is_repo: bool)
    ensures
        ({
            let step = gitflow::branch_step(branch, is_repo);
            &&& step is Create <==> branch is Some && is_repo
            &&& step matches BranchStepView::Create(b) ==> Some(b) == branch
            &&& !(step is Create) ==> step matches BranchStepView::Record(
                GitRecordView::Diagnostic(_),
            )
        }),
{
}

/// What git work leaves behind is recorded on the task: nothing changes nothing,
/// a link goes to the end of the links unless it is there, a diagnostic to the end
/// of the diagnostics, and the record must be sound.
pub proof fn law_git_work_is_recorded(
    t: TaskView,
    operation: Seq<char>,
    record: GitRecordView,
    at: Seq<char>,
    now: Seq<char>,
)
    ensures
        ({
            let out = gitflow::git_recorded(t, operation, record, at, now);
            match record {
                GitRecordView::Nothing => out == Ok::<TaskView, Seq<char>>(t),
                GitRecordView::Link(l) => {
                    &&& out is Ok <==> is_sound(t)
                    &&& out matches Ok(n) ==> {
                        &&& n == (TaskView { links: n.links, updated_at: now, ..t })
                        &&& t.links.contains(l) ==> n.links == t.links
                        &&& !t.links.contains(l) ==> n.links == t.links + seq![l]
                    }
                },
                GitRecordView::Diagnostic(m) => {
                    &&& out is Ok <==> is_sound(t)
                    &&& out matches Ok(n) ==> {
                        &&& n == (TaskView { git_diagnostics: n.git_diagnostics, updated_at: now, ..t })
                        &&& n.git_diagnostics.len() == t.git_diagnostics.len() + 1
                        &&& t.git_diagnostics.is_prefix_of(n.git_diagnostics)
                        &&& n.git_diagnostics.last().operation == operation
                        &&& n.git_diagnostics.last().message == m
                        &&& n.git_diagnostics.last().at == at
                    }
                },
            }
        }),
{
    match record {
        GitRecordView::Nothing => {},
        GitRecordView::Link(l) => {
            edits::law_link_is_added(t, l);
            edits::law_sound_records_are_saved(service::linked(t, l), now);
        },
        GitRecordView::Diagnostic(m) => {
            edits::law_diagnostic_is_added(t, operation, m, at);
            edits::law_sound_records_are_saved(service::diagnosed(t, operation, m, at), now);
        },
    }
}

/// The default branch of a repository is the one that the reply names by text, and
/// `main` where it names none; the address of a pull request is the one that the
/// reply names, where that is not empty.
pub proof fn law_replies_are_read(m: Seq<MemberView>, k: int, s: Seq<char>, shown: Seq<char>)
    requires
        m[k].value == JsonView::Text(s),
    ensures
        json::first_named(m, "default_branch"@, k) ==> forgejo::branch_named(JsonView::Object(m)) == s,
        (forall|i: int| 0 <= i < m.len() ==> (#[trigger] m[i]).name != "default_branch"@)
            ==> forgejo::branch_named(JsonView::Object(m)) == "main"@,
        json::first_named(m, "html_url"@, k) && s.len() > 0 ==> forgejo::pr_address(
            JsonView::Object(m),
            shown,
        ) == Ok::<Seq<char>, Seq<char>>(s),
        json::first_named(m, "html_url"@, k) && s.len() == 0 ==> forgejo::pr_address(
            JsonView::Object(m),
            shown,
        ) is Err,
        (forall|i: int| 0 <= i < m.len() ==> (#[trigger] m[i]).name != "html_url"@)
            ==> forgejo::pr_address(JsonView::Object(m), shown) is Err,
{
    lemma_named(m, "default_branch"@, k);
    lemma_named(m, "html_url"@, k);
}

proof fn lemma_named(m: Seq<MemberView>, name: Seq<char>, k: int)
    ensures
        json::first_named(m, name, k) ==> json::lookup(m, name) == Some(m[k].value),
        (forall|i: int| 0 <= i < m.len() ==> (#[trigger] m[i]).name != name) ==> json::lookup(
            m,
            name,
        ) is None,
{
    json::law_members_are_found_by_name(m, name);
    if json::lookup(m, name) is Some {
        let n = choose|n: int| #[trigger]
            json::first_named(m, name, n) && m[n].value == json::lookup(m, name)->0;
        if json::first_named(m, name, k) {
            if n < k {
                assert(m[n].name != name);
            } else if k < n {
                assert(m[k].name != name);
            }
        }
    }
}

} // verus!
