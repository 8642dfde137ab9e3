//! Optional git-flow integration.
//!
//! Tasks carry branch and pull-request links. When git integration is `auto`
//! and a task starts, a branch is created from the project's template; when
//! it moves to review, a pull request is opened. The git and Forgejo side
//! effects are best-effort and never fail the status transition: failures are
//! recorded as structured diagnostics on the task (never as report problems),
//! and a link is only recorded when the operation actually succeeded.
//!
//! This module decides what is to be done and what is recorded of it; the
//! operations themselves are the caller's.
use vstd::prelude::*;

use crate::error::Error;
use crate::forgejo;
use crate::forgejo::Forgejo;
use crate::model::{LifecycleEventView, Task, TaskStatus, TaskView};
use crate::project::{ProjectConfig, ProjectConfigView};
use crate::service;
use crate::service::{add_git_diagnostic_at, add_task_link_at};
use crate::text;
use crate::text::{
    cat, cat3, chars_of, contains_text, int_text, is_blank, join, keep_nonempty, lines_of,
    natural_text, owned, replace, split_where, starts_with, strip_prefix, to_lower, trimmed,
};

verus! {

// ===== branch names =====

/// Whether a character is a letter or a digit of ASCII.
pub open spec fn ascii_alphanumeric(c: char) -> bool {
    '0' <= c <= '9' || 'A' <= c <= 'Z' || 'a' <= c <= 'z'
}

/// What separates the words of a slug.
pub open spec fn slug_gap() -> spec_fn(char) -> bool {
    |c: char| !ascii_alphanumeric(c)
}

/// The words of a text in ASCII letters and digits, with dashes between them.
pub open spec fn slug(lower: Seq<char>) -> Seq<char> {
    text::joined(text::nonempty(text::pieces(lower, slug_gap())), "-"@)
}

/// The slug of a text in lower case.
pub fn slug_of(lower: &str) -> (r: String)
    ensures
        r@ == slug(lower@),
{
    let chars = chars_of(lower);
    let mut cut: Vec<bool> = Vec::new();
    let mut i: usize = 0;
    while i < chars.len()
        invariant
            i <= chars.len(),
            cut.len() == i,
            forall|j: int| 0 <= j < i ==> #[trigger] cut@[j] == slug_gap()(chars@[j]),
        decreases chars.len() - i,
    {
        let c = chars[i];
        cut.push(!(('0' <= c && c <= '9') || ('A' <= c && c <= 'Z') || ('a' <= c && c <= 'z')));
        i += 1;
    }
    let all = split_where(&chars, &cut, Ghost(slug_gap()));
    let words = keep_nonempty(all);
    join(&words, "-")
}

/// Converts a title into a branch-safe slug (lowercase, alphanumerics and
/// dashes only). A slug is its own slug.
pub fn slugify(title: &str) -> (r: String)
    ensures
        r@ == slug(text::lowercase(text::trim(title@))),
        is_slug(r@),
        r@.len() == 0 <==> no_alphanumeric(text::lowercase(text::trim(title@))),
        is_slug(title@) ==> r@ == title@,
{
    let t = trimmed(title);
    let lower = to_lower(t.as_str());
    proof {
        law_slug_is_branch_safe(lower@);
        lemma_slug_small(lower@);
        if is_slug(title@) {
            lemma_slug_is_bare(title@);
            law_safe_text_is_its_slug(title@);
        }
    }
    slug_of(lower.as_str())
}

/// Whether a text is made of ASCII letters, digits and dashes, with no dash at
/// its ends and no two dashes in a row.
pub open spec fn branch_safe(s: Seq<char>) -> bool {
    &&& forall|i: int| 0 <= i < s.len() ==> ascii_alphanumeric(#[trigger] s[i]) || s[i] == '-'
    &&& s.len() > 0 ==> s[0] != '-' && s.last() != '-'
    &&& forall|i: int| 0 < i < s.len() ==> #[trigger] s[i] != '-' || s[i - 1] != '-'
}

/// Whether a text is branch-safe and holds no capital letter.
pub open spec fn is_slug(s: Seq<char>) -> bool {
    branch_safe(s) && forall|i: int| 0 <= i < s.len() ==> !text::is_ascii_capital(#[trigger] s[i])
}

/// Whether a text holds no letter and no digit of ASCII.
pub open spec fn no_alphanumeric(s: Seq<char>) -> bool {
    forall|i: int| 0 <= i < s.len() ==> !ascii_alphanumeric(#[trigger] s[i])
}

/// Whether a text is a word of a slug.
spec fn is_word(s: Seq<char>) -> bool {
    s.len() > 0 && forall|i: int| 0 <= i < s.len() ==> ascii_alphanumeric(#[trigger] s[i])
}

proof fn lemma_pieces_words(s: Seq<char>)
    ensures
        forall|k: int, j: int|
            0 <= k < text::pieces(s, slug_gap()).len() && 0 <= j < text::pieces(
                s,
                slug_gap(),
            )[k].len() ==> ascii_alphanumeric(#[trigger] text::pieces(s, slug_gap())[k][j])
                && s.contains(text::pieces(s, slug_gap())[k][j]),
    decreases s.len(),
{
    if s.len() > 0 {
        let front = s.drop_last();
        lemma_pieces_words(front);
        text::lemma_pieces_nonempty(front, slug_gap());
        let p = text::pieces(front, slug_gap());
        let q = text::pieces(s, slug_gap());
        assert forall|k: int, j: int| 0 <= k < q.len() && 0 <= j < q[k].len() implies
            ascii_alphanumeric(#[trigger] q[k][j]) && s.contains(q[k][j]) by {
            if k < p.len() && j < p[k].len() && q[k][j] == p[k][j] {
                assert(front.contains(p[k][j]));
                let at = choose|at: int| 0 <= at < front.len() && front[at] == p[k][j];
                assert(s[at] == p[k][j]);
            } else {
                assert(!slug_gap()(s.last()));
                assert(q[k][j] == s.last());
                assert(s[s.len() - 1] == q[k][j]);
            }
        }
    }
}

proof fn lemma_joined_words(words: Seq<Seq<char>>)
    requires
        forall|k: int| 0 <= k < words.len() ==> is_word(#[trigger] words[k]),
    ensures
        branch_safe(text::joined(words, "-"@)),
        words.len() > 0 ==> text::joined(words, "-"@).len() > 0,
    decreases words.len(),
{
    reveal_strlit("-");
    if words.len() > 1 {
        let front = words.drop_last();
        assert forall|k: int| 0 <= k < front.len() implies is_word(#[trigger] front[k]) by {
            assert(front[k] == words[k]);
        }
        lemma_joined_words(front);
        let f = text::joined(front, "-"@);
        let w = words.last();
        assert(is_word(words[words.len() - 1]));
        let s = f + "-"@ + w;
        assert(s == text::joined(words, "-"@));
        assert(s[0] == f[0]);
        assert(s.last() == w.last());
        assert(w[w.len() - 1] == w.last());
        assert(w[0] != '-');
        assert forall|i: int| 0 <= i < s.len() implies ascii_alphanumeric(#[trigger] s[i])
            || s[i] == '-' by {
            if i < f.len() {
                assert(s[i] == f[i]);
            } else if i > f.len() {
                assert(s[i] == w[i - f.len() - 1]);
            }
        }
        assert forall|i: int| 0 < i < s.len() implies #[trigger] s[i] != '-' || s[i - 1] != '-' by {
            if i < f.len() {
                assert(s[i] == f[i]);
                assert(s[i - 1] == f[i - 1]);
            } else if i == f.len() {
                assert(s[i - 1] == f[i - 1]);
                assert(f.last() == f[i - 1]);
            } else {
                assert(s[i] == w[i - f.len() - 1]);
            }
        }
    } else if words.len() == 1 {
        assert(is_word(words[0]));
        let w = words[0];
        assert(w.last() == w[w.len() - 1]);
    }
}

proof fn lemma_slug_words(lower: Seq<char>)
    ensures
        forall|k: int|
            0 <= k < text::nonempty(text::pieces(lower, slug_gap())).len() ==> is_word(
                #[trigger] text::nonempty(text::pieces(lower, slug_gap()))[k],
            ),
{
    let all = text::pieces(lower, slug_gap());
    let kept = text::nonempty(all);
    lemma_pieces_words(lower);
    assert forall|k: int| 0 <= k < kept.len() implies is_word(#[trigger] kept[k]) by {
        text::lemma_filter_keeps(all, |p: Seq<char>| p.len() > 0, k);
    }
}

proof fn lemma_joined_small(words: Seq<Seq<char>>)
    requires
        forall|k: int, j: int|
            0 <= k < words.len() && 0 <= j < words[k].len() ==> !text::is_ascii_capital(
                #[trigger] words[k][j],
            ),
    ensures
        forall|i: int|
            0 <= i < text::joined(words, "-"@).len() ==> !text::is_ascii_capital(
                #[trigger] text::joined(words, "-"@)[i],
            ),
    decreases words.len(),
{
    reveal_strlit("-");
    if words.len() > 1 {
        let front = words.drop_last();
        assert forall|k: int, j: int| 0 <= k < front.len() && 0 <= j < front[k].len() implies
            !text::is_ascii_capital(#[trigger] front[k][j]) by {
            assert(!text::is_ascii_capital(words[k][j]));
        }
        lemma_joined_small(front);
        let f = text::joined(front, "-"@);
        let s = text::joined(words, "-"@);
        assert forall|i: int| 0 <= i < s.len() implies !text::is_ascii_capital(
            #[trigger] s[i],
        ) by {
            if i < f.len() {
                assert(s[i] == f[i]);
            } else if i > f.len() {
                assert(s[i] == words[words.len() - 1][i - f.len() - 1]);
            }
        }
    } else if words.len() == 1 {
        assert forall|i: int| 0 <= i < words[0].len() implies !text::is_ascii_capital(
            #[trigger] words[0][i],
        ) by {}
    }
}

/// The slug of a text without capitals of ASCII holds none either.
proof fn lemma_slug_small(lower: Seq<char>)
    requires
        forall|i: int| 0 <= i < lower.len() ==> !text::is_ascii_capital(#[trigger] lower[i]),
    ensures
        forall|i: int|
            0 <= i < slug(lower).len() ==> !text::is_ascii_capital(#[trigger] slug(lower)[i]),
{
    let all = text::pieces(lower, slug_gap());
    let kept = text::nonempty(all);
    lemma_pieces_words(lower);
    assert forall|k: int, j: int| 0 <= k < kept.len() && 0 <= j < kept[k].len() implies
        !text::is_ascii_capital(#[trigger] kept[k][j]) by {
        text::lemma_filter_keeps(all, |p: Seq<char>| p.len() > 0, k);
        let at = choose|at: int| 0 <= at < all.len() && all[at] == kept[k];
        assert(lower.contains(all[at][j]));
    }
    lemma_joined_small(kept);
}

/// A slug is branch-safe, whatever the text it is made of, and empty exactly when
/// that text holds no letter and no digit of ASCII.
pub proof fn law_slug_is_branch_safe(lower: Seq<char>)
    ensures
        branch_safe(slug(lower)),
        slug(lower).len() == 0 <==> no_alphanumeric(lower),
{
    lemma_slug_words(lower);
    lemma_joined_words(text::nonempty(text::pieces(lower, slug_gap())));
    lemma_no_words(lower);
}

proof fn lemma_no_words(s: Seq<char>)
    ensures
        text::nonempty(text::pieces(s, slug_gap())).len() == 0 <==> no_alphanumeric(s),
    decreases s.len(),
{
    reveal(Seq::filter);
    let q = text::pieces(s, slug_gap());
    if s.len() == 0 {
        assert(q.drop_last() =~= Seq::empty());
        assert(text::nonempty(q.drop_last()) =~= Seq::empty());
    } else {
        let front = s.drop_last();
        let p = text::pieces(front, slug_gap());
        lemma_no_words(front);
        text::lemma_pieces_nonempty(front, slug_gap());
        if slug_gap()(s.last()) {
            assert(q.drop_last() =~= p);
            assert(no_alphanumeric(s) == no_alphanumeric(front)) by {
                if no_alphanumeric(front) {
                    assert forall|i: int| 0 <= i < s.len() implies !ascii_alphanumeric(
                        #[trigger] s[i],
                    ) by {
                        if i < front.len() {
                            assert(!ascii_alphanumeric(front[i]));
                        }
                    }
                } else {
                    let i = choose|i: int|
                        0 <= i < front.len() && ascii_alphanumeric(#[trigger] front[i]);
                    assert(ascii_alphanumeric(s[i]));
                }
            }
        } else {
            assert(q.last() == p.last().push(s.last()));
            assert(ascii_alphanumeric(s[s.len() - 1]));
        }
    }
}

/// A slug is its own slug.
pub proof fn law_slug_is_its_own_slug(lower: Seq<char>)
    ensures
        slug(slug(lower)) == slug(lower),
{
    law_slug_is_branch_safe(lower);
    law_safe_text_is_its_slug(slug(lower));
}

/// A branch-safe text is its own slug.
pub proof fn law_safe_text_is_its_slug(s: Seq<char>)
    requires
        branch_safe(s),
    ensures
        slug(s) == s,
{
    lemma_safe_words(s);
}

/// The words of a text that is branch-safe, but for a dash at its end, give it
/// back without that dash.
proof fn lemma_safe_words(s: Seq<char>)
    requires
        forall|i: int| 0 <= i < s.len() ==> ascii_alphanumeric(#[trigger] s[i]) || s[i] == '-',
        s.len() > 0 ==> s[0] != '-',
        forall|i: int| 0 < i < s.len() ==> #[trigger] s[i] != '-' || s[i - 1] != '-',
    ensures
        s.len() == 0 || s.last() != '-' ==> slug(s) == s,
        s.len() > 0 && s.last() == '-' ==> slug(s) == s.drop_last(),
        (text::pieces(s, slug_gap()).last().len() == 0) == (s.len() == 0 || s.last() == '-'),
    decreases s.len(),
{
    reveal(Seq::filter);
    reveal_strlit("-");
    let q = text::pieces(s, slug_gap());
    let kept = text::nonempty(q);
    if s.len() == 0 {
        assert(q.drop_last() =~= Seq::empty());
        assert(text::nonempty(q.drop_last()) =~= Seq::empty());
        assert(slug(s) =~= s);
    } else {
        let front = s.drop_last();
        let p = text::pieces(front, slug_gap());
        let words = text::nonempty(p);
        assert forall|i: int| 0 <= i < front.len() implies ascii_alphanumeric(#[trigger] front[i])
            || front[i] == '-' by {
            assert(front[i] == s[i]);
        }
        assert forall|i: int| 0 < i < front.len() implies #[trigger] front[i] != '-' || front[i - 1]
            != '-' by {
            assert(front[i] == s[i]);
            assert(front[i - 1] == s[i - 1]);
        }
        if front.len() > 0 {
            assert(front[0] == s[0]);
            assert(front.last() == s[s.len() - 2]);
        }
        lemma_safe_words(front);
        text::lemma_pieces_nonempty(front, slug_gap());
        assert(s[s.len() - 1] == s.last());
        if s.last() == '-' {
            assert(q.drop_last() =~= p);
            assert(kept == words);
            assert(s[s.len() - 2] != '-');
        } else {
            let c = s.last();
            assert(!slug_gap()(c));
            assert(q.drop_last() =~= p.drop_last());
            assert(q.last() == p.last().push(c));
            if p.last().len() == 0 {
                assert(words == text::nonempty(p.drop_last()));
                assert(p.last().push(c) =~= seq![c]);
                assert(kept == words.push(seq![c]));
                assert(kept.drop_last() =~= words);
                if front.len() == 0 {
                    assert(p.drop_last() =~= Seq::empty());
                    assert(slug(s) =~= s);
                } else {
                    assert(front.drop_last()[0] == front[0]);
                    assert(words.len() > 0);
                    assert(slug(s) =~= s);
                }
            } else {
                let base = text::nonempty(p.drop_last());
                assert(words == base.push(p.last()));
                assert(kept == base.push(p.last().push(c)));
                assert(words.drop_last() =~= base);
                assert(kept.drop_last() =~= base);
                assert(slug(s) =~= slug(front).push(c));
                assert(slug(s) =~= s);
            }
        }
    }
}

/// Nothing is trimmed off a slug, and its lower case is itself.
proof fn lemma_slug_is_bare(s: Seq<char>)
    requires
        is_slug(s),
    ensures
        text::trim(s) == s,
        text::is_ascii_small(s),
{
    if s.len() > 0 {
        assert(ascii_alphanumeric(s[0]));
        assert(s.last() == s[s.len() - 1]);
        assert(ascii_alphanumeric(s[s.len() - 1]));
    }
}

/// A branch template with its placeholders filled in.
pub open spec fn rendered(
    template: Seq<char>,
    project_name: Seq<char>,
    task_id: i64,
    slug: Seq<char>,
) -> Seq<char> {
    let id = text::decimal(task_id as int);
    text::replaced(
        text::replaced(
            text::replaced(
                text::replaced(template, "{project}"@, project_name),
                "{task-id}"@,
                id,
            ),
            "{task_id}"@,
            id,
        ),
        "{slug}"@,
        slug,
    )
}

/// Renders a branch name from a template. Supported placeholders:
/// {project}, {task-id} / {task_id}, {slug}.
pub fn render_branch_name(template: &str, project_name: &str, task_id: i64, slug: &str) -> (r:
    String)
    ensures
        r@ == rendered(template@, project_name@, task_id, slug@),
{
    proof {
        reveal_strlit("{project}");
        reveal_strlit("{task-id}");
        reveal_strlit("{task_id}");
        reveal_strlit("{slug}");
    }
    let id = int_text(task_id);
    let a = replace(template, "{project}", project_name);
    let b = replace(a.as_str(), "{task-id}", id.as_str());
    let c = replace(b.as_str(), "{task_id}", id.as_str());
    replace(c.as_str(), "{slug}", slug)
}

/// Whether an event reopened a closed or cancelled task.
pub open spec fn reopens(e: LifecycleEventView) -> bool {
    e.to == TaskStatus::Open && (e.from == Some(TaskStatus::Closed) || e.from == Some(
        TaskStatus::Cancelled,
    ))
}

/// How often a task was reopened.
pub open spec fn reopenings(history: Seq<LifecycleEventView>) -> nat {
    history.filter(|e: LifecycleEventView| reopens(e)).len()
}

/// The branch of a task: the rendered template, with the number of the cycle
/// once the task was reopened. There is none without a template.
pub open spec fn branch_of(c: ProjectConfigView, t: TaskView, slug: Seq<char>) -> Option<
    Seq<char>,
> {
    if text::opt_blank(c.branch_template) {
        None
    } else {
        let base = rendered(c.branch_template->0, c.name, t.id, slug);
        let n = reopenings(t.history);
        if n == 0 {
            Some(base)
        } else {
            Some(base + "-cycle-"@ + text::numeral(n + 1))
        }
    }
}

fn count_reopenings(task: &Task) -> (r: usize)
    ensures
        r == reopenings(task@.history),
        r <= task.history.len(),
{
    let ghost all = task@.history;
    let ghost keep = |e: LifecycleEventView| reopens(e);
    let mut n: usize = 0;
    let mut i: usize = 0;
    assert(all.take(0).filter(keep).len() == 0) by {
        reveal(Seq::filter);
    }
    while i < task.history.len()
        invariant
            i <= task.history.len(),
            n <= i,
            all == task@.history,
            keep == (|e: LifecycleEventView| reopens(e)),
            n == all.take(i as int).filter(keep).len(),
        decreases task.history.len() - i,
    {
        proof {
            text::lemma_filter_take(all, keep, i as int);
            assert(all[i as int] == task.history@[i as int]@);
        }
        let e = &task.history[i];
        let ended = match e.from {
            Some(TaskStatus::Closed) => true,
            Some(TaskStatus::Cancelled) => true,
            _ => false,
        };
        if e.to == TaskStatus::Open && ended {
            n += 1;
        }
        i += 1;
    }
    assert(all.take(i as int) =~= all);
    n
}

/// The branch name for a task whose title has the given slug.
pub fn branch_name_with(config: &ProjectConfig, task: &Task, slug: &str) -> (r: Option<String>)
    ensures
        text::opt_text(r) == branch_of(config@, task@, slug@),
{
    let template = match &config.branch_template {
        Some(t) => t,
        None => {
            return None;
        },
    };
    if is_blank(template.as_str()) {
        return None;
    }
    let base = render_branch_name(template.as_str(), config.name.as_str(), task.id, slug);
    let n = count_reopenings(task);
    if n == 0 {
        Some(base)
    } else {
        let m: u128 = n as u128 + 1;
        let number = natural_text(m);
        Some(cat3(base.as_str(), "-cycle-", number.as_str()))
    }
}

/// Returns the branch name for a task, if its project has a branch template.
pub fn branch_name_for(config: &ProjectConfig, task: &Task) -> (r: Option<String>)
    ensures
        text::opt_text(r) == branch_of(
            config@,
            task@,
            slug(text::lowercase(text::trim(task@.title))),
        ),
{
    let slug = slugify(task.title.as_str());
    branch_name_with(config, task, slug.as_str())
}

// ===== what is done, and what is recorded of it =====

/// Whether a repository is a local path.
pub open spec fn is_local(git_repo: Seq<char>) -> bool {
    text::begins(git_repo, "/"@) || text::begins(git_repo, "."@) || text::begins(git_repo, "~/"@)
        || text::begins(git_repo, "~\\"@)
}

/// True when git_repo is a local path (rather than a remote URL).
pub fn local_git_dir(git_repo: Option<&str>) -> (r: bool)
    ensures
        r == match text::given(git_repo) {
            Some(repo) => is_local(repo),
            None => false,
        },
{
    match git_repo {
        Some(repo) => starts_with(repo, "/") || starts_with(repo, ".") || starts_with(repo, "~/")
            || starts_with(repo, "~\\"),
        None => false,
    }
}

/// The message about a git command that failed.
pub fn git_failure(args: &Vec<String>, stderr: &str) -> (r: String)
    ensures
        r@ == "git "@ + text::joined(text::texts(args@), " "@) + " failed: "@ + text::trim(stderr@),
{
    let all = join(args, " ");
    let said = trimmed(stderr);
    let a = cat3("git ", all.as_str(), " failed: ");
    cat(a.as_str(), said.as_str())
}

/// What git work leaves behind on a task.
#[derive(Debug, PartialEq, Eq)]
pub enum GitRecord {
    Nothing,
    /// A link, of an operation that succeeded.
    Link(String),
    /// The message of a diagnostic.
    Diagnostic(String),
}

/// What a [`GitRecord`] holds.
pub enum GitRecordView {
    Nothing,
    Link(Seq<char>),
    Diagnostic(Seq<char>),
}

impl View for GitRecord {
    type V = GitRecordView;

    open spec fn view(&self) -> GitRecordView {
        match *self {
            GitRecord::Nothing => GitRecordView::Nothing,
            GitRecord::Link(l) => GitRecordView::Link(l@),
            GitRecord::Diagnostic(m) => GitRecordView::Diagnostic(m@),
        }
    }
}

/// What is to be done about the branch of a task that started.
#[derive(Debug, PartialEq, Eq)]
pub enum BranchStep {
    /// The branch is to be created and checked out.
    Create(String),
    Record(GitRecord),
}

/// What a [`BranchStep`] holds.
pub enum BranchStepView {
    Create(Seq<char>),
    Record(GitRecordView),
}

impl View for BranchStep {
    type V = BranchStepView;

    open spec fn view(&self) -> BranchStepView {
        match *self {
            BranchStep::Create(b) => BranchStepView::Create(b@),
            BranchStep::Record(r) => BranchStepView::Record(r@),
        }
    }
}

/// What is to be done about the branch of a task, when `branch` is its name.
pub open spec fn branch_step(branch: Option<Seq<char>>, is_repo: bool) -> BranchStepView {
    match branch {
        None => BranchStepView::Record(
            GitRecordView::Diagnostic("no branch_template configured; branch not created"@),
        ),
        Some(b) => if is_repo {
            BranchStepView::Create(b)
        } else {
            BranchStepView::Record(
                GitRecordView::Diagnostic("project folder is not a git repository"@),
            )
        },
    }
}

/// What is to be done about the branch of a task, when `branch` is its name
/// and `is_repo` tells whether the project folder is a git repository.
pub fn plan_branch(branch: Option<String>, is_repo: bool) -> (r: BranchStep)
    ensures
        r@ == branch_step(text::opt_text(branch), is_repo),
{
    match branch {
        None => BranchStep::Record(
            GitRecord::Diagnostic(owned("no branch_template configured; branch not created")),
        ),
        Some(b) => if is_repo {
            BranchStep::Create(b)
        } else {
            BranchStep::Record(
                GitRecord::Diagnostic(owned("project folder is not a git repository")),
            )
        },
    }
}

/// What is to be done about the branch (from the project template) of a task
/// that started.
pub fn auto_branch(config: &ProjectConfig, task: &Task, is_repo: bool) -> (r: BranchStep)
    ensures
        r@ == branch_step(
            branch_of(config@, task@, slug(text::lowercase(text::trim(task@.title)))),
            is_repo,
        ),
{
    plan_branch(branch_name_for(config, task), is_repo)
}

/// What is recorded of a branch: its link only when it was actually created,
/// and the failure otherwise.
pub fn branch_record(branch: &str, result: Result<(), String>) -> (r: GitRecord)
    ensures
        r@ == match result {
            Ok(_) => GitRecordView::Link("branch:"@ + branch@),
            Err(e) => GitRecordView::Diagnostic("branch creation failed: "@ + e@),
        },
{
    match result {
        Ok(_) => GitRecord::Link(cat("branch:", branch)),
        Err(e) => GitRecord::Diagnostic(cat("branch creation failed: ", e.as_str())),
    }
}

/// Whether a link is a pull request's: a real URL or a legacy placeholder.
pub open spec fn is_pr_link(link: Seq<char>) -> bool {
    text::begins(link, "pr:"@) || text::has_text(link, "/pulls/"@)
}

/// True if a task already carries a PR link: either a real PR URL or a
/// legacy `pr:` placeholder (placeholders are never created anymore).
pub fn has_pr_link(links: &Vec<String>) -> (r: bool)
    ensures
        r == exists|i: int| 0 <= i < links.len() && is_pr_link(#[trigger] links@[i]@),
{
    let mut i: usize = 0;
    while i < links.len()
        invariant
            i <= links.len(),
            forall|j: int| 0 <= j < i ==> !is_pr_link(#[trigger] links@[j]@),
        decreases links.len() - i,
    {
        if starts_with(links[i].as_str(), "pr:") || contains_text(links[i].as_str(), "/pulls/") {
            assert(is_pr_link(links@[i as int]@));
            return true;
        }
        i += 1;
    }
    false
}

/// The branch of the first branch link.
pub open spec fn linked_branch(links: Seq<Seq<char>>) -> Option<Seq<char>>
    decreases links.len(),
{
    if links.len() == 0 {
        None
    } else {
        match text::after_prefix(links[0], "branch:"@) {
            Some(b) => Some(b),
            None => linked_branch(links.skip(1)),
        }
    }
}

/// The branch of the first branch link.
pub fn first_branch(links: &Vec<String>) -> (r: Option<String>)
    ensures
        text::opt_text(r) == linked_branch(text::texts(links@)),
{
    let ghost all = text::texts(links@);
    let mut i: usize = 0;
    assert(all.skip(0) =~= all);
    while i < links.len()
        invariant
            i <= links.len(),
            all == text::texts(links@),
            linked_branch(all) == linked_branch(all.skip(i as int)),
        decreases links.len() - i,
    {
        assert(all.skip(i as int)[0] == links@[i as int]@);
        assert(all.skip(i as int).skip(1) =~= all.skip(i + 1));
        if let Some(b) = strip_prefix(links[i].as_str(), "branch:") {
            return Some(b);
        }
        i += 1;
    }
    None
}

/// What is to be done about the pull request of a task that moved to review.
#[derive(Debug, PartialEq, Eq)]
pub enum PrStep {
    /// The pull request is to be opened.
    Open { branch: String, owner: String, repo: String },
    Record(GitRecord),
}

/// What a [`PrStep`] holds.
pub enum PrStepView {
    Open { branch: Seq<char>, owner: Seq<char>, repo: Seq<char> },
    Record(GitRecordView),
}

impl View for PrStep {
    type V = PrStepView;

    open spec fn view(&self) -> PrStepView {
        match *self {
            PrStep::Open { branch, owner, repo } => PrStepView::Open {
                branch: branch@,
                owner: owner@,
                repo: repo@,
            },
            PrStep::Record(r) => PrStepView::Record(r@),
        }
    }
}

/// The diagnostic of a pull request without a client.
pub const NO_CLIENT: &'static str =
    "FORGEJO_TOKEN or FORGEJO_URL missing or empty; PR not created (attach a link manually if needed)";

/// What is to be done about the pull request of a task: nothing where there is
/// one already or the repository is a local checkout, and a diagnostic where
/// something is missing.
pub open spec fn pr_step(c: ProjectConfigView, t: TaskView, has_client: bool) -> PrStepView {
    if exists|i: int| 0 <= i < t.links.len() && is_pr_link(#[trigger] t.links[i]) {
        PrStepView::Record(GitRecordView::Nothing)
    } else if linked_branch(t.links) is None {
        PrStepView::Record(GitRecordView::Diagnostic("no branch link recorded; cannot open PR"@))
    } else if c.git_repo is None {
        PrStepView::Record(GitRecordView::Diagnostic("no git_repo configured; cannot open PR"@))
    } else if is_local(c.git_repo->0) {
        PrStepView::Record(GitRecordView::Nothing)
    } else {
        match forgejo::repo_of(c.git_repo->0) {
            None => PrStepView::Record(
                GitRecordView::Diagnostic(
                    "cannot parse git_repo '"@ + c.git_repo->0 + "' into owner/repo"@,
                ),
            ),
            Some((owner, repo)) => if has_client {
                PrStepView::Open { branch: linked_branch(t.links)->0, owner, repo }
            } else {
                PrStepView::Record(GitRecordView::Diagnostic(NO_CLIENT@))
            },
        }
    }
}

/// What is to be done about the pull request of a task that moved to review;
/// `has_client` tells whether a Forgejo client is configured.
pub fn auto_pr(config: &ProjectConfig, task: &Task, has_client: bool) -> (r: PrStep)
    ensures
        r@ == pr_step(config@, task@, has_client),
{
    let ghost links = task@.links;
    assert forall|i: int| 0 <= i < links.len() implies #[trigger] links[i]
        == task.links@[i]@ by {}
    if has_pr_link(&task.links) {
        proof {
            let i = choose|i: int|
                0 <= i < task.links.len() && is_pr_link(#[trigger] task.links@[i]@);
            assert(is_pr_link(links[i]));
        }
        return PrStep::Record(GitRecord::Nothing);
    }
    assert forall|i: int| 0 <= i < links.len() implies !is_pr_link(#[trigger] links[i]) by {
        assert(!is_pr_link(task.links@[i]@));
    }
    let branch = match first_branch(&task.links) {
        Some(b) => b,
        None => {
            return PrStep::Record(
                GitRecord::Diagnostic(owned("no branch link recorded; cannot open PR")),
            );
        },
    };
    let git_repo = match &config.git_repo {
        Some(g) => g,
        None => {
            return PrStep::Record(
                GitRecord::Diagnostic(owned("no git_repo configured; cannot open PR")),
            );
        },
    };
    if local_git_dir(Some(git_repo.as_str())) {
        return PrStep::Record(GitRecord::Nothing);
    }
    match Forgejo::parse_repo(git_repo.as_str()) {
        None => PrStep::Record(
            GitRecord::Diagnostic(
                cat3("cannot parse git_repo '", git_repo.as_str(), "' into owner/repo"),
            ),
        ),
        Some((owner, repo)) => if has_client {
            PrStep::Open { branch, owner, repo }
        } else {
            PrStep::Record(GitRecord::Diagnostic(owned(NO_CLIENT)))
        },
    }
}

/// What is recorded of a pull request: its real URL only on success, and the
/// failure otherwise.
pub fn pr_record(result: Result<String, Error>) -> (r: GitRecord)
    ensures
        r@ == match result {
            Ok(url) => GitRecordView::Link(url@),
            Err(e) => GitRecordView::Diagnostic("PR creation failed: "@ + e@),
        },
{
    match result {
        Ok(url) => GitRecord::Link(url),
        Err(e) => GitRecord::Diagnostic(cat("PR creation failed: ", e.message.as_str())),
    }
}

/// The PR description of a task.
pub open spec fn pr_text(t: TaskView) -> Seq<char> {
    (if t.description.len() == 0 {
        Seq::empty()
    } else {
        t.description + "\n"@
    }) + (if t.acceptance.len() == 0 {
        Seq::empty()
    } else {
        "\nAcceptance criteria:\n"@ + text::lined("- "@, t.acceptance)
    }) + ("\njay task #"@ + text::decimal(t.id as int) + "\n"@)
}

/// Builds the PR description body from a task.
pub fn pr_body(task: &Task) -> (r: String)
    ensures
        r@ == pr_text(task@),
{
    let mut out = String::new();
    if chars_of(task.description.as_str()).len() > 0 {
        out.append(task.description.as_str());
        out.append("\n");
    }
    assert(out@ =~= if task@.description.len() == 0 {
        Seq::empty()
    } else {
        task@.description + "\n"@
    });
    let ghost head = out@;
    if task.acceptance.len() > 0 {
        let list = lines_of("- ", &task.acceptance);
        out.append("\nAcceptance criteria:\n");
        out.append(list.as_str());
    }
    assert(out@ =~= head + if task@.acceptance.len() == 0 {
        Seq::empty()
    } else {
        "\nAcceptance criteria:\n"@ + text::lined("- "@, task@.acceptance)
    });
    let id = int_text(task.id);
    let tail = cat3("\njay task #", id.as_str(), "\n");
    out.append(tail.as_str());
    out
}

/// A task with what git work leaves behind, or the message with which the
/// record is refused.
pub open spec fn git_recorded(
    t: TaskView,
    operation: Seq<char>,
    record: GitRecordView,
    at: Seq<char>,
    now: Seq<char>,
) -> Result<TaskView, Seq<char>> {
    match record {
        GitRecordView::Nothing => Ok(t),
        GitRecordView::Link(l) => service::saved(service::linked(t, l), now),
        GitRecordView::Diagnostic(m) => service::diagnostic_outcome(t, operation, m, at, now),
    }
}

/// Records on a task what git work leaves behind.
pub fn record_git(task: Task, operation: &str, record: &GitRecord, at: &str, now: &str) -> (r: Result<
    Task,
    Error,
>)
    ensures
        service::outcome(r) == git_recorded(task@, operation@, record@, at@, now@),
{
    match record {
        GitRecord::Nothing => Ok(task),
        GitRecord::Link(l) => add_task_link_at(task, l.as_str(), now),
        GitRecord::Diagnostic(m) => add_git_diagnostic_at(task, operation, m.as_str(), at, now),
    }
}

/// Git work never undoes a transition and stays out of the report: what it
/// leaves behind touches links, diagnostics and the time of the last change
/// alone.
pub proof fn law_git_work_stays_apart(
    t: TaskView,
    operation: Seq<char>,
    record: GitRecordView,
    at: Seq<char>,
    now: Seq<char>,
)
    ensures
        git_recorded(t, operation, record, at, now) matches Ok(n) ==> n == (TaskView {
            links: n.links,
            git_diagnostics: n.git_diagnostics,
            updated_at: n.updated_at,
            ..t
        }),
{
}

/// A link is only recorded when the operation actually succeeded, and a
/// failure is recorded as a diagnostic.
pub proof fn law_failure_records_no_link(
    t: TaskView,
    operation: Seq<char>,
    message: Seq<char>,
    at: Seq<char>,
    now: Seq<char>,
)
    ensures
        git_recorded(t, operation, GitRecordView::Diagnostic(message), at, now) matches Ok(n)
            ==> n.links == t.links && n.git_diagnostics.len() == t.git_diagnostics.len() + 1
            && n.git_diagnostics.last().operation == operation
            && n.git_diagnostics.last().message == message,
{
}

/// A task that was reopened gets a branch of its own: each cycle has a branch
/// name that no earlier cycle had.
pub proof fn law_cycles_have_their_own_branches(
    c: ProjectConfigView,
    before: TaskView,
    after: TaskView,
    slug: Seq<char>,
)
    requires
        before.id == after.id,
        reopenings(before.history) < reopenings(after.history),
        branch_of(c, before, slug) is Some,
    ensures
        branch_of(c, after, slug) is Some,
        branch_of(c, after, slug)->0 != branch_of(c, before, slug)->0,
{
    let base = rendered(c.branch_template->0, c.name, before.id, slug);
    let n = reopenings(before.history);
    let m = reopenings(after.history);
    reveal_strlit("-cycle-");
    let long = base + "-cycle-"@ + text::numeral(m + 1);
    if n == 0 {
        assert(long.len() > base.len());
    } else {
        let short = base + "-cycle-"@ + text::numeral(n + 1);
        if long == short {
            assert(long.skip((base + "-cycle-"@).len() as int) =~= text::numeral(m + 1));
            assert(short.skip((base + "-cycle-"@).len() as int) =~= text::numeral(n + 1));
            text::lemma_numeral_value(m + 1);
            text::lemma_numeral_value(n + 1);
        }
    }
}

} // verus!
