//! Names: the words for statuses, actions, priorities and kinds, the slugs of titles,
//! and the owners and names of repositories.
use vstd::prelude::*;

use crate::forgejo;
use crate::gitflow;
use crate::laws::texts;
use crate::model;
use crate::model::{KnowledgeKind, Priority, TaskAction, TaskStatus};
use crate::order;
use crate::text;

verus! {

/// A status has one name, and no other text names it.
pub proof fn law_statuses_are_named(s: Seq<char>)
    ensures
        model::status_of(s) == Some(TaskStatus::Open) <==> s == "open"@,
        model::status_of(s) == Some(TaskStatus::Started) <==> s == "started"@,
        model::status_of(s) == Some(TaskStatus::Review) <==> s == "review"@,
        model::status_of(s) == Some(TaskStatus::Closed) <==> s == "closed"@,
        model::status_of(s) == Some(TaskStatus::Cancelled) <==> s == "cancelled"@,
        model::status_name(TaskStatus::Open) == "open"@,
        model::status_name(TaskStatus::Started) == "started"@,
        model::status_name(TaskStatus::Review) == "review"@,
        model::status_name(TaskStatus::Closed) == "closed"@,
        model::status_name(TaskStatus::Cancelled) == "cancelled"@,
{
    reveal_strlit("open");
    reveal_strlit("started");
    reveal_strlit("review");
    reveal_strlit("closed");
    reveal_strlit("cancelled");
    assert("open"@.len() == 4 && "started"@.len() == 7 && "review"@.len() == 6 && "closed"@.len()
        == 6 && "cancelled"@.len() == 9);
    assert("review"@[0] == 'r' && "closed"@[0] == 'c');
}

/// An action has one name, and no other text names it.
pub proof fn law_actions_are_named(s: Seq<char>)
    ensures
        model::action_of(s) == Some(TaskAction::Start) <==> s == "start"@,
        model::action_of(s) == Some(TaskAction::Review) <==> s == "review"@,
        model::action_of(s) == Some(TaskAction::Done) <==> s == "done"@,
        model::action_of(s) == Some(TaskAction::Rewind) <==> s == "rewind"@,
        model::action_of(s) == Some(TaskAction::Cancel) <==> s == "cancel"@,
        model::action_of(s) == Some(TaskAction::Reopen) <==> s == "reopen"@,
        model::action_of(s) == Some(TaskAction::Block) <==> s == "block"@,
        model::action_of(s) == Some(TaskAction::Unblock) <==> s == "unblock"@,
{
    reveal_strlit("start");
    reveal_strlit("review");
    reveal_strlit("done");
    reveal_strlit("rewind");
    reveal_strlit("cancel");
    reveal_strlit("reopen");
    reveal_strlit("block");
    reveal_strlit("unblock");
    assert("start"@.len() == 5 && "review"@.len() == 6 && "done"@.len() == 4 && "rewind"@.len() == 6
        && "cancel"@.len() == 6 && "reopen"@.len() == 6 && "block"@.len() == 5 && "unblock"@.len()
        == 7);
    assert("start"@[0] == 's' && "block"@[0] == 'b' && "review"@[2] == 'v' && "rewind"@[2] == 'w'
        && "cancel"@[2] == 'n' && "reopen"@[2] == 'o');
}

/// A kind of knowledge is named by one word, in the singular or the plural where it
/// has one, white space around it aside; and it has one name and one file.
pub proof fn law_kinds_are_named(s: Seq<char>)
    ensures
        model::kind_of(s) == Some(KnowledgeKind::Decision) <==> text::trim(s) == "decision"@
            || text::trim(s) == "decisions"@,
        model::kind_of(s) == Some(KnowledgeKind::Status) <==> text::trim(s) == "status"@,
        model::kind_of(s) == Some(KnowledgeKind::Note) <==> text::trim(s) == "note"@ || text::trim(s)
            == "notes"@,
        model::kind_name(KnowledgeKind::Decision) == "decision"@,
        model::kind_name(KnowledgeKind::Status) == "status"@,
        model::kind_name(KnowledgeKind::Note) == "note"@,
        model::kind_file(KnowledgeKind::Decision) == "decisions.toml"@,
        model::kind_file(KnowledgeKind::Status) == "status.toml"@,
        model::kind_file(KnowledgeKind::Note) == "notes.toml"@,
{
    reveal_strlit("decision");
    reveal_strlit("decisions");
    reveal_strlit("status");
    reveal_strlit("note");
    reveal_strlit("notes");
    assert("decision"@.len() == 8 && "decisions"@.len() == 9 && "status"@.len() == 6 && "note"@.len()
        == 4 && "notes"@.len() == 5);
}

/// A priority is shown by its word.
pub proof fn law_priorities_are_shown()
    ensures
        model::priority_name(Priority::Highest) == "highest"@,
        model::priority_name(Priority::High) == "high"@,
        model::priority_name(Priority::Medium) == "medium"@,
        model::priority_name(Priority::Low) == "low"@,
        model::priority_name(Priority::Lowest) == "lowest"@,
{
}

/// Whether a character is a letter or a digit of ASCII.
pub open spec fn in_slug(c: char) -> bool {
    'a' <= c <= 'z' || 'A' <= c <= 'Z' || '0' <= c <= '9'
}

proof fn lemma_filter_two(
    a: Seq<Seq<char>>,
    b: Seq<Seq<char>>,
    keep: spec_fn(Seq<char>) -> bool,
)
    ensures
        (a + b).filter(keep) == a.filter(keep) + b.filter(keep),
    decreases b.len(),
{
    reveal(Seq::filter);
    if b.len() == 0 {
        assert(a + b =~= a);
        assert(a.filter(keep) + b.filter(keep) =~= a.filter(keep));
    } else {
        lemma_filter_two(a, b.drop_last(), keep);
        assert((a + b).drop_last() =~= a + b.drop_last());
        assert((a + b).last() == b.last());
        assert((a + b).filter(keep) =~= a.filter(keep) + b.filter(keep));
    }
}

/// A slug is the letters and digits of a text, in order: what stands around any
/// other character becomes two slugs with a dash between them, where both are there;
/// a text of letters and digits alone is its own slug.
pub proof fn law_slug_of_a_text(a: Seq<char>, c: char, b: Seq<char>)
    ensures
        (forall|i: int| 0 <= i < a.len() ==> in_slug(#[trigger] a[i])) ==> gitflow::slug(a) == a,
        !in_slug(c) ==> gitflow::slug(a + seq![c] + b) == if gitflow::slug(a).len() == 0 {
            gitflow::slug(b)
        } else if gitflow::slug(b).len() == 0 {
            gitflow::slug(a)
        } else {
            gitflow::slug(a) + seq!['-'] + gitflow::slug(b)
        },
{
    let gap = gitflow::slug_gap();
    let keep = |p: Seq<char>| p.len() > 0;
    let none = Seq::<Seq<char>>::empty();
    texts::law_splitting(a, c, b, gap);
    reveal_strlit("-");
    assert("-"@ =~= seq!['-']);
    if forall|i: int| 0 <= i < a.len() ==> in_slug(#[trigger] a[i]) {
        assert forall|i: int| 0 <= i < a.len() implies !gap(#[trigger] a[i]) by {
            assert(in_slug(a[i]));
        }
        reveal(Seq::filter);
        assert(seq![a].drop_last() =~= none);
        assert(none.filter(keep) =~= none);
        if a.len() > 0 {
            assert(seq![a].filter(keep) =~= seq![a]);
            texts::law_joining(none, none, a, "-"@);
        } else {
            assert(seq![a].filter(keep) =~= none);
            texts::law_joining(none, none, a, "-"@);
            assert(a =~= Seq::empty());
        }
    }
    if !in_slug(c) {
        let x = text::pieces(a, gap).filter(keep);
        let y = text::pieces(b, gap).filter(keep);
        assert(gap(c));
        lemma_filter_two(text::pieces(a, gap), text::pieces(b, gap), keep);
        texts::law_joining(x, y, a, "-"@);
        lemma_joined_empty(text::pieces(a, gap));
        lemma_joined_empty(text::pieces(b, gap));
        if x.len() == 0 {
            assert(x + y =~= y);
        }
        if y.len() == 0 {
            assert(x + y =~= x);
        }
    }
}

proof fn lemma_joined_empty(list: Seq<Seq<char>>)
    ensures
        text::joined(text::nonempty(list), "-"@).len() == 0 <==> text::nonempty(list).len() == 0,
{
    let keep = |p: Seq<char>| p.len() > 0;
    let x = text::nonempty(list);
    reveal_strlit("-");
    if x.len() > 0 {
        text::lemma_filter_keeps(list, keep, 0);
        list.lemma_filter_pred(keep, 0);
    }
}

proof fn lemma_tight(s: Seq<char>)
    requires
        s.len() > 0,
        !text::is_space(s[0]),
        !text::is_space(s.last()),
    ensures
        text::trim(s) == s,
{
}

proof fn lemma_after_scheme(scheme: Seq<char>, rest: Seq<char>)
    requires
        !scheme.contains(':'),
    ensures
        text::after_text(scheme + "://"@ + rest, "://"@) == Some(rest),
    decreases scheme.len(),
{
    let s = scheme + "://"@ + rest;
    reveal_strlit("://");
    text::law_begins(s, "://"@);
    if scheme.len() == 0 {
        assert(s.subrange(0, 3) =~= "://"@);
        assert("://"@.is_prefix_of(s));
        assert(s.skip(3) =~= rest);
    } else {
        let t = scheme.skip(1);
        if t.contains(':') {
            let i = choose|i: int| 0 <= i < t.len() && t[i] == ':';
            assert(scheme[i + 1] == ':');
        }
        assert(scheme.contains(scheme[0]));
        if "://"@.is_prefix_of(s) {
            assert(s.subrange(0, 3)[0] == s[0]);
            assert("://"@[0] == ':');
        }
        assert(s.skip(1) =~= t + "://"@ + rest);
        lemma_after_scheme(t, rest);
    }
}

proof fn lemma_after_host(host: Seq<char>, rest: Seq<char>)
    requires
        !host.contains('/'),
    ensures
        text::after_first(host + seq!['/'] + rest, '/') == Some(rest),
    decreases host.len(),
{
    let s = host + seq!['/'] + rest;
    if host.len() == 0 {
        assert(s.skip(1) =~= rest);
    } else {
        let t = host.skip(1);
        if t.contains('/') {
            let i = choose|i: int| 0 <= i < t.len() && t[i] == '/';
            assert(host[i + 1] == '/');
        }
        assert(host.contains(host[0]));
        assert(s.skip(1) =~= t + seq!['/'] + rest);
        lemma_after_host(t, rest);
    }
}

proof fn lemma_after_colon(a: Seq<char>, rest: Seq<char>)
    requires
        !rest.contains(':'),
    ensures
        text::after_last(a + seq![':'] + rest, ':') == Some(rest),
    decreases rest.len(),
{
    let s = a + seq![':'] + rest;
    if rest.len() == 0 {
        assert(s.last() == ':');
        assert(rest =~= Seq::empty());
    } else {
        let t = rest.drop_last();
        if t.contains(':') {
            let i = choose|i: int| 0 <= i < t.len() && t[i] == ':';
            assert(rest[i] == ':');
        }
        assert(rest.contains(rest.last()));
        assert(s.drop_last() =~= a + seq![':'] + t);
        lemma_after_colon(a, t);
        assert(t.push(rest.last()) =~= rest);
    }
}

proof fn lemma_no_address(s: Seq<char>)
    requires
        forall|i: int| 0 <= i < s.len() - 1 && #[trigger] s[i] == ':' ==> s[i + 1] != '/',
    ensures
        text::after_text(s, "://"@) is None,
    decreases s.len(),
{
    reveal_strlit("://");
    text::law_begins(s, "://"@);
    if "://"@.is_prefix_of(s) {
        assert(s.subrange(0, 3)[0] == s[0]);
        assert(s.subrange(0, 3)[1] == s[1]);
        assert("://"@[0] == ':' && "://"@[1] == '/');
    }
    if s.len() > 0 {
        let t = s.skip(1);
        assert forall|i: int| 0 <= i < t.len() - 1 && #[trigger] t[i] == ':' implies t[i + 1]
            != '/' by {
            assert(t[i] == s[i + 1]);
        }
        lemma_no_address(t);
    }
}

proof fn lemma_parts(owner: Seq<char>, repo: Seq<char>)
    requires
        owner.len() > 0,
        repo.len() > 0,
        !owner.contains('/'),
        !repo.contains('/'),
        !".git"@.is_suffix_of(repo),
    ensures
        forgejo::repo_parts(owner + seq!['/'] + repo) == seq![owner, repo],
{
    let path = owner + seq!['/'] + repo;
    let none = Seq::<Seq<char>>::empty();
    let keep = |p: Seq<char>| p.len() > 0;
    assert(repo.contains(repo.last()));
    assert(path.last() == repo.last());
    assert(text::without_end(path, '/') == path);
    text::law_ends(path, ".git"@);
    reveal_strlit(".git");
    if ".git"@.is_suffix_of(path) {
        let n = path.len() as int;
        assert(path.subrange(n - 4, n) == ".git"@);
        if repo.len() >= 4 {
            assert(repo.subrange(repo.len() - 4, repo.len() as int) =~= path.subrange(n - 4, n));
        } else {
            let at = n - repo.len() - 1;
            assert(path[at] == '/');
            assert(path.subrange(n - 4, n)[at - (n - 4)] == path[at]);
        }
    }
    texts::law_splitting_on(owner, '/', repo);
    texts::law_splitting_on(repo, '/', Seq::empty());
    assert(text::split_on(path, '/') =~= seq![owner] + seq![repo]);
    reveal(Seq::filter);
    let two = seq![owner] + seq![repo];
    assert(two.drop_last() =~= seq![owner]);
    assert(seq![owner].drop_last() =~= none);
    assert(none.filter(keep) =~= none);
    assert(seq![owner].filter(keep) =~= seq![owner]);
    assert(two.filter(keep) =~= seq![owner, repo]);
}

/// The address of a repository names its owner and the repository, behind the host:
/// `scheme://host/owner/repo`.
pub proof fn law_repository_of_an_address(
    scheme: Seq<char>,
    host: Seq<char>,
    owner: Seq<char>,
    repo: Seq<char>,
)
    requires
        scheme.len() > 0,
        !text::is_space(scheme[0]),
        !scheme.contains(':'),
        !host.contains('/'),
        owner.len() > 0,
        !owner.contains('/'),
        repo.len() > 0,
        !repo.contains('/'),
        !text::is_space(repo.last()),
        !".git"@.is_suffix_of(repo),
    ensures
        forgejo::repo_of(scheme + "://"@ + (host + seq!['/'] + (owner + seq!['/'] + repo))) == Some(
            (owner, repo),
        ),
{
    let path = owner + seq!['/'] + repo;
    let rest = host + seq!['/'] + path;
    let s = scheme + "://"@ + rest;
    assert(s[0] == scheme[0]);
    assert(s.last() == repo.last());
    lemma_tight(s);
    lemma_after_scheme(scheme, rest);
    lemma_after_host(host, path);
    lemma_parts(owner, repo);
}

/// So does the short form `user@host:owner/repo`.
pub proof fn law_repository_of_a_short_address(
    host: Seq<char>,
    owner: Seq<char>,
    repo: Seq<char>,
)
    requires
        host.len() > 0,
        !text::is_space(host[0]),
        !host.contains(':'),
        owner.len() > 0,
        !owner.contains('/'),
        !owner.contains(':'),
        repo.len() > 0,
        !repo.contains('/'),
        !repo.contains(':'),
        !text::is_space(repo.last()),
        !".git"@.is_suffix_of(repo),
    ensures
        forgejo::repo_of(host + seq![':'] + (owner + seq!['/'] + repo)) == Some((owner, repo)),
{
    let path = owner + seq!['/'] + repo;
    let s = host + seq![':'] + path;
    assert(s[0] == host[0]);
    assert(s.last() == repo.last());
    lemma_tight(s);
    if path.contains(':') {
        let i = choose|i: int| 0 <= i < path.len() && path[i] == ':';
        if i < owner.len() {
            assert(owner[i] == ':');
        } else if i > owner.len() {
            assert(repo[i - owner.len() - 1] == ':');
        }
    }
    lemma_after_colon(host, path);
    assert forall|i: int| 0 <= i < s.len() - 1 && #[trigger] s[i] == ':' implies s[i + 1]
        != '/' by {
        if i < host.len() {
            assert(host[i] == ':');
        } else if i == host.len() {
            assert(s[i + 1] == owner[0]);
            assert(owner.contains(owner[0]));
        } else {
            assert(path[i - host.len() - 1] == ':');
            assert(path.contains(':'));
        }
    }
    lemma_no_address(s);
    lemma_parts(owner, repo);
}

/// A text goes before another exactly when it is a proper beginning of it, or has the
/// smaller character where the two first differ.
pub proof fn law_order_of_texts(p: Seq<char>, a: Seq<char>, b: Seq<char>, x: char, y: char)
    ensures
        order::text_less(p, p + b) <==> b.len() > 0,
        !order::text_less(p + b, p),
        x != y ==> (order::text_less(p + seq![x] + a, p + seq![y] + b) <==> (x as int) < (y as int)),
    decreases p.len(),
{
    let s = p + seq![x] + a;
    let t = p + seq![y] + b;
    if p.len() == 0 {
        assert(s[0] == x && t[0] == y);
    } else {
        let q = p.skip(1);
        assert(s.skip(1) =~= q + seq![x] + a);
        assert(t.skip(1) =~= q + seq![y] + b);
        assert((p + b).skip(1) =~= q + b);
        law_order_of_texts(q, a, b, x, y);
    }
}

} // verus!
