//! Minimal Forgejo API client for git-flow PR automation: where requests go,
//! what they carry, and what replies mean.
//!
//! Configured through environment variables:
//! - `FORGEJO_TOKEN` (required to enable PR automation)
//! - `FORGEJO_URL` (required base URL of your Forgejo server)
use vstd::prelude::*;

use crate::error::Error;
use crate::json;
use crate::json::{read_json, read_shown, Json, JsonView, Member, MemberView};
use crate::text;
use crate::text::{
    cat, cat3, chars_of, is_blank, keep_nonempty, owned, split, strip_suffix, tail_after,
    tail_after_first, tail_after_last, trim_end_char, trimmed,
};

verus! {

/// A client for the Forgejo REST API (`/api/v1`).
#[derive(Debug)]
pub struct Forgejo {
    base_url: String,
    token: String,
}

/// The part of a repository URL after the host.
pub open spec fn repo_path(s: Seq<char>) -> Option<Seq<char>> {
    match text::after_text(s, "://"@) {
        Some(rest) => text::after_first(rest, '/'),
        None => text::after_last(s, ':'),
    }
}

/// The parts of a repository path, without a trailing `.git`.
pub open spec fn repo_parts(path: Seq<char>) -> Seq<Seq<char>> {
    let p = text::without_end(path, '/');
    let q = match text::before_suffix(p, ".git"@) {
        Some(x) => x,
        None => p,
    };
    text::nonempty(text::split_on(q, '/'))
}

/// The owner and the repository that a URL names.
pub open spec fn repo_of(git_repo: Seq<char>) -> Option<(Seq<char>, Seq<char>)> {
    match repo_path(text::trim(git_repo)) {
        Some(path) => {
            let parts = repo_parts(path);
            if parts.len() < 2 {
                None
            } else {
                Some((parts[parts.len() - 2], parts[parts.len() - 1]))
            }
        },
        None => None,
    }
}

impl Forgejo {
    /// The base URL of the server, without a slash at its end.
    pub closed spec fn base(self) -> Seq<char> {
        self.base_url@
    }

    /// The access token.
    pub closed spec fn secret(self) -> Seq<char> {
        self.token@
    }

    /// Builds a client from the values of `FORGEJO_TOKEN` and `FORGEJO_URL`, or
    /// nothing when configuration is missing.
    pub fn from_env(token: Option<String>, url: Option<String>) -> (r: Option<Forgejo>)
        ensures
            match r {
                Some(f) => !text::opt_blank(text::opt_text(token)) && !text::opt_blank(
                    text::opt_text(url),
                ) && f.secret() == token->0@ && f.base() == text::without_end(url->0@, '/'),
                None => text::opt_blank(text::opt_text(token)) || text::opt_blank(
                    text::opt_text(url),
                ),
            },
    {
        let token = match token {
            Some(t) => t,
            None => {
                return None;
            },
        };
        let url = match url {
            Some(u) => u,
            None => {
                return None;
            },
        };
        if is_blank(token.as_str()) || is_blank(url.as_str()) {
            return None;
        }
        Some(Forgejo { base_url: trim_end_char(url.as_str(), '/'), token })
    }

    /// Parses a git repo URL into `(owner, repo)`.
    ///
    /// Supports `ssh://user@host[:port]/owner/repo.git`, `git@host:owner/repo.git`
    /// (scp-like) and `http(s)://host/owner/repo.git`.
    pub fn parse_repo(git_repo: &str) -> (r: Option<(String, String)>)
        ensures
            match r {
                Some((owner, repo)) => repo_of(git_repo@) == Some((owner@, repo@)),
                None => repo_of(git_repo@) is None,
            },
    {
        let s = trimmed(git_repo);
        let path = match tail_after(s.as_str(), "://") {
            Some(rest) => tail_after_first(rest.as_str(), '/'),
            None => tail_after_last(s.as_str(), ':'),
        };
        let path = match path {
            Some(p) => p,
            None => {
                return None;
            },
        };
        let p = trim_end_char(path.as_str(), '/');
        let q = match strip_suffix(p.as_str(), ".git") {
            Some(x) => x,
            None => p,
        };
        let chars = chars_of(q.as_str());
        let all = split(&chars, '/');
        let parts = keep_nonempty(all);
        assert(parts.len() == repo_parts(path@).len());
        if parts.len() < 2 {
            return None;
        }
        let n = parts.len();
        assert(repo_parts(path@)[n - 2] == parts@[n - 2]@);
        assert(repo_parts(path@)[n - 1] == parts@[n - 1]@);
        Some((parts[n - 2].clone(), parts[n - 1].clone()))
    }

    /// The address of a repository.
    pub open spec fn repo_address(self, owner: Seq<char>, repo: Seq<char>) -> Seq<char> {
        self.base() + "/api/v1/repos/"@ + owner + "/"@ + repo
    }

    /// The address of a repository.
    pub fn repo_url(&self, owner: &str, repo: &str) -> (r: String)
        ensures
            r@ == self.repo_address(owner@, repo@),
    {
        let a = cat3(self.base_url.as_str(), "/api/v1/repos/", owner);
        cat3(a.as_str(), "/", repo)
    }

    /// The address to which new pull requests are sent.
    pub fn pulls_url(&self, owner: &str, repo: &str) -> (r: String)
        ensures
            r@ == self.repo_address(owner@, repo@) + "/pulls"@,
    {
        let a = self.repo_url(owner, repo);
        cat(a.as_str(), "/pulls")
    }

    /// The value of the `Authorization` header of every request.
    pub fn authorization(&self) -> (r: String)
        ensures
            r@ == "token "@ + self.secret(),
    {
        cat("token ", self.token.as_str())
    }

    /// The default branch of a repository, from the reply to the request for
    /// it (`"main"` where the reply names none). The error names the request.
    pub fn default_branch(&self, owner: &str, repo: &str, reply: Result<String, String>) -> (r:
        Result<String, Error>)
        ensures
            match (r, replied(reply)) {
                (Ok(b), Some(j)) => b@ == branch_named(j),
                (Err(e), None) => e@ == "GET "@ + self.repo_address(owner@, repo@),
                _ => false,
            },
    {
        if let Ok(body) = reply {
            if let Ok(j) = read_json(body.as_str()) {
                return Ok(named_branch(&j));
            }
        }
        let url = self.repo_url(owner, repo);
        Err(Error::new(cat("GET ", url.as_str())))
    }

    /// The body of a request that opens a pull request.
    pub fn pr_payload(head: &str, base: &str, title: &str, body: &str) -> (r: Json)
        ensures
            r@ == JsonView::Object(
                seq![
                    MemberView { name: "title"@, value: JsonView::Text(title@) },
                    MemberView { name: "head"@, value: JsonView::Text(head@) },
                    MemberView { name: "base"@, value: JsonView::Text(base@) },
                    MemberView { name: "body"@, value: JsonView::Text(body@) },
                ],
            ),
    {
        let mut list: Vec<Member> = Vec::new();
        list.push(Member { name: owned("title"), value: Json::Text(owned(title)) });
        list.push(Member { name: owned("head"), value: Json::Text(owned(head)) });
        list.push(Member { name: owned("base"), value: Json::Text(owned(base)) });
        list.push(Member { name: owned("body"), value: Json::Text(owned(body)) });
        proof {
            json::lemma_json_view(Json::Object(list));
            assert(json::members(list@) =~= seq![
                MemberView { name: "title"@, value: JsonView::Text(title@) },
                MemberView { name: "head"@, value: JsonView::Text(head@) },
                MemberView { name: "base"@, value: JsonView::Text(base@) },
                MemberView { name: "body"@, value: JsonView::Text(body@) },
            ]);
        }
        Json::Object(list)
    }

    /// The HTML URL of the pull request that was opened, from the reply to the
    /// request. The error names the request, or what is wrong with the reply.
    pub fn create_pr(&self, owner: &str, repo: &str, reply: Result<String, String>) -> (r: Result<
        String,
        Error,
    >)
        ensures
            match reply {
                Ok(body) => match (r, json::json_reads(body@)) {
                    (Ok(u), Ok(j)) => pr_address(j, json::json_shows(j)) == Ok::<
                        Seq<char>,
                        Seq<char>,
                    >(u@),
                    (Err(e), Ok(j)) => pr_address(j, json::json_shows(j)) == Err::<
                        Seq<char>,
                        Seq<char>,
                    >(e@),
                    (Err(e), Err(_)) => e@ == "parse PR response"@,
                    _ => false,
                },
                Err(_) => r matches Err(e) && e@ == "POST "@ + self.repo_address(owner@, repo@)
                    + "/pulls"@,
            },
    {
        match reply {
            Ok(body) => match read_shown(body.as_str()) {
                Ok((j, shown)) => pr_url(&j, shown.as_str()),
                Err(_) => Err(Error::fixed("parse PR response")),
            },
            Err(_) => {
                let url = self.pulls_url(owner, repo);
                let message = cat("POST ", url.as_str());
                assert(message@ =~= "POST "@ + self.repo_address(owner@, repo@) + "/pulls"@);
                Err(Error::new(message))
            },
        }
    }
}

/// The value of a reply that came, where it is JSON.
pub open spec fn replied(reply: Result<String, String>) -> Option<JsonView> {
    match reply {
        Ok(body) => match json::json_reads(body@) {
            Ok(j) => Some(j),
            Err(_) => None,
        },
        Err(_) => None,
    }
}

/// The default branch that a reply names.
pub open spec fn branch_named(j: JsonView) -> Seq<char> {
    match json::text_of(json::member_of(j, "default_branch"@)) {
        Some(b) => b,
        None => "main"@,
    }
}

/// The default branch that a reply names (`"main"` where it names none).
pub fn named_branch(j: &Json) -> (r: String)
    ensures
        r@ == branch_named(j@),
{
    match j.get("default_branch") {
        Some(v) => match v.as_text() {
            Some(b) => owned(b),
            None => owned("main"),
        },
        None => owned("main"),
    }
}

/// The address of the pull request that a reply, which reads as `shown`,
/// reports, or the message about a reply without one.
pub open spec fn pr_address(j: JsonView, shown: Seq<char>) -> Result<Seq<char>, Seq<char>> {
    match json::text_of(json::member_of(j, "html_url"@)) {
        Some(u) => if u.len() == 0 {
            Err("PR created but no html_url in response: "@ + shown)
        } else {
            Ok(u)
        },
        None => Err("PR created but no html_url in response: "@ + shown),
    }
}

/// The address of the pull request that a reply, which reads as `shown`,
/// reports.
pub fn pr_url(j: &Json, shown: &str) -> (r: Result<String, Error>)
    ensures
        match r {
            Ok(u) => pr_address(j@, shown@) == Ok::<Seq<char>, Seq<char>>(u@),
            Err(e) => pr_address(j@, shown@) == Err::<Seq<char>, Seq<char>>(e@),
        },
{
    let named = match j.get("html_url") {
        Some(v) => v.as_text(),
        None => None,
    };
    if let Some(u) = named {
        if chars_of(u).len() > 0 {
            return Ok(owned(u));
        }
    }
    Err(Error::new(cat("PR created but no html_url in response: ", shown)))
}

/// Whether `p` is the end of `s`.
spec fn is_tail(s: Seq<char>, p: Seq<char>) -> bool {
    p.len() <= s.len() && s.skip(s.len() - p.len()) == p
}

proof fn lemma_tail_of_skip(s: Seq<char>, k: int, p: Seq<char>)
    requires
        0 <= k <= s.len(),
        is_tail(s.skip(k), p),
    ensures
        is_tail(s, p),
{
    assert(s.skip(s.len() - p.len()) =~= s.skip(k).skip(s.skip(k).len() - p.len()));
}

proof fn lemma_after_first_tail(s: Seq<char>, c: char)
    ensures
        text::after_first(s, c) matches Some(p) ==> is_tail(s, p),
    decreases s.len(),
{
    if s.len() > 0 && s[0] != c {
        lemma_after_first_tail(s.skip(1), c);
        if let Some(p) = text::after_first(s, c) {
            lemma_tail_of_skip(s, 1, p);
        }
    }
}

proof fn lemma_after_last_tail(s: Seq<char>, c: char)
    ensures
        text::after_last(s, c) matches Some(p) ==> is_tail(s, p),
    decreases s.len(),
{
    if s.len() > 0 {
        if s.last() == c {
            assert(s.skip(s.len() as int) =~= Seq::<char>::empty());
        } else {
            lemma_after_last_tail(s.drop_last(), c);
            if let Some(t) = text::after_last(s.drop_last(), c) {
                let p = t.push(s.last());
                assert(s.skip(s.len() - p.len()) =~= s.drop_last().skip(
                    s.drop_last().len() - t.len(),
                ).push(s.last()));
            }
        }
    }
}

proof fn lemma_after_text_tail(s: Seq<char>, n: Seq<char>)
    ensures
        text::after_text(s, n) matches Some(p) ==> is_tail(s, p),
    decreases s.len(),
{
    if !text::begins(s, n) && s.len() > 0 {
        lemma_after_text_tail(s.skip(1), n);
        if let Some(p) = text::after_text(s, n) {
            lemma_tail_of_skip(s, 1, p);
        }
    }
}

/// The path of a URL is the end of it.
proof fn lemma_repo_path_tail(s: Seq<char>)
    ensures
        repo_path(s) matches Some(p) ==> is_tail(s, p),
{
    lemma_after_text_tail(s, "://"@);
    lemma_after_last_tail(s, ':');
    if let Some(rest) = text::after_text(s, "://"@) {
        lemma_after_first_tail(rest, '/');
        if let Some(p) = text::after_first(rest, '/') {
            lemma_tail_of_skip(s, s.len() - rest.len(), p);
        }
    }
}

/// Whether `t` is what may follow a repository: `.git` or a slash.
spec fn is_ending(t: Seq<char>) -> bool {
    t == ".git"@ || t == "/"@
}

proof fn lemma_ending(t: Seq<char>)
    requires
        is_ending(t),
    ensures
        t.len() > 0,
        forall|i: int| 0 <= i < t.len() ==> #[trigger] t[i] != ':',
        !text::is_space(t[0]) && !text::is_space(t.last()),
        t == ".git"@ ==> t =~= seq!['.', 'g', 'i', 't'],
        t == "/"@ ==> t =~= seq!['/'],
{
    reveal_strlit(".git");
    reveal_strlit("/");
}

proof fn lemma_no_scheme(t: Seq<char>)
    requires
        forall|i: int| 0 <= i < t.len() ==> #[trigger] t[i] != ':',
    ensures
        text::after_text(t, "://"@) is None,
    decreases t.len(),
{
    reveal_strlit("://");
    if text::begins(t, "://"@) {
        assert(t.subrange(0, 3)[0] == t[0]);
        assert("://"@[0] == ':');
    } else if t.len() > 0 {
        assert forall|i: int| 0 <= i < t.skip(1).len() implies #[trigger] t.skip(1)[i] != ':' by {
            assert(t[i + 1] != ':');
        }
        lemma_no_scheme(t.skip(1));
    }
}

proof fn lemma_scheme_extends(s: Seq<char>, t: Seq<char>)
    requires
        is_ending(t),
        s.len() > 0 ==> s.last() != '/',
    ensures
        text::after_text(s + t, "://"@) == (match text::after_text(s, "://"@) {
            Some(r) => Some(r + t),
            None => None,
        }),
    decreases s.len(),
{
    lemma_ending(t);
    reveal_strlit("://");
    let n = "://"@;
    let all = s + t;
    if s.len() == 0 {
        assert(all =~= t);
        lemma_no_scheme(t);
        lemma_no_scheme(s);
    } else {
        if s.len() >= 3 {
            assert(all.subrange(0, 3) =~= s.subrange(0, 3));
        }
        assert(text::begins(all, n) ==> text::begins(s, n)) by {
            if text::begins(all, n) && s.len() < 3 {
                let head = all.subrange(0, 3);
                assert(head[0] == all[0] && head[1] == all[1] && head[2] == all[2]);
                assert(n[0] == ':' && n[1] == '/' && n[2] == '/');
                if s.len() == 2 {
                    assert(all[1] == s[1]);
                } else {
                    assert(all[1] == t[0]);
                    assert(all[2] == t[1]);
                }
            }
        }
        if text::begins(s, n) {
            assert(all.skip(3) =~= s.skip(3) + t);
        } else {
            assert(all.skip(1) =~= s.skip(1) + t);
            if s.len() > 1 {
                assert(s.skip(1).last() == s.last());
            }
            lemma_scheme_extends(s.skip(1), t);
        }
    }
}

proof fn lemma_after_last_extends(s: Seq<char>, t: Seq<char>)
    requires
        forall|i: int| 0 <= i < t.len() ==> #[trigger] t[i] != ':',
    ensures
        text::after_last(s + t, ':') == (match text::after_last(s, ':') {
            Some(p) => Some(p + t),
            None => None,
        }),
    decreases t.len(),
{
    if t.len() == 0 {
        assert(s + t =~= s);
        if let Some(p) = text::after_last(s, ':') {
            assert(p + t =~= p);
        }
    } else {
        let front = t.drop_last();
        assert forall|i: int| 0 <= i < front.len() implies #[trigger] front[i] != ':' by {
            assert(t[i] != ':');
        }
        lemma_after_last_extends(s, front);
        assert((s + t).drop_last() =~= s + front);
        assert((s + t).last() == t[t.len() - 1]);
        if let Some(p) = text::after_last(s, ':') {
            assert((p + front).push(t.last()) =~= p + t);
        }
    }
}

proof fn lemma_after_first_extends(r: Seq<char>, t: Seq<char>)
    ensures
        text::after_first(r + t, '/') == (match text::after_first(r, '/') {
            Some(p) => Some(p + t),
            None => text::after_first(t, '/'),
        }),
    decreases r.len(),
{
    if r.len() == 0 {
        assert(r + t =~= t);
    } else {
        assert((r + t).skip(1) =~= r.skip(1) + t);
        lemma_after_first_extends(r.skip(1), t);
    }
}

proof fn lemma_trim_start_keeps(x: Seq<char>, t: Seq<char>)
    requires
        x.len() > 0 ==> !text::is_space(x.last()),
        t.len() > 0 && !text::is_space(t[0]),
    ensures
        text::trim_start(x + t) == text::trim_start(x) + t,
        is_tail(x, text::trim_start(x)),
        x.len() > 0 ==> text::trim_start(x).len() > 0,
    decreases x.len(),
{
    if x.len() == 0 {
        assert(x + t =~= t);
        assert(x.skip(0) =~= x);
    } else if text::is_space(x[0]) {
        assert((x + t).skip(1) =~= x.skip(1) + t);
        assert(x.len() > 1);
        assert(x.skip(1).last() == x.last());
        lemma_trim_start_keeps(x.skip(1), t);
        lemma_tail_of_skip(x, 1, text::trim_start(x));
    } else {
        assert(x.skip(0) =~= x);
    }
}

/// A path with an ending has the parts of the path.
proof fn lemma_parts_extend(p: Seq<char>, t: Seq<char>)
    requires
        is_ending(t),
        p.len() > 0 ==> p.last() != '/',
        !text::ends(p, ".git"@),
    ensures
        repo_parts(p + t) == repo_parts(p),
{
    lemma_ending(t);
    let all = p + t;
    assert(text::without_end(p, '/') == p);
    if t == "/"@ {
        assert(all.drop_last() =~= p);
        assert(text::without_end(all, '/') == text::without_end(all.drop_last(), '/'));
    } else {
        assert(all.last() == 't');
        assert(text::without_end(all, '/') == all);
        assert(all.subrange(all.len() - 4, all.len() as int) =~= t);
        assert(text::ends(all, ".git"@));
        assert(all.take(all.len() - 4) =~= p);
    }
}

/// A trailing `.git` or slash changes nothing of what a URL names.
pub proof fn law_repo_ending_is_ignored(x: Seq<char>)
    requires
        x.len() > 0 ==> !text::is_space(x.last()) && x.last() != '/',
        !text::ends(x, ".git"@),
    ensures
        repo_of(x + ".git"@) == repo_of(x),
        repo_of(x + "/"@) == repo_of(x),
{
    lemma_ending_is_ignored(x, ".git"@);
    lemma_ending_is_ignored(x, "/"@);
}

proof fn lemma_ending_is_ignored(x: Seq<char>, t: Seq<char>)
    requires
        is_ending(t),
        x.len() > 0 ==> !text::is_space(x.last()) && x.last() != '/',
        !text::ends(x, ".git"@),
    ensures
        repo_of(x + t) == repo_of(x),
{
    lemma_ending(t);
    lemma_trim_start_keeps(x, t);
    let s = text::trim_start(x);
    if s.len() > 0 {
        assert(s.last() == x.last());
    }
    assert((s + t).last() == t.last());
    assert(text::trim(x + t) == s + t);
    assert(text::trim(x) == s);
    lemma_scheme_extends(s, t);
    lemma_after_last_extends(s, t);
    lemma_repo_path_tail(s);
    reveal_strlit(".git");
    match repo_path(s) {
        Some(p) => {
            if let Some(rest) = text::after_text(s, "://"@) {
                lemma_after_first_extends(rest, t);
            }
            assert(repo_path(s + t) == Some(p + t));
            if p.len() > 0 {
                assert(p.last() == s.last());
            }
            if text::ends(p, ".git"@) {
                assert(x.subrange(x.len() - 4, x.len() as int) =~= p.subrange(
                    p.len() - 4,
                    p.len() as int,
                ));
                assert(text::ends(x, ".git"@));
            }
            lemma_parts_extend(p, t);
        },
        None => {
            if let Some(rest) = text::after_text(s, "://"@) {
                lemma_after_first_extends(rest, t);
                lemma_ending_alone(t);
            }
        },
    }
}

/// What follows the first slash of an ending, if anything, has no parts.
proof fn lemma_ending_alone(t: Seq<char>)
    requires
        is_ending(t),
    ensures
        text::after_first(t, '/') matches Some(p) ==> repo_parts(p).len() < 2,
{
    lemma_ending(t);
    reveal_with_fuel(text::after_first, 6);
    if t == "/"@ {
        let p = t.skip(1);
        assert(p =~= Seq::<char>::empty());
        reveal_strlit(".git");
        assert(text::without_end(p, '/') == p);
        assert(!text::ends(p, ".git"@));
        let all = text::split_on(p, '/');
        assert(all.len() == 1);
        text::lemma_filter_len(all, |q: Seq<char>| q.len() > 0);
    } else {
        assert(t.skip(1) =~= seq!['g', 'i', 't']);
        assert(t.skip(1).skip(1) =~= seq!['i', 't']);
        assert(t.skip(1).skip(1).skip(1) =~= seq!['t']);
        assert(t.skip(1).skip(1).skip(1).skip(1) =~= Seq::<char>::empty());
    }
}

/// The owner and the repository that a URL names are not empty and hold no
/// slash.
pub proof fn law_repo_names_are_parts(x: Seq<char>)
    ensures
        repo_of(x) matches Some((owner, repo)) ==> owner.len() > 0 && repo.len() > 0
            && !owner.contains('/') && !repo.contains('/'),
{
    if let Some(path) = repo_path(text::trim(x)) {
        let parts = repo_parts(path);
        if parts.len() >= 2 {
            let p = text::without_end(path, '/');
            let q = match text::before_suffix(p, ".git"@) {
                Some(y) => y,
                None => p,
            };
            let all = text::split_on(q, '/');
            let n = parts.len() as int;
            text::lemma_filter_keeps(all, |s: Seq<char>| s.len() > 0, n - 2);
            text::lemma_filter_keeps(all, |s: Seq<char>| s.len() > 0, n - 1);
            let a = choose|a: int| 0 <= a < all.len() && all[a] == parts[n - 2];
            let b = choose|b: int| 0 <= b < all.len() && all[b] == parts[n - 1];
            text::lemma_piece_is_free(q, '/', a);
            text::lemma_piece_is_free(q, '/', b);
        }
    }
}

/// A text without a colon names no repository.
pub proof fn law_repo_needs_a_host(x: Seq<char>)
    requires
        !x.contains(':'),
    ensures
        repo_of(x) is None,
{
    let s = text::trim(x);
    assert forall|i: int| 0 <= i < s.len() implies #[trigger] s[i] != ':' by {
        text::lemma_trim_members(x, i);
        let k = choose|k: int| 0 <= k < x.len() && x[k] == s[i];
        assert(x.contains(x[k]));
    }
    lemma_no_scheme(s);
    lemma_no_colon(s);
}

proof fn lemma_no_colon(s: Seq<char>)
    requires
        forall|i: int| 0 <= i < s.len() ==> #[trigger] s[i] != ':',
    ensures
        text::after_last(s, ':') is None,
    decreases s.len(),
{
    if s.len() > 0 {
        assert(s[s.len() - 1] != ':');
        assert forall|i: int| 0 <= i < s.drop_last().len() implies #[trigger] s.drop_last()[i]
            != ':' by {
            assert(s[i] != ':');
        }
        lemma_no_colon(s.drop_last());
    }
}

} // verus!
