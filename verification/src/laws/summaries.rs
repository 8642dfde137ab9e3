//! Summaries: the facts about freshness, the current status in words, what the doctor
//! and an action say, and pull requests.
use vstd::prelude::*;

use crate::cli;
use crate::diag;
use crate::diag::{FindingView, Severity};
use crate::gitflow;
use crate::json;
use crate::json::JsonView;
use crate::knowledge;
use crate::knowledge::{CurrentStatusView, FreshnessView};
use crate::laws::commands::{has_member, text_value};
use crate::laws::display::{lemma_either, lemma_itself, lemma_joined, lemma_lined, lemma_named_in};
use crate::laws::entries::commit_differs;
use crate::laws::search::holds_text;
use crate::model;
use crate::model::{GitDiagnosticView, TaskView};
use crate::project::GitIntegration;
use crate::text;

verus! {

/// Whether some text of a list holds another.
pub open spec fn some_holds(list: Seq<Seq<char>>, p: Seq<char>) -> bool {
    exists|i: int| 0 <= i < list.len() && holds_text(#[trigger] list[i], p)
}

proof fn lemma_one_more(list: Seq<Seq<char>>, x: Seq<char>, p: Seq<char>)
    ensures
        some_holds(list, p) || holds_text(x, p) ==> some_holds(list.push(x), p),
{
    let all = list.push(x);
    if some_holds(list, p) {
        let i = choose|i: int| 0 <= i < list.len() && holds_text(#[trigger] list[i], p);
        assert(holds_text(all[i], p));
    }
    if holds_text(x, p) {
        assert(holds_text(all[list.len() as int], p));
    }
}

/// There is one fact about tasks that changed, which names each of them; one about
/// entries, which names each of them; one about a commit that is not HEAD, which names
/// both; and one about a recorded commit without a repository. Each is there exactly
/// when it is so.
pub proof fn law_facts(
    tasks: Seq<i64>,
    kb: Seq<Seq<char>>,
    recorded: Option<Seq<char>>,
    head: Option<Seq<char>>,
    k: int,
)
    ensures
        ({
            let f = knowledge::facts(tasks, kb, recorded, head);
            let differs = commit_differs(recorded, head);
            let lost = recorded is Some && head is None;
            &&& f.len() == (if tasks.len() > 0 {
                1int
            } else {
                0
            }) + (if kb.len() > 0 {
                1int
            } else {
                0
            }) + (if differs {
                1int
            } else {
                0
            }) + (if lost {
                1int
            } else {
                0
            })
            &&& 0 <= k < tasks.len() ==> some_holds(f, "#"@ + text::decimal(tasks[k] as int))
            &&& 0 <= k < kb.len() ==> some_holds(f, kb[k])
            &&& differs ==> some_holds(f, recorded->0) && some_holds(f, head->0)
        }),
{
    let none = Seq::<Seq<char>>::empty();
    if recorded is Some && head is Some {
        text::law_begins(head->0, recorded->0);
        text::law_begins(recorded->0, head->0);
    }
    let h1 = text::decimal(tasks.len() as int) + " task(s) updated after this summary: "@;
    let j1 = text::joined(diag::hashed(tasks), ", "@);
    let x1 = h1 + j1;
    let a1 = if tasks.len() > 0 {
        none.push(x1)
    } else {
        none
    };
    let h2 = text::decimal(kb.len() as int) + " KB entry/entries updated after this summary: "@;
    let j2 = text::joined(kb, ", "@);
    let x2 = h2 + j2;
    let a2 = if kb.len() > 0 {
        a1.push(x2)
    } else {
        a1
    };
    let differs = knowledge::commit_match(recorded, head) == Some(false);
    let x3 = "summary records commit "@ + recorded->0 + " but local HEAD is "@ + head->0;
    let a3 = if differs {
        a2.push(x3)
    } else {
        a2
    };
    let x4 = "summary records a commit but no local git repo/HEAD is available"@;
    if 0 <= k < tasks.len() {
        let p = "#"@ + text::decimal(tasks[k] as int);
        let items = diag::hashed(tasks);
        assert(items[k] == p);
        lemma_itself(p);
        lemma_joined(items, ", "@, k, p);
        lemma_either(h1, j1, p);
        lemma_one_more(none, x1, p);
        lemma_one_more(a1, x2, p);
        lemma_one_more(a2, x3, p);
        lemma_one_more(a3, x4, p);
    }
    if 0 <= k < kb.len() {
        let p = kb[k];
        lemma_itself(p);
        lemma_joined(kb, ", "@, k, p);
        lemma_either(h2, j2, p);
        lemma_one_more(a1, x2, p);
        lemma_one_more(a2, x3, p);
        lemma_one_more(a3, x4, p);
    }
    if differs {
        let r = recorded->0;
        let h = head->0;
        lemma_itself(r);
        lemma_either("summary records commit "@, r, r);
        lemma_either("summary records commit "@ + r, " but local HEAD is "@, r);
        lemma_either("summary records commit "@ + r + " but local HEAD is "@, h, r);
        lemma_itself(h);
        lemma_either("summary records commit "@ + r + " but local HEAD is "@, h, h);
        lemma_one_more(a2, x3, r);
        lemma_one_more(a3, x4, r);
        lemma_one_more(a2, x3, h);
        lemma_one_more(a3, x4, h);
    }
}

/// The current status in words says whether it is designated, shows its entry, who
/// designated it and when, and each fact that makes it possibly stale.
pub proof fn law_status_in_words(s: CurrentStatusView, f: FreshnessView, k: int)
    ensures
        ({
            let t = cli::status_lines(Some((s, f)));
            &&& holds_text(t, cli::entry_lines(s.entry))
            &&& s.designated ==> holds_text(t, "== current summary (designated) ==\n"@)
            &&& s.designation matches Some(d) ==> holds_text(
                t,
                "designated by "@ + d.set_by + " at "@ + d.set_at + "\n"@,
            )
            &&& s.designation matches Some(d) ==> (d.commit matches Some(c) ==> holds_text(
                t,
                "recorded commit: "@ + c,
            ))
            &&& f.possibly_stale && 0 <= k < f.facts.len() ==> holds_text(
                t,
                "  - "@ + f.facts[k] + "\n"@,
            )
            &&& !f.possibly_stale ==> holds_text(
                t,
                "freshness: no task/KB updates postdate this summary"@,
            )
            &&& cli::status_lines(None) == "no status recorded\n"@
        }),
{
    let a = if s.designated {
        "== current summary (designated) ==\n"@
    } else {
        "== "@ + knowledge::FALLBACK_NOTE@ + " ==\n"@
    };
    let b = cli::entry_lines(s.entry);
    let c = cli::designation_lines(s.designation);
    let d = cli::freshness_lines(f);
    lemma_itself(a);
    lemma_four(a, b, c, d, a);
    lemma_itself(b);
    lemma_four(a, b, c, d, b);
    if let Some(x) = s.designation {
        let p = "designated by "@ + x.set_by + " at "@ + x.set_at + "\n"@;
        let n = text::named("recorded commit: "@, x.commit);
        lemma_itself(p);
        lemma_either(p, n, p);
        lemma_four(a, b, c, d, p);
        if let Some(y) = x.commit {
            lemma_named_in("recorded commit: "@, x.commit);
            lemma_either(p, n, "recorded commit: "@ + y);
            lemma_four(a, b, c, d, "recorded commit: "@ + y);
        }
    }
    if f.possibly_stale && 0 <= k < f.facts.len() {
        let p = "  - "@ + f.facts[k] + "\n"@;
        lemma_lined("  - "@, f.facts, k);
        lemma_either(
            "\nfreshness (facts, not a verdict on the prose):\n"@,
            text::lined("  - "@, f.facts),
            p,
        );
        lemma_four(a, b, c, d, p);
    }
    if !f.possibly_stale {
        let p = "freshness: no task/KB updates postdate this summary"@;
        reveal_strlit("freshness: no task/KB updates postdate this summary");
        reveal_strlit("freshness: no task/KB updates postdate this summary\n");
        reveal_strlit(
            "freshness: no task/KB updates postdate this summary; commit matches local HEAD\n",
        );
        let none = Seq::<char>::empty();
        let rest = d.skip(p.len() as int);
        assert(d =~= none + p + rest);
        lemma_four(a, b, c, d, p);
    }
}

proof fn lemma_four(a: Seq<char>, b: Seq<char>, c: Seq<char>, d: Seq<char>, p: Seq<char>)
    ensures
        holds_text(a, p) || holds_text(b, p) || holds_text(c, p) || holds_text(d, p) ==> holds_text(
            a + b + c + d,
            p,
        ),
{
    lemma_either(a, b, p);
    lemma_either(a + b, c, p);
    lemma_either(a + b + c, d, p);
}

/// A finding as JSON has each of its fields; the findings of a project as JSON have
/// each finding, in order, how many are errors and how many are not, and are in order
/// exactly when none is an error.
pub proof fn law_findings_as_json(f: Seq<FindingView>, x: FindingView)
    ensures
        ({
            let j = cli::finding_value(x);
            &&& has_member(j, "file"@, JsonView::Text(x.file))
            &&& has_member(j, "field"@, text_value(x.field))
            &&& has_member(j, "code"@, JsonView::Text(x.code))
            &&& has_member(j, "message"@, JsonView::Text(x.message))
            &&& has_member(j, "suggestion"@, JsonView::Text(x.suggestion))
            &&& has_member(
                j,
                "severity"@,
                JsonView::Text(
                    if x.severity == Severity::Error {
                        "error"@
                    } else {
                        "warning"@
                    },
                ),
            )
        }),
        ({
            let j = cli::doctor_value(f);
            let errors = f.filter(|y: FindingView| y.severity == Severity::Error).len();
            &&& has_member(j, "ok"@, JsonView::Bool(errors == 0))
            &&& has_member(j, "errors"@, json::natural(errors))
            &&& has_member(j, "warnings"@, json::natural((f.len() - errors) as nat))
            &&& has_member(
                j,
                "findings"@,
                JsonView::Array(f.map_values(|y: FindingView| cli::finding_value(y))),
            )
        }),
{
    let m = cli::finding_value(x)->Object_0;
    assert(m[0].name == "file"@ && m[1].name == "field"@ && m[2].name == "severity"@);
    assert(m[3].name == "code"@ && m[4].name == "message"@ && m[5].name == "suggestion"@);
    let d = cli::doctor_value(f)->Object_0;
    assert(d[0].name == "ok"@ && d[1].name == "errors"@ && d[2].name == "warnings"@);
    assert(d[3].name == "findings"@);
}

/// A number that fits is itself in JSON.
pub proof fn law_numbers_as_json(n: nat)
    ensures
        n <= 0x7fff_ffff_ffff_ffff ==> json::natural(n) == JsonView::Integer(n as i64),
        n > 0x7fff_ffff_ffff_ffff ==> json::natural(n) == JsonView::Real(text::decimal(n as int)),
{
}

/// What an action did is shown: that the task is blocked and why, or its new status,
/// and each diagnostic that was not there before.
pub proof fn law_action_is_shown(id: i64, t: TaskView, before: nat, k: int)
    ensures
        ({
            let s = cli::action_lines(id, t, before);
            &&& holds_text(s, "task "@ + text::decimal(id as int))
            &&& t.blocked && t.block_reason is Some ==> holds_text(
                s,
                " is blocked: "@ + t.block_reason->0,
            )
            &&& !t.blocked ==> holds_text(s, " -> "@ + model::status_name(t.status))
            &&& before <= k < t.git_diagnostics.len() ==> holds_text(
                s,
                "git integration ("@ + t.git_diagnostics[k].operation + "): "@
                    + t.git_diagnostics[k].message + "\n"@,
            )
        }),
{
    let a = "task "@ + text::decimal(id as int);
    let b = if t.blocked {
        " is blocked: "@ + (match t.block_reason {
            Some(r) => r,
            None => "no reason"@,
        })
    } else {
        " -> "@ + model::status_name(t.status)
    };
    let form = |d: GitDiagnosticView|
        "git integration ("@ + d.operation + "): "@ + d.message + "\n"@;
    let items = t.git_diagnostics.skip(cli::seen(t, before)).map_values(form);
    let d = text::joined(items, ""@);
    lemma_itself(a);
    lemma_four(a, b, "\n"@, d, a);
    lemma_itself(b);
    lemma_four(a, b, "\n"@, d, b);
    if before <= k < t.git_diagnostics.len() {
        let p = form(t.git_diagnostics[k]);
        lemma_itself(p);
        assert(items[k - before] == p);
        lemma_joined(items, ""@, k - before, p);
        lemma_four(a, b, "\n"@, d, p);
    }
}

/// The doctor names the branch of a repository, and notes automation without one.
pub proof fn law_repository_is_shown(
    mode: Option<GitIntegration>,
    has_git: bool,
    branch: Option<Seq<char>>,
)
    ensures
        ({
            let s = cli::repo_line(mode, has_git, branch);
            &&& mode is Some && has_git && branch is Some ==> s == "repo ok, branch: "@ + branch->0
                + "\n"@
            &&& mode is Some && has_git && branch is None ==> s
                == "repo present (no current branch / detached)\n"@
            &&& mode == Some(GitIntegration::Auto) && !has_git ==> s
                == "note: git_integration is 'auto' but this folder is not a git repo\n"@
            &&& mode is None || mode == Some(GitIntegration::Off) && !has_git ==> s.len() == 0
        }),
{
}

/// The text of a pull request shows the description, each acceptance criterion and
/// the task.
pub proof fn law_pull_request_text(t: TaskView, k: int)
    ensures
        ({
            let s = gitflow::pr_text(t);
            &&& t.description.len() > 0 ==> holds_text(s, t.description)
            &&& 0 <= k < t.acceptance.len() ==> holds_text(s, "- "@ + t.acceptance[k] + "\n"@)
            &&& holds_text(s, "jay task #"@ + text::decimal(t.id as int))
        }),
{
    let none = Seq::<char>::empty();
    let a = if t.description.len() == 0 {
        none
    } else {
        t.description + "\n"@
    };
    let l = text::lined("- "@, t.acceptance);
    let b = if t.acceptance.len() == 0 {
        none
    } else {
        "\nAcceptance criteria:\n"@ + l
    };
    let id = text::decimal(t.id as int);
    let c = "\njay task #"@ + id + "\n"@;
    if t.description.len() > 0 {
        lemma_itself(t.description);
        lemma_either(t.description, "\n"@, t.description);
        lemma_either(a, b, t.description);
        lemma_either(a + b, c, t.description);
    }
    if 0 <= k < t.acceptance.len() {
        let p = "- "@ + t.acceptance[k] + "\n"@;
        lemma_lined("- "@, t.acceptance, k);
        lemma_either("\nAcceptance criteria:\n"@, l, p);
        lemma_either(a, b, p);
        lemma_either(a + b, c, p);
    }
    let q = "jay task #"@ + id;
    reveal_strlit("\njay task #");
    reveal_strlit("jay task #");
    assert("\njay task #"@ =~= seq!['\n'] + "jay task #"@);
    assert(c =~= seq!['\n'] + q + "\n"@);
    lemma_either(a + b, c, q);
}

/// A text is aligned to the left by blanks behind it and to the right by blanks before
/// it, up to the width, and is never cut.
pub proof fn law_alignment(s: Seq<char>, width: int, i: int)
    ensures
        ({
            let l = text::left_aligned(s, width);
            let r = text::right_aligned(s, width);
            let n = if width > s.len() {
                width
            } else {
                s.len() as int
            };
            &&& l.len() == n && r.len() == n
            &&& s.is_prefix_of(l) && s.is_suffix_of(r)
            &&& s.len() <= i < n ==> l[i] == ' '
            &&& 0 <= i < n - s.len() ==> r[i] == ' '
        }),
{
    let l = text::left_aligned(s, width);
    let r = text::right_aligned(s, width);
    assert(s =~= l.subrange(0, s.len() as int));
    assert(s =~= r.subrange(r.len() - s.len(), r.len() as int));
}

} // verus!
