//! Commands: filters, settings, actors, new tasks, and what is shown to agents.
use vstd::prelude::*;

use crate::cli;
use crate::cli::{NewTask, TaskFilter};
use crate::diag;
use crate::diag::{FindingView, Severity};
use crate::json::JsonView;
use crate::knowledge;
use crate::knowledge::{CurrentStatusView, CurrentSummaryView, FreshnessView};
use crate::laws::edits::says;
use crate::laws::texts;
use crate::mcp;
use crate::model;
use crate::model::{KnowledgeEntryView, KnowledgeKind, TaskStatus, TaskView};
use crate::order;
use crate::project;
use crate::project::{GitIntegration, ProjectConfigView};
use crate::service;
use crate::text;

verus! {

/// Whether a task is what a search asks for: every filter that is given holds of
/// it. The letters of the term occur in the title, in order, both in lower case.
pub open spec fn asked_for(f: TaskFilter, t: TaskView) -> bool {
    &&& f.term matches Some(s) ==> exists|at: Seq<int>| #[trigger]
        cli::picked(text::lowercase(s@), text::lowercase(t.title), at)
    &&& f.priority matches Some(p) ==> t.priority == p
    &&& f.label matches Some(l) ==> t.labels.contains(l@)
    &&& f.status matches Some(s) ==> t.status == s
}

/// A search finds the tasks that it asks for, in order, and no others.
pub proof fn law_search_finds_what_is_asked_for(all: Seq<TaskView>, f: TaskFilter)
    ensures
        all.filter(|t: TaskView| cli::passes(f, t)) == all.filter(|t: TaskView| asked_for(f, t)),
{
    let a = |t: TaskView| cli::passes(f, t);
    let b = |t: TaskView| asked_for(f, t);
    assert forall|t: TaskView| #[trigger] a(t) == b(t) by {
        if let Some(s) = f.term {
            cli::law_fuzzy_match_picks(text::lowercase(s@), text::lowercase(t.title));
        }
        if let Some(l) = f.label {
            texts::law_among(l@, t.labels);
        }
    }
    text::lemma_filter_same(all, a, b);
}

proof fn lemma_config_names()
    ensures
        "name"@.len() == 4,
        "description"@.len() == 11,
        "goal"@.len() == 4,
        "git_repo"@.len() == 8,
        "branch_template"@.len() == 15,
        "git_integration"@.len() == 15,
        "links"@.len() == 5,
        "name"@[0] == 'n',
        "goal"@[0] == 'g',
        "branch_template"@[0] == 'b',
        "git_integration"@[0] == 'g',
{
    reveal_strlit("name");
    reveal_strlit("description");
    reveal_strlit("goal");
    reveal_strlit("git_repo");
    reveal_strlit("branch_template");
    reveal_strlit("git_integration");
    reveal_strlit("links");
}

/// Setting a config field sets the field of that name and leaves the others: a text
/// as it is, a policy as it is named, links as the items between commas. Other
/// names, and other policies, are refused.
pub proof fn law_config_field_is_set(c: ProjectConfigView, field: Seq<char>, value: Seq<char>)
    ensures
        ({
            let out = cli::config_set(c, field, value);
            let text_field = field == "name"@ || field == "description"@ || field == "goal"@ || field
                == "git_repo"@ || field == "branch_template"@;
            let policy = text::trim(value) == "off"@ || text::trim(value) == "auto"@;
            &&& out is Ok <==> text_field || field == "git_integration"@ && policy || field
                == "links"@
            &&& out matches Ok(n) ==> {
                &&& n.name == (if field == "name"@ {
                    value
                } else {
                    c.name
                })
                &&& n.description == (if field == "description"@ {
                    value
                } else {
                    c.description
                })
                &&& n.goal == (if field == "goal"@ {
                    Some(value)
                } else {
                    c.goal
                })
                &&& n.git_repo == (if field == "git_repo"@ {
                    Some(value)
                } else {
                    c.git_repo
                })
                &&& n.branch_template == (if field == "branch_template"@ {
                    Some(value)
                } else {
                    c.branch_template
                })
                &&& n.git_integration == (if field == "git_integration"@ {
                    Some(
                        if text::trim(value) == "off"@ {
                            GitIntegration::Off
                        } else {
                            GitIntegration::Auto
                        },
                    )
                } else {
                    c.git_integration
                })
                &&& n.links == (if field == "links"@ {
                    cli::list_items(value)
                } else {
                    c.links
                })
            }
        }),
{
    lemma_config_names();
}

/// Reading a config field gives the field of that name: a text as it is, or empty
/// where it is not set; a policy under its name, marked where it is not set; links
/// with commas between them. Other names are unknown.
pub proof fn law_config_field_is_read(c: ProjectConfigView, field: Seq<char>)
    ensures
        ({
            let out = cli::local_field(c, field);
            let policy = if project::effective_integration(c) == GitIntegration::Off {
                "off"@
            } else {
                "auto"@
            };
            &&& out is Some <==> field == "name"@ || field == "description"@ || field == "goal"@
                || field == "git_repo"@ || field == "branch_template"@ || field
                == "git_integration"@ || field == "links"@
            &&& field == "name"@ ==> out == Some(c.name)
            &&& field == "description"@ ==> out == Some(c.description)
            &&& field == "goal"@ && c.goal is Some ==> out == c.goal
            &&& field == "git_repo"@ && c.git_repo is Some ==> out == c.git_repo
            &&& field == "branch_template"@ && c.branch_template is Some ==> out == c.branch_template
            &&& field == "goal"@ && c.goal is None || field == "git_repo"@ && c.git_repo is None
                || field == "branch_template"@ && c.branch_template is None ==> out == Some(
                Seq::<char>::empty(),
            )
            &&& field == "git_integration"@ && c.git_integration is Some ==> out == Some(policy)
            &&& field == "git_integration"@ && c.git_integration is None ==> out == Some(
                policy + " (legacy default)"@,
            )
            &&& field == "links"@ ==> out == Some(text::joined(c.links, ","@))
        }),
{
    lemma_config_names();
}

/// A list in a text holds what stands between commas, without the white space
/// around it, and nothing for what is blank.
pub proof fn law_list_items(a: Seq<char>, b: Seq<char>)
    ensures
        cli::list_items(a + seq![','] + b) == cli::list_items(a) + cli::list_items(b),
        !a.contains(',') && text::trim(a).len() > 0 ==> cli::list_items(a) == seq![text::trim(a)],
        !a.contains(',') && text::trim(a).len() == 0 ==> cli::list_items(a).len() == 0,
{
    let f = |s: Seq<char>| text::trim(s);
    let keep = |p: Seq<char>| p.len() > 0;
    texts::law_splitting_on(a, ',', b);
    let x = text::split_on(a, ',');
    let y = text::split_on(b, ',');
    assert((x + y).map_values(f) =~= x.map_values(f) + y.map_values(f));
    lemma_filter_sum(x.map_values(f), y.map_values(f), keep);
    if !a.contains(',') {
        assert(x.map_values(f) =~= seq![text::trim(a)]);
        reveal(Seq::filter);
        assert(seq![text::trim(a)].drop_last() =~= Seq::empty());
        assert(Seq::<Seq<char>>::empty().filter(keep) =~= Seq::empty());
        assert(seq![text::trim(a)].filter(keep) =~= if text::trim(a).len() > 0 {
            seq![text::trim(a)]
        } else {
            Seq::empty()
        });
    }
}

proof fn lemma_filter_sum<T>(a: Seq<T>, b: Seq<T>, keep: spec_fn(T) -> bool)
    ensures
        (a + b).filter(keep) == a.filter(keep) + b.filter(keep),
    decreases b.len(),
{
    reveal(Seq::filter);
    if b.len() == 0 {
        assert(a + b =~= a);
        assert(a.filter(keep) + b.filter(keep) =~= a.filter(keep));
    } else {
        lemma_filter_sum(a, b.drop_last(), keep);
        assert((a + b).drop_last() =~= a + b.drop_last());
        assert((a + b).last() == b.last());
        assert((a + b).filter(keep) =~= a.filter(keep) + b.filter(keep));
    }
}

/// The value of a field comes from the environment where that sets it; else from
/// the config file where it has one that is not empty, and a policy where it is
/// set; else it is the default.
pub proof fn law_origins(c: ProjectConfigView, field: Seq<char>, in_env: bool)
    ensures
        ({
            let local = {
                ||| field == "name"@ && c.name.len() > 0
                ||| field == "description"@ && c.description.len() > 0
                ||| field == "goal"@ && c.goal is Some && c.goal->0.len() > 0
                ||| field == "git_repo"@ && c.git_repo is Some && c.git_repo->0.len() > 0
                ||| field == "branch_template"@ && c.branch_template is Some
                    && c.branch_template->0.len() > 0
                ||| field == "git_integration"@ && c.git_integration is Some
                ||| field == "links"@ && text::joined(c.links, ","@).len() > 0
            };
            cli::origin(c, field, in_env) == if in_env {
                "env"@
            } else if local {
                "local"@
            } else {
                "default"@
            }
        }),
{
    lemma_config_names();
}

/// An actor is a human, or an agent by a name that says something.
pub proof fn law_actors(s: Seq<char>)
    ensures
        cli::is_actor(s) <==> s == "human"@ || exists|name: Seq<char>|
            s == #[trigger] ("agent:"@ + name) && says(name),
{
    texts::law_affixes(s, "agent:"@);
    if let Some(name) = text::after_prefix(s, "agent:"@) {
        assert(s == "agent:"@ + name);
    }
    if exists|name: Seq<char>| s == #[trigger] ("agent:"@ + name) && says(name) {
        let name = choose|name: Seq<char>| s == #[trigger] ("agent:"@ + name) && says(name);
        let n = "agent:"@.len() as int;
        assert(s.subrange(0, n) =~= "agent:"@);
        assert(s.skip(n) =~= name);
    }
}

/// The actor of a session is that of the flag; without one that of the environment;
/// without either a human.
pub proof fn law_actor_of_a_session(flag: Option<Seq<char>>, env: Option<Seq<char>>)
    ensures
        flag matches Some(a) ==> cli::actor_of(flag, env) == a,
        flag is None ==> (env matches Some(a) ==> cli::actor_of(flag, env) == a),
        flag is None && env is None ==> cli::actor_of(flag, env) == "human"@,
{
}

/// A new task has every field that it was given, its creator, and nothing else: it
/// is open and unblocked, without a report or a history.
pub proof fn law_new_task_has_its_fields(id: i64, n: NewTask, actor: Seq<char>, now: Seq<char>)
    ensures
        ({
            let t = cli::filled(id, n, actor, now);
            &&& t.id == id && t.title == n.title@ && t.description == n.description@
            &&& t.priority == n.priority && t.labels == text::texts(n.labels@)
            &&& t.estimate_points == n.estimate_points
            &&& t.estimate_hours == text::opt_text(n.estimate_hours)
            &&& t.deadline == text::opt_text(n.deadline) && t.links == text::texts(n.links@)
            &&& t.acceptance == text::texts(n.acceptance@) && t.context == n.context@
            &&& t.assignee == text::opt_text(n.assignee)
            &&& t.parent_id == n.parent_id && t.epic_id == n.epic_id && t.milestone_id
                == n.milestone_id
            &&& t.depends_on == n.depends_on@
            &&& t.actor == Some(actor) && t.created_at == now && t.updated_at == now
            &&& t.status == TaskStatus::Open && !t.blocked && t.block_reason is None
            &&& t.report_result is None && t.report_validation is None && t.report_problems.len() == 0
                && t.report_ideas.len() == 0 && t.report_decisions.len() == 0
            &&& t.started_at is None && t.done_at is None && t.follow_up_of is None
            &&& t.history.len() == 0 && t.git_diagnostics.len() == 0
        }),
{
}

/// An agent acts under its name, or as `agent` without one.
pub proof fn law_agents_are_named(actor: Option<Seq<char>>)
    ensures
        actor matches Some(a) ==> mcp::agent_name(actor) == "agent:"@ + a,
        actor is None ==> mcp::agent_name(actor) == "agent:agent"@,
{
}

/// A command line is its words, in order: white space separates them and belongs
/// to none.
pub proof fn law_command_words(a: Seq<char>, c: char, b: Seq<char>)
    ensures
        text::is_space(c) ==> mcp::command_words(a + seq![c] + b) == mcp::command_words(a)
            + mcp::command_words(b),
        a.len() > 0 && (forall|i: int| 0 <= i < a.len() ==> !text::is_space(#[trigger] a[i]))
            ==> mcp::command_words(a) == seq![a],
        mcp::command_words(Seq::empty()).len() == 0,
{
    let sep = mcp::word_gap();
    let keep = |p: Seq<char>| p.len() > 0;
    let none = Seq::<char>::empty();
    texts::law_splitting(a, c, b, sep);
    texts::law_splitting(none, c, b, sep);
    lemma_filter_sum(text::pieces(a, sep), text::pieces(b, sep), keep);
    reveal(Seq::filter);
    assert(Seq::<Seq<char>>::empty().filter(keep) =~= Seq::empty());
    if a.len() > 0 && forall|i: int| 0 <= i < a.len() ==> !text::is_space(#[trigger] a[i]) {
        assert forall|i: int| 0 <= i < a.len() implies !sep(#[trigger] a[i]) by {
            assert(!text::is_space(a[i]));
        }
        assert(seq![a].drop_last() =~= Seq::empty());
        assert(seq![a].filter(keep) =~= seq![a]);
    }
    assert(seq![none].drop_last() =~= Seq::empty());
    assert(seq![none].filter(keep) =~= Seq::empty());
}

/// A sub-agent is started by the words of its command, or the default ones, with
/// the prompt as the last argument.
pub proof fn law_prompt_comes_last(command: Option<Seq<char>>, prompt: Seq<char>)
    ensures
        mcp::agent_words(command, prompt) == (if command is Some {
            mcp::command_words(command->0)
        } else {
            seq!["dsh"@, "--profile"@, "headless"@]
        }) + seq![prompt],
{
    let words = if command is Some {
        mcp::command_words(command->0)
    } else {
        seq!["dsh"@, "--profile"@, "headless"@]
    };
    assert(words.push(prompt) =~= words + seq![prompt]);
}

/// A search result is the current summary exactly when it is the status entry that
/// is designated.
pub proof fn law_current_summary_among_results(current: Option<i64>, e: KnowledgeEntryView)
    ensures
        mcp::is_designated(current, e) <==> current is Some && current->0 == e.id && e.kind
            == KnowledgeKind::Status,
{
}

/// Repair proposes one migration for each legacy completion time that is found, in
/// its file, in order, and leaves every error that is none of these unresolved.
pub proof fn law_repair_is_proposed(f: Seq<FindingView>)
    ensures
        ({
            let legacy = f.filter(|x: FindingView| x.code == "task.legacy_closed_at"@);
            let ops = diag::proposals(f);
            &&& ops.len() == legacy.len()
            &&& forall|i: int|
                0 <= i < ops.len() ==> (#[trigger] ops[i]).file == legacy[i].file && ops[i].code
                    == legacy[i].code
            &&& diag::repair_files(f) == legacy.map_values(|x: FindingView| x.file)
            &&& diag::unresolved(f) == f.filter(
                |x: FindingView|
                    x.severity == Severity::Error && x.code != "task.legacy_closed_at"@,
            )
        }),
{
    let a = |x: FindingView| x.code == "task.legacy_closed_at"@;
    let b = |x: FindingView| diag::repairable(x);
    text::lemma_filter_same(f, a, b);
    let c = |x: FindingView| x.severity == Severity::Error && x.code != "task.legacy_closed_at"@;
    let d = |x: FindingView| x.severity == Severity::Error && !diag::repairable(x);
    text::lemma_filter_same(f, c, d);
    assert(diag::repair_files(f) =~= f.filter(a).map_values(|x: FindingView| x.file));
}

/// The tasks of a draft are those that changed after the summary, in order, or all
/// where there is none.
pub proof fn law_draft_covers_changes(all: Seq<TaskView>, changed: Option<Seq<i64>>)
    ensures
        cli::drafted(all, changed) == all.filter(
            |t: TaskView| changed is None || changed->0.contains(t.id),
        ),
{
    let a = |t: TaskView| changed is None || changed->0.contains(t.id);
    let b = |t: TaskView|
        match changed {
            Some(ids) => ids.contains(t.id),
            None => true,
        };
    text::lemma_filter_same(all, a, b);
}

/// A text is shown in a pager exactly when it has more than twenty lines; a last
/// line without a line break counts.
pub proof fn law_paging(s: Seq<char>)
    ensures
        ({
            let breaks = s.filter(|c: char| c == '\n').len();
            let open = s.len() > 0 && s.last() != '\n';
            cli::is_paged(s) <==> breaks > 20 || breaks == 20 && open
        }),
{
}

/// Whether an object has a member of that name with that value.
pub open spec fn has_member(j: JsonView, name: Seq<char>, value: JsonView) -> bool {
    j matches JsonView::Object(m) && exists|k: int|
        0 <= k < m.len() && (#[trigger] m[k]).name == name && m[k].value == value
}

/// An optional text as JSON: the text, or null.
pub open spec fn text_value(o: Option<Seq<char>>) -> JsonView {
    if o is Some {
        JsonView::Text(o->0)
    } else {
        JsonView::Null
    }
}

/// An entry as JSON has each field of the entry under its name.
pub proof fn law_entry_as_json(e: KnowledgeEntryView)
    ensures
        ({
            let j = knowledge::entry_value(e);
            &&& has_member(j, "id"@, JsonView::Integer(e.id))
            &&& has_member(j, "kind"@, JsonView::Text(model::kind_name(e.kind)))
            &&& has_member(j, "title"@, JsonView::Text(e.title))
            &&& has_member(j, "content"@, JsonView::Text(e.content))
            &&& has_member(
                j,
                "tags"@,
                JsonView::Array(e.tags.map_values(|s: Seq<char>| JsonView::Text(s))),
            )
            &&& e.related_task matches Some(i) ==> has_member(
                j,
                "related_task"@,
                JsonView::Integer(i),
            )
            &&& e.related_task is None ==> has_member(j, "related_task"@, JsonView::Null)
            &&& has_member(
                j,
                "supersedes"@,
                JsonView::Array(e.supersedes.map_values(|i: i64| JsonView::Integer(i))),
            )
            &&& has_member(j, "commit"@, text_value(e.commit))
            &&& has_member(j, "actor"@, text_value(e.actor))
            &&& has_member(j, "created_at"@, JsonView::Text(e.created_at))
            &&& has_member(j, "updated_at"@, JsonView::Text(e.updated_at))
        }),
{
    let m = knowledge::entry_value(e)->Object_0;
    assert(m[0].name == "id"@ && m[1].name == "kind"@ && m[2].name == "title"@);
    assert(m[3].name == "content"@ && m[4].name == "tags"@ && m[5].name == "related_task"@);
    assert(m[6].name == "supersedes"@ && m[7].name == "commit"@ && m[8].name == "actor"@);
    assert(m[9].name == "created_at"@ && m[10].name == "updated_at"@);
    assert(e.tags.map_values(|s: Seq<char>| JsonView::Text(s)) =~= m[4].value->Array_0);
    assert(e.supersedes.map_values(|i: i64| JsonView::Integer(i)) =~= m[6].value->Array_0);
}

/// A status as JSON has its entry, its provenance and its freshness.
pub proof fn law_status_as_json(s: CurrentStatusView, f: FreshnessView)
    ensures
        ({
            let j = knowledge::status_value(s, f);
            &&& has_member(j, "entry"@, knowledge::entry_value(s.entry))
            &&& has_member(j, "designated"@, JsonView::Bool(s.designated))
            &&& has_member(j, "designation"@, knowledge::designation_value(s.designation))
            &&& has_member(j, "note"@, text_value(s.note))
            &&& has_member(j, "freshness"@, knowledge::freshness_value(f))
        }),
{
    let m = knowledge::status_value(s, f)->Object_0;
    assert(m[0].name == "entry"@ && m[1].name == "designated"@ && m[2].name == "designation"@);
    assert(m[3].name == "note"@ && m[4].name == "freshness"@);
}

/// A designation as JSON has what it records; no designation is null.
pub proof fn law_designation_as_json(c: CurrentSummaryView)
    ensures
        ({
            let j = knowledge::designation_value(Some(c));
            &&& has_member(j, "entry_id"@, JsonView::Integer(c.entry_id))
            &&& has_member(j, "set_at"@, JsonView::Text(c.set_at))
            &&& has_member(j, "set_by"@, JsonView::Text(c.set_by))
            &&& has_member(j, "commit"@, text_value(c.commit))
            &&& knowledge::designation_value(None) == JsonView::Null
        }),
{
    let m = knowledge::designation_value(Some(c))->Object_0;
    assert(m[0].name == "entry_id"@ && m[1].name == "set_at"@ && m[2].name == "set_by"@);
    assert(m[3].name == "commit"@);
}

/// Freshness as JSON has each of its facts.
pub proof fn law_freshness_as_json(f: FreshnessView)
    ensures
        ({
            let j = knowledge::freshness_value(f);
            &&& has_member(j, "reference_time"@, text_value(f.reference_time))
            &&& has_member(
                j,
                "tasks_updated_after"@,
                JsonView::Array(f.tasks_updated_after.map_values(|i: i64| JsonView::Integer(i))),
            )
            &&& has_member(
                j,
                "kb_updated_after"@,
                JsonView::Array(f.kb_updated_after.map_values(|s: Seq<char>| JsonView::Text(s))),
            )
            &&& has_member(j, "head_commit"@, text_value(f.head_commit))
            &&& f.commit_matches_head matches Some(b) ==> has_member(
                j,
                "commit_matches_head"@,
                JsonView::Bool(b),
            )
            &&& f.commit_matches_head is None ==> has_member(
                j,
                "commit_matches_head"@,
                JsonView::Null,
            )
            &&& has_member(j, "possibly_stale"@, JsonView::Bool(f.possibly_stale))
            &&& has_member(
                j,
                "facts"@,
                JsonView::Array(f.facts.map_values(|s: Seq<char>| JsonView::Text(s))),
            )
        }),
{
    let m = knowledge::freshness_value(f)->Object_0;
    assert(m[0].name == "reference_time"@ && m[1].name == "tasks_updated_after"@);
    assert(m[2].name == "kb_updated_after"@ && m[3].name == "head_commit"@);
    assert(m[4].name == "commit_matches_head"@ && m[5].name == "possibly_stale"@);
    assert(m[6].name == "facts"@);
    assert(f.tasks_updated_after.map_values(|i: i64| JsonView::Integer(i))
        =~= m[1].value->Array_0);
    assert(f.kb_updated_after.map_values(|s: Seq<char>| JsonView::Text(s)) =~= m[2].value->Array_0);
    assert(f.facts.map_values(|s: Seq<char>| JsonView::Text(s)) =~= m[6].value->Array_0);
}

/// A task in brief says its id, its title and its priority, and where it is blocked
/// also why.
pub proof fn law_task_in_brief(t: TaskView)
    ensures
        has_member(service::brief_value(t), "id"@, JsonView::Integer(t.id)),
        has_member(service::brief_value(t), "title"@, JsonView::Text(t.title)),
        has_member(
            service::brief_value(t),
            "priority"@,
            JsonView::Text(model::priority_name(t.priority)),
        ),
        has_member(service::blocked_value(t), "id"@, JsonView::Integer(t.id)),
        has_member(service::blocked_value(t), "title"@, JsonView::Text(t.title)),
        has_member(service::blocked_value(t), "block_reason"@, text_value(t.block_reason)),
{
    let m = service::brief_value(t)->Object_0;
    assert(m[0].name == "id"@ && m[1].name == "title"@ && m[2].name == "priority"@);
    let b = service::blocked_value(t)->Object_0;
    assert(b[0].name == "id"@ && b[1].name == "title"@ && b[3].name == "block_reason"@);
}

/// The context of a project names the project, its folder and the policy in effect,
/// lists the started, the blocked and the ready tasks, each in brief, and gives the
/// current status where there is one.
pub proof fn law_context_of_a_project(
    c: ProjectConfigView,
    root: Seq<char>,
    all: Seq<TaskView>,
    summary: Option<(CurrentStatusView, FreshnessView)>,
)
    ensures
        ({
            let j = service::context_value(c, root, all, summary);
            let policy = if project::effective_integration(c) == GitIntegration::Off {
                "off"@
            } else {
                "auto"@
            };
            &&& has_member(j, "project"@, JsonView::Text(c.name))
            &&& has_member(j, "root"@, JsonView::Text(root))
            &&& has_member(j, "git_integration"@, JsonView::Text(policy))
            &&& has_member(
                j,
                "active"@,
                JsonView::Array(
                    all.filter(|t: TaskView| t.status == TaskStatus::Started).map_values(
                        |t: TaskView| service::brief_value(t),
                    ),
                ),
            )
            &&& has_member(
                j,
                "blocked"@,
                JsonView::Array(
                    all.filter(|t: TaskView| t.blocked).map_values(
                        |t: TaskView| service::blocked_value(t),
                    ),
                ),
            )
            &&& has_member(
                j,
                "ready"@,
                JsonView::Array(
                    order::sorted_by(service::ready_among(all), service::urgency()).map_values(
                        |t: TaskView| service::brief_value(t),
                    ),
                ),
            )
            &&& has_member(j, "counts"@, service::counts_value(service::counted(all)))
            &&& summary matches Some((s, f)) ==> has_member(
                j,
                "summary"@,
                knowledge::status_value(s, f),
            )
            &&& summary is None ==> has_member(j, "summary"@, JsonView::Null)
        }),
{
    let m = service::context_value(c, root, all, summary)->Object_0;
    assert(m[0].name == "project"@ && m[1].name == "root"@ && m[2].name == "git_integration"@);
    assert(m[3].name == "counts"@ && m[4].name == "active"@ && m[5].name == "blocked"@);
    assert(m[6].name == "ready"@ && m[7].name == "summary"@);
}

/// Each status that occurs is counted, once, with the number of tasks that have it.
pub proof fn law_statuses_are_counted(all: Seq<TaskView>, s: TaskStatus, n: nat)
    ensures
        service::counted(all).contains((s, n)) <==> n > 0 && n == all.filter(
            |t: TaskView| t.status == s,
        ).len(),
        service::counted(all).no_duplicates(),
{
    let list = TaskStatus::ALL@;
    let keep = |x: TaskStatus| service::count_of(all, x) > 0;
    let form = |x: TaskStatus| (x, service::count_of(all, x));
    let kept = list.filter(keep);
    let out = service::counted(all);
    reveal_with_fuel(Seq::filter, 6);
    assert(list.len() == 5);
    assert(list[0] == TaskStatus::Open);
    assert(list.contains(s)) by {
        assert(list[0] == TaskStatus::Open && list[1] == TaskStatus::Started && list[2]
            == TaskStatus::Review && list[3] == TaskStatus::Closed && list[4]
            == TaskStatus::Cancelled);
    }
    lemma_kept(list, keep, s);
    if out.contains((s, n)) {
        let k = choose|k: int| 0 <= k < out.len() && out[k] == (s, n);
        assert(out[k] == form(kept[k]));
        assert(kept.contains(kept[k]));
        lemma_kept(list, keep, kept[k]);
    }
    if n > 0 && n == service::count_of(all, s) {
        let k = choose|k: int| 0 <= k < kept.len() && kept[k] == s;
        assert(out[k] == (s, n));
    }
    assert(list.no_duplicates());
    lemma_kept_once(list, keep);
    assert forall|i: int, j: int| 0 <= i < out.len() && 0 <= j < out.len() && i != j implies out[i]
        != out[j] by {
        assert(out[i] == form(kept[i]) && out[j] == form(kept[j]));
    }
}

proof fn lemma_kept<T>(s: Seq<T>, keep: spec_fn(T) -> bool, x: T)
    ensures
        s.filter(keep).contains(x) <==> s.contains(x) && keep(x),
    decreases s.len(),
{
    reveal(Seq::filter);
    if s.len() > 0 {
        let front = s.drop_last();
        let a = front.filter(keep);
        let all = s.filter(keep);
        lemma_kept(front, keep, x);
        if all.contains(x) {
            let i = choose|i: int| 0 <= i < all.len() && all[i] == x;
            if i < a.len() {
                assert(a[i] == x);
                let k = choose|k: int| 0 <= k < front.len() && front[k] == x;
                assert(s[k] == x);
            } else {
                assert(s[s.len() - 1] == x);
            }
        }
        if s.contains(x) && keep(x) {
            let k = choose|k: int| 0 <= k < s.len() && s[k] == x;
            if k < front.len() {
                assert(front[k] == x);
                let i = choose|i: int| 0 <= i < a.len() && a[i] == x;
                assert(all[i] == x);
            } else {
                assert(all[a.len() as int] == x);
            }
        }
    }
}

proof fn lemma_kept_once<T>(s: Seq<T>, keep: spec_fn(T) -> bool)
    requires
        s.no_duplicates(),
    ensures
        s.filter(keep).no_duplicates(),
    decreases s.len(),
{
    reveal(Seq::filter);
    if s.len() > 0 {
        let front = s.drop_last();
        lemma_kept_once(front, keep);
        lemma_kept(front, keep, s.last());
        if front.contains(s.last()) {
            let k = choose|k: int| 0 <= k < front.len() && front[k] == s.last();
            assert(s[k] == s[s.len() - 1]);
        }
        let a = front.filter(keep);
        let all = s.filter(keep);
        assert forall|i: int, j: int| 0 <= i < all.len() && 0 <= j < all.len() && i != j implies all[i]
            != all[j] by {
            if i < a.len() {
                assert(a.contains(a[i]));
            }
            if j < a.len() {
                assert(a.contains(a[j]));
            }
        }
    }
}

} // verus!
