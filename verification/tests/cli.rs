use jay::cli::{
    action_text, check_set_current, commit_link, config_origins, current_branch, draft_status,
    field_origin, find_tasks, format_task_detail, fuzzy_match, get_config_field, is_subsequence,
    kb_change, kb_entry_text, kb_status_text, kind_of_context, needs_pager, new_task_at, pager_of,
    project_figures, project_json, require_destination, require_project, resolve_actor,
    set_config_field, status_overview, NewTask, TaskFilter, CONFIG_FIELDS,
};
use jay::json::Json;
use jay::knowledge::{
    current_status, set_current_summary_at, summary_freshness, EntriesFile, FALLBACK_NOTE,
};
use jay::model::{
    GitDiagnostic, KnowledgeEntry, KnowledgeKind, LifecycleCtx, Priority, Task, TaskAction,
    TaskStatus, Times,
};
use jay::project::{Context, GitIntegration, ProjectConfig};
use jay::service;

const T0: &str = "2026-01-01T00:00:00+00:00";
const T1: &str = "2026-01-02T00:00:00+00:00";

fn task(id: i64, title: &str) -> Task {
    Task::new_at(id, title.into(), String::new(), T0)
}

fn config() -> ProjectConfig {
    ProjectConfig {
        name: "demo".into(),
        description: String::new(),
        goal: None,
        git_repo: None,
        branch_template: None,
        git_integration: None,
        links: Vec::new(),
    }
}

fn filter(term: Option<&str>) -> TaskFilter {
    TaskFilter {
        term: term.map(String::from),
        priority: None,
        label: None,
        status: None,
    }
}

#[test]
fn plain_task_detail() {
    assert_eq!(
        format_task_detail(&task(2, "Fix it"), &Vec::new()),
        "#2 Fix it\nstatus: open\npriority: medium\n\ncreated: 2026-01-01T00:00:00+00:00\n"
    );
}

#[test]
fn full_task_detail() {
    let mut t = task(7, "Deliver");
    t.labels = vec!["a".into(), "b".into()];
    t.estimate_points = Some(5);
    t.estimate_hours = Some("2.5".into());
    t.deadline = Some("2026-09-01".into());
    t.description = "what".into();
    t.acceptance = vec!["x".into()];
    t.context = "why".into();
    t.depends_on = vec![1, 2, 3];
    t.links = vec!["l".into()];
    t.actor = Some("human".into());
    t.report_result = Some("r".into());
    t.report_problems = vec!["p".into()];
    t.follow_up_of = Some(4);
    t.git_diagnostics = vec![GitDiagnostic {
        operation: "branch".into(),
        message: "m".into(),
        at: T1.into(),
    }];
    let ctx = LifecycleCtx::new("human", Some("go"));
    let mut closed = task(1, "c");
    closed.status = TaskStatus::Closed;
    let cancelled = {
        let mut x = task(2, "d");
        x.status = TaskStatus::Cancelled;
        x
    };
    t.apply_at(TaskAction::Start, &ctx, &Times::all_at(T1)).unwrap();
    let shown = format_task_detail(&t, &vec![closed, cancelled]);
    let expected = "#7 Deliver\nstatus: started\npriority: medium\nlabels: a, b\nestimate: 5 points / 2.5h\ndeadline: 2026-09-01\n\ndescription:\nwhat\n\nacceptance:\n  - x\n\ncontext:\nwhy\n\ndepends on:\n  - #1 (closed)\n  - #2 (cancelled) — UNMET: prerequisite must be closed (cancelled does not count)\n  - #3 (missing) — UNMET\n\nlinks:\n  - l\n\ncreated: 2026-01-01T00:00:00+00:00\nstarted: 2026-01-02T00:00:00+00:00\nactor: human\n\nreport:\n  result: r\n  problem: p\n\nfollow-up of: #4\n\ngit integration diagnostics:\n  [branch] m (2026-01-02T00:00:00+00:00)\n\nhistory:\n  2026-01-02T00:00:00+00:00 open -> started by human\n    reason: go\n";
    assert_eq!(shown, expected);
}

#[test]
fn history_shows_what_reopening_preserved() {
    let ctx = LifecycleCtx::new("me", Some("again"));
    let at = Times::all_at(T1);
    let mut t = task(1, "t");
    t.links = vec!["branch:b".into()];
    t.apply_at(TaskAction::Start, &ctx, &at).unwrap();
    t.apply_at(TaskAction::Review, &ctx, &at).unwrap();
    t.report_result = Some("r1".into());
    t.report_validation = Some("v1".into());
    t.report_ideas = vec!["i1".into()];
    t.apply_at(TaskAction::Done, &ctx, &at).unwrap();
    t.apply_at(TaskAction::Reopen, &ctx, &at).unwrap();
    let shown = format_task_detail(&t, &Vec::new());
    assert!(
        shown.ends_with(
            "closed -> open by me\n    reason: again\n    prior done_at: 2026-01-02T00:00:00+00:00\n    prior report:\n      result: r1\n      validation: v1\n      idea: i1\n      link: branch:b\n"
        ),
        "{shown}"
    );
}

#[test]
fn overview_of_a_small_project() {
    let mut a = task(1, "one");
    a.status = TaskStatus::Started;
    let mut b = task(20, "two");
    b.blocked = true;
    let mut c = task(3, "three");
    c.priority = Priority::High;
    let shown = status_overview("demo", "/w", &vec![a, c, b], &None, &Some("main".into()));
    assert_eq!(
        shown,
        "project: demo (/w)\n\n  open         2\n  started      1\n\nactive:\n    1 one\n\nblocked:\n   20 two\n\nready (open, unblocked, deps closed):\n    3 [high] three\n\nbranch: main\n"
    );
}

#[test]
fn overview_names_ten_ready_tasks() {
    let all: Vec<Task> = (1..=12).map(|i| task(i, "t")).collect();
    let shown = status_overview("d", "/", &all, &None, &None);
    assert!(shown.contains("   10 [medium] t\n  ... 2 more (jay next)\n"), "{shown}");
    assert!(!shown.contains("   11 ["), "{shown}");
}

#[test]
fn stale_status_warns_and_draft_uses_updated_task_reports() {
    let mut e = KnowledgeEntry::new_at(
        1,
        KnowledgeKind::Status,
        "Before delivery".into(),
        "Task is open".into(),
        T0,
    );
    e.actor = Some("agent:codex".into());
    let mut file = EntriesFile {
        current_summary: None,
        entries: vec![e],
    };
    file.current_summary = Some(set_current_summary_at(&file, 1, "agent:codex", None, T0).unwrap());
    let mut t = Task::new_at(1, "Deliver feature".into(), String::new(), T1);
    t.status = TaskStatus::Closed;
    t.report_result = Some("Feature delivered".into());
    t.report_validation = Some("Tests passed".into());
    let quiet = task(2, "Untouched");
    let all = vec![t, quiet];
    let cs = current_status(&file).unwrap();
    let fresh = summary_freshness(&cs, &all, &Vec::new(), None);
    let draft = draft_status(&all, Some(&fresh));
    assert!(draft.contains("DRAFT ONLY"), "{draft}");
    assert!(draft.contains("Feature delivered"), "{draft}");
    assert!(draft.contains("Task #1 [closed]"), "{draft}");
    assert!(!draft.contains("Task #2"), "{draft}");
    assert!(draft_status(&all, None).contains("Task #2 [open]"));
    let summary = Some((cs, fresh));
    let status = status_overview("demo", "/w", &all, &summary, &None);
    assert!(status.contains("possibly stale"), "{status}");
    let kb = kb_status_text(&summary);
    assert!(kb.starts_with("== current summary (designated) ==\n[status] #1 Before delivery\n"));
    assert!(kb.contains("designated by agent:codex at "), "{kb}");
    assert!(kb.contains("freshness (facts, not a verdict on the prose):\n  - "), "{kb}");
}

#[test]
fn knowledge_texts() {
    let mut e = KnowledgeEntry::new_at(3, KnowledgeKind::Note, "n".into(), "body".into(), T0);
    e.tags = vec!["x".into(), "y".into()];
    e.related_task = Some(9);
    assert_eq!(
        kb_entry_text(&e),
        format!("[note] #3 n\ntags: x, y\nrelated task: #9\ncreated: {T0}\nupdated: {T0}\n\nbody\n")
    );
    assert_eq!(kb_status_text(&None), "no status recorded\n");
    let file = EntriesFile {
        current_summary: None,
        entries: vec![e],
    };
    let cs = current_status(&file).unwrap();
    let fresh = summary_freshness(&cs, &Vec::new(), &Vec::new(), None);
    let shown = kb_status_text(&Some((cs, fresh)));
    assert!(shown.starts_with(&format!("== {FALLBACK_NOTE} ==\n")), "{shown}");
    assert!(
        shown.ends_with("freshness: no task/KB updates postdate this summary\n"),
        "{shown}"
    );
}

#[test]
fn only_status_entries_are_designated() {
    assert!(check_set_current(KnowledgeKind::Status, true).is_ok());
    assert!(check_set_current(KnowledgeKind::Note, false).is_ok());
    assert_eq!(
        check_set_current(KnowledgeKind::Note, true).unwrap_err().message,
        "--set-current only applies to status entries"
    );
}

#[test]
fn empty_lists_leave_entries_alone() {
    let c = kb_change(None, Some("c".into()), Vec::new(), None, Vec::new(), "human");
    assert!(c.tags.is_none() && c.supersedes.is_none() && c.title.is_none());
    assert_eq!(c.content.as_deref(), Some("c"));
    assert_eq!(c.actor.as_deref(), Some("human"));
    let c = kb_change(None, None, vec!["t".into()], Some(1), vec![2], "agent:x");
    assert_eq!(c.tags, Some(vec!["t".to_string()]));
    assert_eq!(c.supersedes, Some(vec![2]));
    assert_eq!(c.related_task, Some(1));
}

#[test]
fn fuzzy_search_is_a_subsequence_in_any_case() {
    assert!(fuzzy_match("checkout", "Fix the checkout crash"));
    assert!(fuzzy_match("fxchk", "Fix the checkout crash"));
    assert!(fuzzy_match("FXC", "fix the crash"));
    assert!(fuzzy_match("", "anything"));
    assert!(!fuzzy_match("hcf", "Fix the checkout"));
    assert!(is_subsequence("ac", "abc"));
    assert!(!is_subsequence("aa", "abc"));
    assert!(!is_subsequence("A", "abc"));
}

#[test]
fn searches_filter_by_every_criterion() {
    let mut a = task(1, "Fix the checkout crash");
    a.priority = Priority::High;
    a.labels = vec!["bug".into()];
    let mut b = task(2, "Write the landing page");
    b.status = TaskStatus::Started;
    let all = vec![a, b];
    let ids = |f: &TaskFilter| -> Vec<i64> { find_tasks(&all, f).iter().map(|t| t.id).collect() };
    assert_eq!(ids(&filter(None)), vec![1, 2]);
    assert_eq!(ids(&filter(Some("fxchk"))), vec![1]);
    let mut f = filter(None);
    f.priority = Some(Priority::High);
    assert_eq!(ids(&f), vec![1]);
    let mut f = filter(None);
    f.label = Some("bug".into());
    assert_eq!(ids(&f), vec![1]);
    f.label = Some("bu".into());
    assert!(ids(&f).is_empty());
    let mut f = filter(Some("the"));
    f.status = Some(TaskStatus::Started);
    assert_eq!(ids(&f), vec![2]);
}

#[test]
fn config_fields_are_set_and_read_back() {
    let mut c = config();
    for field in ["name", "description", "goal", "git_repo", "branch_template"] {
        set_config_field(&mut c, field, " v ").unwrap();
        assert_eq!(get_config_field(&c, field, None).unwrap(), " v ");
    }
    assert_eq!(
        get_config_field(&c, "git_integration", None).unwrap(),
        "auto (legacy default)"
    );
    set_config_field(&mut c, "git_integration", " off ").unwrap();
    assert_eq!(get_config_field(&c, "git_integration", None).unwrap(), "off");
    set_config_field(&mut c, "links", " a, ,b ,").unwrap();
    assert_eq!(c.links, vec!["a", "b"]);
    assert_eq!(get_config_field(&c, "links", None).unwrap(), "a,b");
    assert_eq!(
        set_config_field(&mut c, "color", "x").unwrap_err().message,
        "unknown config field: color"
    );
    assert!(set_config_field(&mut c, "git_integration", "on").is_err());
    assert_eq!(c.git_integration, Some(GitIntegration::Off));
    assert_eq!(
        get_config_field(&c, "color", None).unwrap_err().message,
        "unknown config field: color"
    );
    assert_eq!(get_config_field(&c, "color", Some("e".into())).unwrap(), "e");
}

#[test]
fn config_values_have_origins() {
    let mut c = config();
    c.goal = Some("g".into());
    let got = config_origins(&c, &vec!["links".to_string()]);
    let want = ["local", "default", "local", "default", "default", "default", "env"];
    for (i, field) in CONFIG_FIELDS.iter().enumerate() {
        assert_eq!(got[i].0, *field);
        assert_eq!(got[i].1, want[i], "{field}");
    }
    c.git_integration = Some(GitIntegration::Off);
    assert_eq!(field_origin(&c, "git_integration", false), "local");
    assert_eq!(field_origin(&c, "unknown", false), "default");
}

#[test]
fn cli_actor_flag_overrides_session_environment() {
    let s = |x: &str| Some(x.to_string());
    assert_eq!(resolve_actor(None, None).unwrap(), "human");
    assert_eq!(resolve_actor(None, s("agent:session")).unwrap(), "agent:session");
    assert_eq!(
        resolve_actor(s("agent:override"), s("agent:session")).unwrap(),
        "agent:override"
    );
    for bad in ["agent:", "agent:  ", "robot", ""] {
        let e = resolve_actor(s(bad), None).unwrap_err();
        assert!(e.message.contains("actor must be"), "{}", e.message);
    }
}

#[test]
fn commands_need_a_project() {
    assert_eq!(require_project(Context::Project("/w".into())).unwrap(), "/w");
    assert!(require_project(Context::Workspace("/w".into())).is_err());
    assert_eq!(
        require_destination(Context::Project("/w".into())).unwrap(),
        "/w"
    );
    assert!(require_destination(Context::Workspace("/w".into())).is_err());
    assert_eq!(kind_of_context(&Context::Project("/w".into())), "project");
    assert_eq!(kind_of_context(&Context::Workspace("/w".into())), "workspace");
}

#[test]
fn actions_report_status_blocks_and_new_diagnostics() {
    let mut t = task(4, "t");
    let d = |m: &str| GitDiagnostic {
        operation: "branch".into(),
        message: m.into(),
        at: T0.into(),
    };
    t.git_diagnostics = vec![d("old"), d("new")];
    assert_eq!(
        action_text(4, &t, 1),
        "task 4 -> open\ngit integration (branch): new\n"
    );
    assert_eq!(action_text(4, &t, 9), "task 4 -> open\n");
    t.blocked = true;
    t.block_reason = Some("hardware".into());
    assert_eq!(action_text(4, &t, 2), "task 4 is blocked: hardware\n");
    t.block_reason = None;
    assert_eq!(action_text(4, &t, 2), "task 4 is blocked: no reason\n");
}

#[test]
fn commits_are_verified_before_they_are_linked() {
    assert_eq!(commit_link("HEAD", true, "abc\n").unwrap(), "commit:abc");
    assert_eq!(
        commit_link("missing-ref", false, "").unwrap_err().message,
        "commit 'missing-ref' not found in this repository"
    );
}

#[test]
fn long_texts_are_paged() {
    let lines = |n: usize| "x\n".repeat(n);
    assert!(!needs_pager(""));
    assert!(!needs_pager(&lines(20)));
    assert!(needs_pager(&lines(21)));
    assert!(needs_pager(&format!("{}x", lines(20))));
    assert!(!needs_pager(&format!("{}x", lines(19))));
    assert_eq!(pager_of(Some("more".into())), "more");
    assert_eq!(pager_of(Some("".into())), "less");
    assert_eq!(pager_of(None), "less");
}

#[test]
fn new_tasks_carry_their_fields() {
    let n = NewTask {
        title: "t".into(),
        description: "d".into(),
        priority: Priority::Low,
        labels: vec!["l".into()],
        estimate_points: Some(1),
        estimate_hours: Some("2".into()),
        deadline: None,
        links: vec!["x".into()],
        acceptance: vec!["a".into()],
        context: "c".into(),
        assignee: Some("me".into()),
        parent_id: Some(1),
        epic_id: Some(2),
        milestone_id: Some(3),
        depends_on: vec![8],
    };
    let t = new_task_at(5, n, "agent:x", T0);
    assert_eq!(t.id, 5);
    assert_eq!(t.status, TaskStatus::Open);
    assert_eq!(t.priority, Priority::Low);
    assert_eq!(t.actor.as_deref(), Some("agent:x"));
    assert_eq!(t.depends_on, vec![8]);
    assert_eq!(t.created_at, T0);
    assert_eq!(t.context, "c");
    assert_eq!((t.parent_id, t.epic_id, t.milestone_id), (Some(1), Some(2), Some(3)));
}

#[test]
fn projects_are_listed_with_their_figures() {
    let mut a = task(1, "a");
    a.status = TaskStatus::Started;
    let all = vec![a, task(2, "b")];
    assert_eq!(project_figures(&all), (2, 1));
    let j = project_json("demo", "/w/demo", &all);
    assert_eq!(j.get("name").unwrap().as_text(), Some("demo"));
    let counts = j.get("counts").unwrap();
    assert!(matches!(counts.get("started"), Some(Json::Integer(1))));
    assert_eq!(service::count_status(&all, TaskStatus::Closed), 0);
    assert_eq!(current_branch(true, "main\n").as_deref(), Some("main"));
    assert_eq!(current_branch(true, "\n"), None);
}

#[test]
fn detail_says_unmet_exactly_for_unmet_dependencies() {
    let made = |id: i64, status: TaskStatus| {
        let mut t = Task::new_at(id, format!("t{id}"), String::new(), "2026-01-01T00:00:00+00:00");
        t.status = status;
        t
    };
    let mut t = made(9, TaskStatus::Open);
    t.depends_on = vec![1, 2, 3, 4, 7];
    let all = vec![
        made(1, TaskStatus::Closed),
        made(2, TaskStatus::Cancelled),
        made(3, TaskStatus::Started),
        made(4, TaskStatus::Closed),
        t.clone(),
    ];
    let unmet = service::unmet_dependencies(&all, &t);
    assert_eq!(unmet, vec![2, 3, 7]);
    let out = format_task_detail(&t, &all);
    for d in &t.depends_on {
        let line = out
            .lines()
            .find(|l| l.starts_with(&format!("  - #{d} (")))
            .unwrap();
        assert_eq!(line.contains("UNMET"), unmet.contains(d), "{line}");
    }
    assert!(out.contains("  - #1 (closed)\n"), "{out}");
    assert!(out.contains("  - #7 (missing) — UNMET\n"), "{out}");
}
