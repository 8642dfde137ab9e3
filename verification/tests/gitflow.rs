use jay::error::Error;
use jay::gitflow::{
    auto_branch, auto_pr, branch_name_for, branch_record, git_failure, has_pr_link, local_git_dir,
    pr_body, pr_record, record_git, render_branch_name, slug_of, slugify, BranchStep, GitRecord,
    PrStep, NO_CLIENT,
};
use jay::model::{LifecycleCtx, Task, TaskAction, TaskStatus};
use jay::project::{GitIntegration, ProjectConfig};

const AT: &str = "2026-01-01T00:00:00+00:00";

fn config() -> ProjectConfig {
    ProjectConfig {
        name: "demo".into(),
        description: String::new(),
        goal: None,
        git_repo: None,
        branch_template: None,
        git_integration: None,
        links: Vec::new(),
    }
}

#[test]
fn slugify_lowercases_and_dashes() {
    assert_eq!(slugify("Fix the Bug!!"), "fix-the-bug");
    assert_eq!(slugify("  Hello World  "), "hello-world");
    assert_eq!(slugify(""), "");
}

#[test]
fn slugs_hold_ascii_words_only() {
    assert_eq!(slugify("--a  b__c--"), "a-b-c");
    assert_eq!(slugify("Ünïcode 2 x"), "n-code-2-x");
    assert_eq!(slug_of("a.b"), "a-b");
    assert_eq!(slug_of("..."), "");
}

#[test]
fn render_branch_name_substitutes_placeholders() {
    let out = render_branch_name("feature/{task-id}-{slug}", "demo", 42, "fix-bug");
    assert_eq!(out, "feature/42-fix-bug");
    assert_eq!(
        render_branch_name("{project}/{task_id}/{slug}/{slug}", "demo", -7, "s"),
        "demo/-7/s/s"
    );
}

#[test]
fn branch_name_requires_template() {
    let mut cfg = config();
    let task = Task::new(1, "Fix bug".into(), "".into());
    assert!(branch_name_for(&cfg, &task).is_none());
    cfg.branch_template = Some("feat/{task-id}-{slug}".into());
    assert_eq!(branch_name_for(&cfg, &task).unwrap(), "feat/1-fix-bug");
    cfg.branch_template = Some("  ".into());
    assert!(branch_name_for(&cfg, &task).is_none());
}

#[test]
fn reopening_uses_new_branches_and_keeps_prior_links_in_history() {
    let mut cfg = config();
    cfg.branch_template = Some("feat/{task-id}".into());
    let ctx = LifecycleCtx::new("t", Some("again"));
    let mut t = Task::new(3, "x".into(), "".into());
    t.links = vec!["branch:feat/3".into()];
    let cycle = |t: &mut Task| {
        t.apply(TaskAction::Start, &ctx).unwrap();
        t.apply(TaskAction::Review, &ctx).unwrap();
        t.report_result = Some("r".into());
        t.report_validation = Some("v".into());
        t.apply(TaskAction::Done, &ctx).unwrap();
        t.apply(TaskAction::Reopen, &ctx).unwrap();
    };
    cycle(&mut t);
    assert_eq!(branch_name_for(&cfg, &t).unwrap(), "feat/3-cycle-2");
    assert!(t.links.is_empty());
    assert_eq!(
        t.history.last().unwrap().prior_report.as_ref().unwrap().links,
        vec!["branch:feat/3"]
    );
    cycle(&mut t);
    assert_eq!(branch_name_for(&cfg, &t).unwrap(), "feat/3-cycle-3");
}

#[test]
fn auto_mode_failed_branch_creation_records_diagnostic_without_link() {
    let mut cfg = config();
    cfg.git_integration = Some(GitIntegration::Auto);
    cfg.branch_template = Some("feat/{task-id}-{slug}".into());
    let mut t = Task::new(1, "Fix bug".into(), "".into());
    t.apply(TaskAction::Start, &LifecycleCtx::new("human", None))
        .unwrap();
    // the folder is not a git repository
    let step = auto_branch(&cfg, &t, false);
    let rec = match step {
        BranchStep::Record(r) => r,
        other => panic!("{other:?}"),
    };
    let t = record_git(t, "branch", &rec, AT, AT).unwrap();
    assert_eq!(t.status, TaskStatus::Started);
    assert!(t.links.is_empty(), "no branch link when creation failed");
    assert_eq!(t.git_diagnostics.len(), 1);
    assert_eq!(t.git_diagnostics[0].operation, "branch");
    assert_eq!(
        t.git_diagnostics[0].message,
        "project folder is not a git repository"
    );
    assert!(
        t.report_problems.is_empty(),
        "diagnostics stay out of the report"
    );
}

#[test]
fn auto_mode_branch_created_in_disposable_repo_records_link() {
    let mut cfg = config();
    cfg.branch_template = Some("feat/{task-id}-{slug}".into());
    let t = Task::new(1, "Fix bug".into(), "".into());
    assert_eq!(
        auto_branch(&cfg, &t, true),
        BranchStep::Create("feat/1-fix-bug".into())
    );
    let rec = branch_record("feat/1-fix-bug", Ok(()));
    let t = record_git(t, "branch", &rec, AT, AT).unwrap();
    assert_eq!(t.links, vec!["branch:feat/1-fix-bug"]);
    assert!(t.git_diagnostics.is_empty());
}

#[test]
fn branch_failures_and_missing_templates_are_recorded() {
    let t = Task::new(1, "Fix bug".into(), "".into());
    assert_eq!(
        auto_branch(&config(), &t, true),
        BranchStep::Record(GitRecord::Diagnostic(
            "no branch_template configured; branch not created".into()
        ))
    );
    let args = vec!["checkout".to_string(), "-b".into(), "x".into()];
    let failure = git_failure(&args, "  exists\n");
    assert_eq!(failure, "git checkout -b x failed: exists");
    assert_eq!(
        branch_record("x", Err(failure)),
        GitRecord::Diagnostic("branch creation failed: git checkout -b x failed: exists".into())
    );
}

#[test]
fn auto_mode_pr_failure_is_visible_separately_from_report() {
    let mut cfg = config();
    cfg.git_repo = Some("git@host:o/rep.git".into());
    let mut t = Task::new(1, "Fix bug".into(), "".into());
    t.status = TaskStatus::Review;
    t.links = vec!["branch:feat/1-fix-bug".into()];
    let rec = match auto_pr(&cfg, &t, false) {
        PrStep::Record(r) => r,
        other => panic!("{other:?}"),
    };
    assert_eq!(rec, GitRecord::Diagnostic(NO_CLIENT.into()));
    let t = record_git(t, "pr", &rec, AT, AT).unwrap();
    assert_eq!(t.status, TaskStatus::Review);
    assert!(t.report_problems.is_empty());
    assert_eq!(t.git_diagnostics.len(), 1);
    assert_eq!(t.git_diagnostics[0].operation, "pr");
    // no placeholder pr: link is recorded on failure
    assert!(!t.links.iter().any(|l| l.starts_with("pr:")));
}

#[test]
fn pull_requests_need_a_branch_a_repo_and_a_client() {
    let mut cfg = config();
    let mut t = Task::new(1, "t".into(), "".into());
    let note = |m: &str| PrStep::Record(GitRecord::Diagnostic(m.into()));
    assert_eq!(
        auto_pr(&cfg, &t, true),
        note("no branch link recorded; cannot open PR")
    );
    t.links = vec!["docs".into(), "branch:feat/1".into(), "branch:other".into()];
    assert_eq!(
        auto_pr(&cfg, &t, true),
        note("no git_repo configured; cannot open PR")
    );
    cfg.git_repo = Some("/local/checkout".into());
    assert_eq!(auto_pr(&cfg, &t, true), PrStep::Record(GitRecord::Nothing));
    cfg.git_repo = Some("justrepo".into());
    assert_eq!(
        auto_pr(&cfg, &t, true),
        note("cannot parse git_repo 'justrepo' into owner/repo")
    );
    cfg.git_repo = Some("git@host:o/rep.git".into());
    assert_eq!(
        auto_pr(&cfg, &t, true),
        PrStep::Open {
            branch: "feat/1".into(),
            owner: "o".into(),
            repo: "rep".into()
        }
    );
    t.links.push("https://h/o/rep/pulls/4".into());
    assert_eq!(auto_pr(&cfg, &t, true), PrStep::Record(GitRecord::Nothing));
}

#[test]
fn pull_request_results_become_links_or_diagnostics() {
    assert_eq!(
        pr_record(Ok("https://h/o/r/pulls/1".into())),
        GitRecord::Link("https://h/o/r/pulls/1".into())
    );
    assert_eq!(
        pr_record(Err(Error::fixed("POST x"))),
        GitRecord::Diagnostic("PR creation failed: POST x".into())
    );
    let t = Task::new(1, "t".into(), "".into());
    let same = record_git(t.clone(), "pr", &GitRecord::Nothing, AT, AT).unwrap();
    assert_eq!(format!("{t:?}"), format!("{same:?}"));
}

#[test]
fn pr_links_and_local_repositories() {
    assert!(has_pr_link(&vec!["pr:x".into()]));
    assert!(has_pr_link(&vec!["a".into(), "http://h/o/r/pulls/1".into()]));
    assert!(!has_pr_link(&vec!["branch:x".into()]));
    for r in ["/a", "./a", "../a", "~/a", "~\\a"] {
        assert!(local_git_dir(Some(r)), "{r}");
    }
    assert!(!local_git_dir(Some("git@host:o/r")));
    assert!(!local_git_dir(None));
}

#[test]
fn pr_body_lists_acceptance_criteria() {
    let mut t = Task::new(9, "t".into(), "does it".into());
    t.acceptance = vec!["one".into(), "two".into()];
    assert_eq!(
        pr_body(&t),
        "does it\n\nAcceptance criteria:\n- one\n- two\n\njay task #9\n"
    );
    let t = Task::new(9, "t".into(), "".into());
    assert_eq!(pr_body(&t), "\njay task #9\n");
}

#[test]
fn a_slug_is_its_own_slug() {
    for title in [
        "Add Login -- page!",
        "  --Ünïcode ÀÉ 42--  ",
        "ALL CAPS",
        "already-a-slug-1",
        "İstanbul Straße",
        "***",
        "",
    ] {
        let once = slugify(title);
        assert_eq!(slugify(&once), once, "{title}");
        assert_eq!(
            once.is_empty(),
            !title.to_lowercase().chars().any(|c| c.is_ascii_alphanumeric()),
            "{title}"
        );
    }
    assert_eq!(slugify("already-a-slug-1"), "already-a-slug-1");
    assert_eq!(slugify("漢字 !?"), "");
}
