use jay::json::Json;
use jay::knowledge::CurrentSummary;
use jay::mcp::{
    added_status_json, agent_actor, agent_command, agent_reply, build_prompt, check_set_current,
    is_current_summary, parse_mode, parse_priority, promote_idea, target_root,
};
use jay::model::{KnowledgeEntry, KnowledgeKind, Priority, Task};
use jay::project::{Context, ProjectConfig};
use jay::service::ReportMode;

#[test]
fn optional_arguments_have_defaults() {
    assert_eq!(parse_priority(None).unwrap(), Priority::Medium);
    assert_eq!(parse_priority(Some("0")).unwrap(), Priority::Highest);
    assert!(parse_priority(Some("x")).is_err());
    assert_eq!(parse_mode(None).unwrap(), ReportMode::Replace);
    assert_eq!(parse_mode(Some("append")).unwrap(), ReportMode::Append);
    assert!(parse_mode(Some("x")).is_err());
    assert_eq!(agent_actor(None), "agent:agent");
    assert_eq!(agent_actor(Some("codex")), "agent:codex");
}

#[test]
fn requests_resolve_to_a_project() {
    let p = || Some(Context::Project("/w".into()));
    assert_eq!(target_root(p(), None).unwrap(), "/w");
    assert_eq!(target_root(p(), Some("x")).unwrap(), "/w");
    assert_eq!(
        target_root(Some(Context::Workspace("/w".into())), None)
            .unwrap_err()
            .message,
        "the MCP server's cwd is not a jay project folder"
    );
    assert_eq!(
        target_root(None, Some("x")).unwrap_err().message,
        "x is not a jay project folder"
    );
}

#[test]
fn ideas_are_promoted_by_index() {
    let mut t = Task::new(1, "t".into(), String::new());
    t.report_ideas = vec!["a".into(), "b".into()];
    assert_eq!(promote_idea(&t, 1).unwrap(), "b");
    assert_eq!(
        promote_idea(&t, 2).unwrap_err().message,
        "idea index 2 out of range"
    );
    assert_eq!(
        promote_idea(&t, -1).unwrap_err().message,
        "idea index -1 out of range"
    );
}

#[test]
fn prompts_carry_the_contract() {
    let mut t = Task::new(7, "Deliver".into(), "what".into());
    t.acceptance = vec!["x".into(), "y".into()];
    let c = ProjectConfig {
        name: "demo".into(),
        description: "d".into(),
        goal: None,
        git_repo: None,
        branch_template: None,
        git_integration: None,
        links: Vec::new(),
    };
    let p = build_prompt(&t, &c);
    assert!(p.contains("Project: demo — d\n\nTASK (id 7): Deliver\n\nwhat\n\nStatus: open\nAcceptance criteria:\n- x\n- y\nContext:\n(none)\n\nInstructions"), "{p}");
    assert!(p.contains("\ncomplete_task(id=7, result=..., "), "{p}");
    assert!(p.ends_with("6. Keep artifacts in English."), "{p}");
    t.acceptance.clear();
    t.context = "why".into();
    let p = build_prompt(&t, &c);
    assert!(p.contains("Acceptance criteria:\n(none)\nContext:\nwhy\n"), "{p}");
}

#[test]
fn sub_agents_are_commands_with_the_prompt_last() {
    assert_eq!(
        agent_command(None, "p").unwrap(),
        vec!["dsh", "--profile", "headless", "p"]
    );
    assert_eq!(
        agent_command(Some("  my agent\t-x "), "p q").unwrap(),
        vec!["my", "agent", "-x", "p q"]
    );
    assert_eq!(
        agent_command(Some("  "), "p").unwrap_err().message,
        "empty command"
    );
    assert_eq!(
        agent_reply(Some(3), "o", "e"),
        "exit=3\nstdout:\no\nstderr:\ne"
    );
    assert_eq!(agent_reply(None, "", ""), "exit=-1\nstdout:\n\nstderr:\n");
}

#[test]
fn the_designated_summary_is_marked() {
    let e = KnowledgeEntry::new(4, KnowledgeKind::Status, "s".into(), "c".into());
    let n = KnowledgeEntry::new(4, KnowledgeKind::Note, "n".into(), "c".into());
    assert!(is_current_summary(Some(4), &e));
    assert!(!is_current_summary(Some(4), &n));
    assert!(!is_current_summary(Some(5), &e));
    assert!(!is_current_summary(None, &e));
    let j = added_status_json(
        &e,
        &Some(CurrentSummary {
            entry_id: 4,
            set_at: "t".into(),
            set_by: "human".into(),
            commit: None,
        }),
    );
    let cs = j.get("current_summary").unwrap();
    assert!(matches!(cs.get("entry_id"), Some(Json::Integer(4))));
    assert!(matches!(
        added_status_json(&e, &None).get("current_summary"),
        Some(Json::Null)
    ));
    assert!(check_set_current(KnowledgeKind::Decision, true).is_err());
    assert!(check_set_current(KnowledgeKind::Decision, false).is_ok());
}
