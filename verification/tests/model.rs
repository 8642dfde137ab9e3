use jay::diag::{cmp_ts, parse_ts, Timestamp};
use jay::model::{
    is_integration_link, KnowledgeEntry, KnowledgeKind, LifecycleCtx, Priority, Task, TaskAction,
    TaskStatus, Times,
};

fn ctx(reason: Option<&str>) -> LifecycleCtx {
    LifecycleCtx::new("tester", reason)
}

fn closed_task_with_evidence() -> Task {
    let mut t = Task::new(1, "t".into(), "d".into());
    t.apply(TaskAction::Start, &ctx(None)).unwrap();
    t.apply(TaskAction::Review, &ctx(None)).unwrap();
    t.report_result = Some("cycle-1 result".into());
    t.report_validation = Some("cycle-1 validation".into());
    t.report_problems = vec!["p1".into()];
    t.report_ideas = vec!["i1".into()];
    t.report_decisions = vec!["d1".into()];
    t.links = vec![
        "branch:feat/1-t".into(),
        "http://forge/o/r/pulls/5".into(),
        "https://docs.example.com/manual".into(),
    ];
    t.apply(TaskAction::Done, &ctx(None)).unwrap();
    t
}

#[test]
fn priority_parses_names_and_numeric_rank() {
    assert_eq!("highest".parse::<Priority>().unwrap(), Priority::Highest);
    assert_eq!("0".parse::<Priority>().unwrap(), Priority::Highest);
    assert_eq!("1".parse::<Priority>().unwrap(), Priority::High);
    assert_eq!("2".parse::<Priority>().unwrap(), Priority::Medium);
    assert_eq!("3".parse::<Priority>().unwrap(), Priority::Low);
    assert_eq!("4".parse::<Priority>().unwrap(), Priority::Lowest);
    assert_eq!(" high ".parse::<Priority>().unwrap(), Priority::High);
    assert!("urgent".parse::<Priority>().is_err());
}

#[test]
fn unknown_names_are_refused_with_a_message() {
    assert_eq!(
        Priority::parse(" urgent ").unwrap_err().message,
        "unknown priority: urgent (use highest|high|medium|low|lowest, or 0..4)"
    );
    assert_eq!(
        TaskStatus::parse("done").unwrap_err().message,
        "unknown task status: done"
    );
    assert_eq!(
        TaskAction::parse("finish").unwrap_err().message,
        "unknown action: finish"
    );
    assert_eq!(
        KnowledgeKind::parse("idea").unwrap_err().message,
        "unknown knowledge kind: idea (use decision|status|note)"
    );
}

#[test]
fn every_name_reads_back() {
    for s in TaskStatus::ALL {
        assert_eq!(TaskStatus::parse(s.as_str()).unwrap(), s);
    }
    for p in Priority::ALL {
        assert_eq!(Priority::parse(p.as_str()).unwrap(), p);
    }
    for k in KnowledgeKind::ALL {
        assert_eq!(KnowledgeKind::parse(k.as_str()).unwrap(), k);
    }
    for a in ["start", "review", "done", "rewind", "cancel", "reopen", "block", "unblock"] {
        assert_eq!(TaskAction::parse(a).unwrap().as_str(), a);
    }
}

#[test]
fn ranks_follow_urgency() {
    let ranks: Vec<i32> = Priority::ALL.iter().map(|p| p.rank()).collect();
    assert_eq!(ranks, vec![0, 1, 2, 3, 4]);
}

#[test]
fn state_machine_enforces_order() {
    let mut t = Task::new(1, "t".into(), "d".into());
    assert_eq!(t.status, TaskStatus::Open);

    // start requires open
    assert!(t
        .apply(TaskAction::Done, &LifecycleCtx::new("test", None))
        .is_err());
    t.apply(TaskAction::Start, &LifecycleCtx::new("test", None))
        .unwrap();
    assert_eq!(t.status, TaskStatus::Started);
    assert!(t.started_at.is_some());

    // review requires started
    t.apply(TaskAction::Review, &LifecycleCtx::new("test", None))
        .unwrap();
    assert_eq!(t.status, TaskStatus::Review);

    // done requires review AND completion evidence
    assert!(t
        .apply(TaskAction::Done, &LifecycleCtx::new("test", None))
        .is_err());
    t.report_result = Some("implemented".into());
    assert!(t
        .apply(TaskAction::Done, &LifecycleCtx::new("test", None))
        .is_err());
    t.report_validation = Some("tests pass".into());
    t.apply(TaskAction::Done, &LifecycleCtx::new("test", None))
        .unwrap();
    assert_eq!(t.status, TaskStatus::Closed);
    assert!(t.done_at.is_some());

    // closed is terminal
    assert!(t
        .apply(TaskAction::Rewind, &LifecycleCtx::new("test", None))
        .is_err());
    assert!(t
        .apply(TaskAction::Cancel, &LifecycleCtx::new("test", None))
        .is_err());
}

#[test]
fn rewind_goes_one_step_back() {
    let mut t = Task::new(1, "t".into(), "d".into());
    t.apply(TaskAction::Start, &LifecycleCtx::new("test", None))
        .unwrap();
    t.apply(TaskAction::Review, &LifecycleCtx::new("test", None))
        .unwrap();
    t.apply(TaskAction::Rewind, &LifecycleCtx::new("test", None))
        .unwrap();
    assert_eq!(t.status, TaskStatus::Started);
    t.apply(TaskAction::Rewind, &LifecycleCtx::new("test", None))
        .unwrap();
    assert_eq!(t.status, TaskStatus::Open);
    assert!(t
        .apply(TaskAction::Rewind, &LifecycleCtx::new("test", None))
        .is_err()); // open can't rewind
}

#[test]
fn block_blocks_transitions_and_unblock_releases() {
    let mut t = Task::new(1, "t".into(), "d".into());
    t.apply(TaskAction::Start, &LifecycleCtx::new("test", None))
        .unwrap();
    t.apply(
        TaskAction::Block,
        &LifecycleCtx::new("test", Some("waiting on hardware")),
    )
    .unwrap();
    assert!(t.blocked);
    assert_eq!(t.block_reason.as_deref(), Some("waiting on hardware"));
    // blocked: can't transition
    assert!(t
        .apply(TaskAction::Review, &LifecycleCtx::new("test", None))
        .is_err());
    t.apply(TaskAction::Unblock, &LifecycleCtx::new("test", None))
        .unwrap();
    assert!(!t.blocked);
    t.apply(TaskAction::Review, &LifecycleCtx::new("test", None))
        .unwrap();
    assert_eq!(t.status, TaskStatus::Review);
}

#[test]
fn cancel_then_reopen() {
    let mut t = Task::new(1, "t".into(), "d".into());
    t.apply(TaskAction::Start, &LifecycleCtx::new("test", None))
        .unwrap();
    t.apply(TaskAction::Cancel, &LifecycleCtx::new("test", None))
        .unwrap();
    assert_eq!(t.status, TaskStatus::Cancelled);
    assert!(t
        .apply(TaskAction::Done, &LifecycleCtx::new("test", None))
        .is_err()); // cancelled can't close directly
    t.apply(TaskAction::Reopen, &LifecycleCtx::new("test", None))
        .unwrap();
    assert_eq!(t.status, TaskStatus::Open);
}

#[test]
fn knowledge_kind_parses_names_and_aliases() {
    assert_eq!(
        "decision".parse::<KnowledgeKind>().unwrap(),
        KnowledgeKind::Decision
    );
    assert_eq!(
        "decisions".parse::<KnowledgeKind>().unwrap(),
        KnowledgeKind::Decision
    );
    assert_eq!(
        "status".parse::<KnowledgeKind>().unwrap(),
        KnowledgeKind::Status
    );
    assert_eq!(
        "note".parse::<KnowledgeKind>().unwrap(),
        KnowledgeKind::Note
    );
    assert_eq!(
        "notes".parse::<KnowledgeKind>().unwrap(),
        KnowledgeKind::Note
    );
    assert!("unknown".parse::<KnowledgeKind>().is_err());
}

#[test]
fn knowledge_kind_filenames() {
    assert_eq!(KnowledgeKind::Decision.filename(), "decisions.toml");
    assert_eq!(KnowledgeKind::Status.filename(), "status.toml");
    assert_eq!(KnowledgeKind::Note.filename(), "notes.toml");
}

#[test]
fn reopen_closed_requires_nonblank_reason() {
    let mut t = closed_task_with_evidence();
    assert!(t.apply(TaskAction::Reopen, &ctx(None)).is_err());
    assert!(t.apply(TaskAction::Reopen, &ctx(Some("  "))).is_err());
    assert_eq!(t.status, TaskStatus::Closed);
    t.apply(TaskAction::Reopen, &ctx(Some("review found a regression")))
        .unwrap();
    assert_eq!(t.status, TaskStatus::Open);
}

#[test]
fn reopen_preserves_prior_cycle_and_requires_fresh_evidence() {
    let mut t = closed_task_with_evidence();
    let prior_done = t.done_at.clone().unwrap();
    t.apply(TaskAction::Reopen, &ctx(Some("fix review findings")))
        .unwrap();

    // active cycle cleared
    assert!(t.started_at.is_none());
    assert!(t.done_at.is_none());
    assert!(t.report_result.is_none());
    assert!(t.report_validation.is_none());
    // other report sections and metadata preserved
    assert_eq!(t.report_problems, vec!["p1"]);
    assert_eq!(t.report_ideas, vec!["i1"]);
    assert_eq!(t.report_decisions, vec!["d1"]);
    // manual links stay; integration links move to the snapshot
    assert_eq!(t.links, vec!["https://docs.example.com/manual"]);

    // history holds the prior completion timestamp and report snapshot
    let ev = t.history.last().unwrap();
    assert_eq!(ev.from, Some(TaskStatus::Closed));
    assert_eq!(ev.to, TaskStatus::Open);
    assert_eq!(ev.actor, "tester");
    assert_eq!(ev.reason.as_deref(), Some("fix review findings"));
    assert_eq!(ev.prior_done_at.as_deref(), Some(prior_done.as_str()));
    let snap = ev.prior_report.as_ref().unwrap();
    assert_eq!(snap.result.as_deref(), Some("cycle-1 result"));
    assert_eq!(snap.validation.as_deref(), Some("cycle-1 validation"));
    assert_eq!(
        snap.links,
        vec!["branch:feat/1-t", "http://forge/o/r/pulls/5"]
    );
    assert!(parse_ts(&ev.at).is_some());
    assert!(
        matches!(parse_ts(&ev.at).unwrap(), Timestamp::Offset(_)),
        "history timestamps carry an offset"
    );

    // reclosing without fresh evidence fails
    t.apply(TaskAction::Start, &ctx(None)).unwrap();
    assert!(t.started_at.is_some());
    t.apply(TaskAction::Review, &ctx(None)).unwrap();
    assert!(t.apply(TaskAction::Done, &ctx(None)).is_err());
    t.report_result = Some("cycle-2 result".into());
    t.report_validation = Some("cycle-2 validation".into());
    t.apply(TaskAction::Done, &ctx(None)).unwrap();
    assert_eq!(t.report_result.as_deref(), Some("cycle-2 result"));
    assert_ne!(t.done_at.as_deref(), Some(prior_done.as_str()));
}

#[test]
fn full_cycle_history_is_ordered_and_complete() {
    let mut t = closed_task_with_evidence();
    t.apply(TaskAction::Reopen, &ctx(Some("reopen"))).unwrap();
    t.apply(TaskAction::Start, &ctx(None)).unwrap();
    t.apply(TaskAction::Review, &ctx(None)).unwrap();
    t.report_result = Some("r2".into());
    t.report_validation = Some("v2".into());
    t.apply(TaskAction::Done, &ctx(None)).unwrap();

    let transitions: Vec<(TaskStatus, TaskStatus)> =
        t.history.iter().map(|e| (e.from.unwrap(), e.to)).collect();
    assert_eq!(
        transitions,
        vec![
            (TaskStatus::Open, TaskStatus::Started),
            (TaskStatus::Started, TaskStatus::Review),
            (TaskStatus::Review, TaskStatus::Closed),
            (TaskStatus::Closed, TaskStatus::Open),
            (TaskStatus::Open, TaskStatus::Started),
            (TaskStatus::Started, TaskStatus::Review),
            (TaskStatus::Review, TaskStatus::Closed),
        ]
    );
    // only the reopen event carries a prior-cycle snapshot
    assert_eq!(
        t.history
            .iter()
            .filter(|e| e.prior_report.is_some())
            .count(),
        1
    );
    // timestamps are ordered
    let times: Vec<_> = t.history.iter().map(|e| parse_ts(&e.at).unwrap()).collect();
    for w in times.windows(2) {
        assert!(!matches!(
            cmp_ts(&w[0], &w[1]),
            Some(std::cmp::Ordering::Greater)
        ));
    }
}

#[test]
fn cancelled_reopen_stays_compatible() {
    let mut t = Task::new(1, "t".into(), "d".into());
    t.apply(TaskAction::Start, &ctx(None)).unwrap();
    t.apply(TaskAction::Cancel, &ctx(Some("descoped"))).unwrap();
    assert_eq!(t.status, TaskStatus::Cancelled);
    // reason optional for cancelled
    t.apply(TaskAction::Reopen, &ctx(None)).unwrap();
    assert_eq!(t.status, TaskStatus::Open);
    assert!(t.started_at.is_none(), "fresh cycle after reopen");
    assert_eq!(t.history.len(), 3); // start, cancel, reopen
}

#[test]
fn refused_actions_change_nothing_and_say_why() {
    let times = Times::all_at("2026-01-01T00:00:00+00:00");
    let mut t = Task::new_at(1, "t".into(), "d".into(), "2025-01-01T00:00:00+00:00");
    let e = t
        .apply_at(TaskAction::Review, &ctx(None), &times)
        .unwrap_err();
    assert!(e.message.contains("started"), "{}", e.message);
    assert!(t.history.is_empty());
    assert_eq!(t.updated_at, "2025-01-01T00:00:00+00:00");
    t.apply_at(TaskAction::Start, &ctx(None), &times).unwrap();
    t.apply_at(TaskAction::Review, &ctx(None), &times).unwrap();
    let e = t
        .apply_at(TaskAction::Done, &ctx(None), &times)
        .unwrap_err();
    assert!(e.message.contains("evidence"), "{}", e.message);
    t.apply_at(TaskAction::Block, &ctx(None), &times).unwrap();
    let e = t
        .apply_at(TaskAction::Rewind, &ctx(None), &times)
        .unwrap_err();
    assert!(e.message.contains("blocked"), "{}", e.message);
    assert_eq!(t.status, TaskStatus::Review);
}

#[test]
fn given_times_are_recorded() {
    let times = Times {
        cycle: "2026-01-01T00:00:01+00:00".into(),
        event: "2026-01-01T00:00:02+00:00".into(),
        updated: "2026-01-01T00:00:03+00:00".into(),
    };
    let mut t = Task::new_at(3, "t".into(), "d".into(), "2025-01-01T00:00:00+00:00");
    t.apply_at(TaskAction::Start, &ctx(Some("go")), &times)
        .unwrap();
    assert_eq!(t.created_at, "2025-01-01T00:00:00+00:00");
    assert_eq!(t.started_at.as_deref(), Some("2026-01-01T00:00:01+00:00"));
    assert_eq!(t.history[0].at, "2026-01-01T00:00:02+00:00");
    assert_eq!(t.history[0].reason.as_deref(), Some("go"));
    assert_eq!(t.updated_at, "2026-01-01T00:00:03+00:00");
    t.apply_at(TaskAction::Rewind, &ctx(None), &times).unwrap();
    assert_eq!(t.status, TaskStatus::Open);
    assert!(t.started_at.is_some());
    assert_eq!(t.history.len(), 2);
}

#[test]
fn integration_links_are_recognised() {
    for l in [
        "branch:feat/x",
        "pr:feat/x",
        "commit:abc",
        "https://forge/o/r/pulls/3",
    ] {
        assert!(is_integration_link(l), "{l}");
    }
    for l in ["https://docs.example.com", "notes", "branches:x"] {
        assert!(!is_integration_link(l), "{l}");
    }
}

#[test]
fn terminal_statuses() {
    let terminal: Vec<bool> = TaskStatus::ALL.iter().map(|s| s.is_terminal()).collect();
    assert_eq!(terminal, vec![false, false, false, true, false]);
}

#[test]
fn fresh_entries_carry_one_timestamp() {
    let e = KnowledgeEntry::new(4, KnowledgeKind::Note, "n".into(), "c".into());
    assert_eq!(e.id, 4);
    assert_eq!(e.created_at, e.updated_at);
    assert!(matches!(parse_ts(&e.created_at), Some(Timestamp::Offset(_))));
    assert!(e.tags.is_empty() && e.supersedes.is_empty());
}

#[test]
fn times_of_now_carry_an_offset() {
    let t = Times::now();
    for s in [&t.cycle, &t.event, &t.updated] {
        assert!(s.len() >= 25, "{s}");
        assert_eq!(&s[10..11], "T", "{s}");
        assert_eq!(&s[s.len() - 3..s.len() - 2], ":", "{s}");
        assert!(matches!(parse_ts(s), Some(Timestamp::Offset(_))), "{s}");
    }
}

#[test]
fn statuses_and_actions_read_from_text() {
    for s in ["open", "started", "review", "closed", "cancelled"] {
        assert_eq!(
            s.parse::<TaskStatus>().map_err(|e| e.message),
            TaskStatus::parse(s).map_err(|e| e.message)
        );
        assert_eq!(s.parse::<TaskStatus>().unwrap().as_str(), s);
    }
    assert_eq!(
        "gone".parse::<TaskStatus>().unwrap_err().message,
        TaskStatus::parse("gone").unwrap_err().message
    );
    assert_eq!("start".parse::<TaskAction>().unwrap(), TaskAction::Start);
    assert_eq!(
        "fly".parse::<TaskAction>().unwrap_err().message,
        TaskAction::parse("fly").unwrap_err().message
    );
}
