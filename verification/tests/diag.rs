use jay::cli::{doctor_code, doctor_json, doctor_text, finding_counts, repair_text};
use jay::clock::Instant;
use jay::diag::{
    backup_path, cmp_ts, inspect, is_after, is_toml_name, migrate_text, parse_ts, pick_timestamp,
    repair, repair_stamp, repair_targets, task_file_names, ConfigSource, FileRead, Finding,
    KbSource, MilestonesSource, ProjectFiles, Severity, TaskSource, Timestamp,
};
use jay::json::Json;
use jay::knowledge::{CurrentSummary, EntriesFile};
use jay::model::{
    KnowledgeEntry, KnowledgeKind, Milestone, Priority, Task, TaskStatus,
};
use jay::project::{GitIntegration, ProjectConfig};

fn opt_str(v: &toml::Value, name: &str) -> Option<String> {
    v.get(name).and_then(|x| x.as_str()).map(String::from)
}

fn strs(v: &toml::Value, name: &str) -> Vec<String> {
    v.get(name)
        .and_then(|x| x.as_array())
        .map(|a| {
            a.iter()
                .filter_map(|x| x.as_str())
                .map(String::from)
                .collect()
        })
        .unwrap_or_default()
}

/// The task record of a file's text.
fn task_of(text: &str) -> Result<Task, String> {
    let v: toml::Value = toml::from_str(text).map_err(|e| e.to_string())?;
    let id = v.get("id").and_then(|x| x.as_integer()).ok_or("no id")?;
    let title = opt_str(&v, "title").ok_or("no title")?;
    let mut t = Task::new(id, title, opt_str(&v, "description").unwrap_or_default());
    t.status = TaskStatus::parse(&opt_str(&v, "status").ok_or("no status")?)
        .map_err(|e| e.message)?;
    t.priority =
        Priority::parse(&opt_str(&v, "priority").ok_or("no priority")?).map_err(|e| e.message)?;
    t.labels = strs(&v, "labels");
    t.acceptance = strs(&v, "acceptance");
    t.report_result = opt_str(&v, "report_result");
    t.report_validation = opt_str(&v, "report_validation");
    t.actor = opt_str(&v, "actor");
    t.created_at = opt_str(&v, "created_at").ok_or("no created_at")?;
    t.started_at = opt_str(&v, "started_at");
    t.done_at = opt_str(&v, "done_at");
    t.updated_at = opt_str(&v, "updated_at").ok_or("no updated_at")?;
    t.depends_on = v
        .get("depends_on")
        .and_then(|x| x.as_array())
        .map(|a| a.iter().filter_map(|x| x.as_integer()).collect())
        .unwrap_or_default();
    Ok(t)
}

fn source(name: &str, text: &str) -> TaskSource {
    TaskSource {
        name: name.into(),
        read: FileRead::Text(text.into()),
        record: task_of(text),
    }
}

fn record(name: &str, t: &Task) -> TaskSource {
    TaskSource {
        name: name.into(),
        read: FileRead::Text(format!("id = {}\n", t.id)),
        record: Ok(t.clone()),
    }
}

fn project(tasks: Vec<TaskSource>) -> ProjectFiles {
    ProjectFiles {
        config: ConfigSource {
            has_config: true,
            has_tasks: true,
            has_git: false,
            text: Some("name = \"p\"\ndescription = \"\"\ngit_integration = \"off\"\n".into()),
            record: Ok(ProjectConfig {
                name: "p".into(),
                description: String::new(),
                goal: None,
                git_repo: None,
                branch_template: None,
                git_integration: Some(GitIntegration::Off),
                links: Vec::new(),
            }),
        },
        milestones: MilestonesSource {
            read: FileRead::Text("# milestones\n".into()),
            record: Ok(Vec::new()),
        },
        tasks,
        kb: Vec::new(),
    }
}

fn codes(f: &[Finding]) -> Vec<&'static str> {
    f.iter().map(|x| x.code).collect()
}

const FUTURE: &str = r#"id = 2
title = "Compare configurations across many seeds"
description = "Future work."
status = "open"
blocked = false
acceptance = []
context = ""
priority = "medium"
labels = ["future"]
links = []
report_problems = []
report_ideas = []
report_decisions = []
created_at = "2026-09-11T01:28:29"
actor = "human"
updated_at = "2026-09-11T01:28:29"
"#;

const LEGACY: &str = r#"id = 17
title = "Model waveform families"
description = "d"
status = "closed"
blocked = false
acceptance = ["a"]
context = ""
priority = "medium"
labels = []
links = []
report_problems = []
report_ideas = []
report_decisions = []
created_at = "2026-09-12T15:08:43"
actor = "agent"
updated_at = "2026-09-13T18:45:00"
closed_at = "2026-09-13T18:45:00Z"
"#;

#[test]
fn clean_project_has_no_findings() {
    let t = Task::new(1, "open idea".into(), "someday".into());
    let f = inspect(project(vec![record("1.toml", &t)]));
    assert!(f.is_empty(), "unexpected findings: {f:?}");
}

#[test]
fn ordinary_future_task_is_valid() {
    // open, empty acceptance, no completion evidence
    let f = inspect(project(vec![source("2.toml", FUTURE)]));
    assert!(f.is_empty(), "unexpected findings: {f:?}");
}

#[test]
fn siggen_style_malformed_closure_produces_all_findings() {
    // closed with closed_at instead of done_at and missing result/validation
    let f = inspect(project(vec![source("17.toml", LEGACY)]));
    let codes = codes(&f);
    assert!(codes.contains(&"task.legacy_closed_at"), "{codes:?}");
    assert!(codes.contains(&"task.closed_missing_done_at"), "{codes:?}");
    assert!(codes.contains(&"task.closed_missing_result"), "{codes:?}");
    assert!(
        codes.contains(&"task.closed_missing_validation"),
        "{codes:?}"
    );
    // unknown-field noise must NOT include the recognized legacy field
    assert!(!f
        .iter()
        .any(|x| x.code == "value.unknown_field" && x.field.as_deref() == Some("closed_at")));
}

#[test]
fn malformed_task_does_not_hide_later_files() {
    let mut t = Task::new(2, "closed without evidence".into(), "".into());
    t.status = TaskStatus::Closed;
    let f = inspect(project(vec![
        source("1.toml", "this is not toml {{{"),
        record("2.toml", &t),
    ]));
    assert!(f.iter().any(|x| x.file.ends_with("1.toml")));
    let codes = codes(&f);
    assert!(codes.contains(&"task.parse_error"));
    assert!(codes.contains(&"task.closed_missing_done_at"));
    assert!(codes.contains(&"task.closed_missing_result"));
}

#[test]
fn repair_dry_run_changes_no_bytes_and_apply_migrates_with_backup() {
    let text = format!("{LEGACY}future_field = \"preserved\"\n");
    let before = inspect(project(vec![source("17.toml", &text)]));

    // dry run: proposes, changes nothing
    let rep = repair(false, &before, &before, Vec::new());
    assert_eq!(rep.proposed.len(), 1);
    assert!(!rep.applied);
    assert!(rep.backups.is_empty());
    assert_eq!(repair_targets(&before), vec![".nest/tasks/17.toml"]);

    // apply: migrates closed_at -> done_at, preserves unknown data, backs up
    let after_text = migrate_text(&text).unwrap().unwrap();
    assert!(after_text.contains("done_at = \"2026-09-13T18:45:00Z\""));
    assert!(!after_text.contains("closed_at"));
    assert!(after_text.contains("future_field = \"preserved\""));
    let after = inspect(project(vec![source("17.toml", &after_text)]));
    let backup = backup_path("20260913-184500", ".nest/tasks/17.toml");
    assert_eq!(
        backup,
        ".nest/backups/repair-20260913-184500/.nest/tasks/17.toml"
    );
    let rep = repair(true, &before, &after, vec![backup]);
    assert!(rep.applied);
    assert_eq!(rep.backups.len(), 1);

    // idempotent: second run proposes nothing
    assert!(repair_targets(&after).is_empty());
    assert!(migrate_text(&after_text).unwrap().is_none());

    // remaining unresolved findings still reported (missing result/validation)
    assert!(codes(&rep.unresolved).contains(&"task.closed_missing_result"));
    assert!(!codes(&rep.unresolved).contains(&"task.closed_missing_done_at"));
}

#[test]
fn conflicting_closed_at_is_an_error_and_untouched() {
    let text = r#"id = 1
title = "t"
description = "d"
status = "closed"
blocked = false
acceptance = []
context = ""
priority = "medium"
labels = []
links = []
report_problems = []
report_ideas = []
report_decisions = []
report_result = "r"
report_validation = "v"
created_at = "2026-09-12T15:08:43"
updated_at = "2026-09-13T18:45:00"
done_at = "2026-09-13T10:00:00Z"
closed_at = "2026-09-13T18:45:00Z"
"#;
    let f = inspect(project(vec![source("1.toml", text)]));
    assert!(codes(&f).contains(&"task.closed_at_conflict"), "{f:?}");
    assert!(repair(true, &f, &f, Vec::new()).proposed.is_empty());
    assert!(repair_targets(&f).is_empty());
}

#[test]
fn equivalent_closed_at_is_dropped_on_repair() {
    let text = r#"id = 1
title = "t"
description = "d"
status = "closed"
blocked = false
acceptance = []
context = ""
priority = "medium"
labels = []
links = []
report_problems = []
report_ideas = []
report_decisions = []
report_result = "r"
report_validation = "v"
created_at = "2026-09-12T15:08:43"
updated_at = "2026-09-13T18:45:00"
done_at = "2026-09-13T18:45:00"
closed_at = "2026-09-13T18:45:00"
"#;
    let f = inspect(project(vec![source("1.toml", text)]));
    assert_eq!(repair(false, &f, &f, Vec::new()).proposed.len(), 1);
    let after = migrate_text(text).unwrap().unwrap();
    assert!(after.contains("done_at"));
    assert!(!after.contains("closed_at"));
    let g = inspect(project(vec![source("1.toml", &after)]));
    assert!(repair(true, &g, &g, Vec::new()).proposed.is_empty());
    // malformed files are never rewritten
    assert!(migrate_text("not toml {{{").unwrap().is_none());
}

#[test]
fn filename_id_mismatch_and_dangling_refs_detected() {
    let mut t = Task::new(5, "wrong file".into(), "".into());
    t.parent_id = Some(99);
    t.milestone_id = Some(7);
    let f = inspect(project(vec![record("6.toml", &t)]));
    let codes = codes(&f);
    assert!(codes.contains(&"task.filename_id_mismatch"), "{codes:?}");
    assert_eq!(
        codes.iter().filter(|c| **c == "task.dangling_ref").count(),
        2
    );
}

#[test]
fn timestamp_validation_and_ordering() {
    assert!(parse_ts("2026-09-13T18:45:00Z").is_some());
    assert!(parse_ts("2026-09-13T18:45:00+02:00").is_some());
    assert!(parse_ts("2026-09-13T18:45:00").is_some());
    assert!(parse_ts("yesterday").is_none());
    // naive vs offset are never compared
    let a = parse_ts("2026-09-13T18:45:00").unwrap();
    let b = parse_ts("2026-09-13T18:45:00Z").unwrap();
    assert_eq!(cmp_ts(&a, &b), None);

    let mut t = Task::new(1, "t".into(), "".into());
    t.created_at = "2026-09-13T10:00:00".into();
    t.started_at = Some("2026-09-12T10:00:00".into());
    t.updated_at = "not-a-time".into();
    let f = inspect(project(vec![record("1.toml", &t)]));
    let codes = codes(&f);
    assert!(codes.contains(&"value.timestamp_order"), "{codes:?}");
    assert!(codes.contains(&"value.invalid_timestamp"), "{codes:?}");
}

#[test]
fn timestamps_are_compared_as_instants() {
    let a = parse_ts("2026-09-13T18:45:00+02:00").unwrap();
    let b = parse_ts("2026-09-13T16:45:00Z").unwrap();
    assert_eq!(cmp_ts(&a, &b), Some(std::cmp::Ordering::Equal));
    let c = parse_ts("2026-09-13T16:45:00.5Z").unwrap();
    assert_eq!(cmp_ts(&b, &c), Some(std::cmp::Ordering::Less));
    assert!(is_after(&c, &b));
    assert!(!is_after(&b, &c));
    let i = Instant { secs: 1, nanos: 0 };
    assert_eq!(pick_timestamp(Some(i), None), Some(Timestamp::Offset(i)));
    assert_eq!(pick_timestamp(None, Some(i)), Some(Timestamp::Naive(i)));
    assert_eq!(pick_timestamp(None, None), None);
}

#[test]
fn unknown_fields_warned_not_errors() {
    let text = format!("{FUTURE}schema_version = 99\n");
    let f = inspect(project(vec![source("2.toml", &text)]));
    let unk: Vec<&Finding> = f
        .iter()
        .filter(|x| x.code == "value.unknown_field")
        .collect();
    assert_eq!(unk.len(), 1);
    assert_eq!(unk[0].severity, Severity::Warning);
    // and the task still loads for diagnosis
    assert!(f.iter().all(|x| x.code != "task.parse_error"));
}

#[test]
fn doctor_flags_dependency_problems_in_hand_edited_data() {
    // hand-edited cycle 1 -> 2 -> 1, and active dependent of open prereq
    let mut one = Task::new(1, "one".into(), "".into());
    one.status = TaskStatus::Started;
    one.started_at = Some(one.created_at.clone());
    one.depends_on = vec![2];
    let mut two = Task::new(2, "two".into(), "".into());
    two.depends_on = vec![1, 1, 99];
    let f = inspect(project(vec![record("1.toml", &one), record("2.toml", &two)]));
    let codes = codes(&f);
    assert!(codes.contains(&"task.dependency_cycle"), "{codes:?}");
    assert!(codes.contains(&"task.depends_on_duplicate"), "{codes:?}");
    assert!(codes.contains(&"task.depends_on_missing"), "{codes:?}");
    assert!(
        codes.contains(&"task.dependency_inconsistency"),
        "{codes:?}"
    );
}

#[test]
fn missing_layout_and_broken_config_are_findings() {
    let mut p = project(Vec::new());
    p.config.has_config = false;
    p.config.has_tasks = false;
    p.config.text = None;
    p.config.record = Err("no such file".into());
    let f = inspect(p);
    assert!(f.len() >= 2, "{f:?}");
    assert!(f.iter().all(|x| !x.message.is_empty() && !x.suggestion.is_empty()));

    let mut p = project(Vec::new());
    p.config.text = Some("name = {{{".into());
    p.config.record = Err("expected a value".into());
    let f = inspect(p);
    assert!(f.iter().any(|x| x.severity == Severity::Error), "{f:?}");
}

#[test]
fn unreadable_files_are_findings_too() {
    let mut p = project(vec![TaskSource {
        name: "1.toml".into(),
        read: FileRead::Unreadable("denied".into()),
        record: Err("denied".into()),
    }]);
    p.milestones = MilestonesSource {
        read: FileRead::Unreadable("denied".into()),
        record: Err("denied".into()),
    };
    let f = inspect(p);
    assert!(f.iter().any(|x| x.file == ".nest/tasks/1.toml"), "{f:?}");
    assert!(f.iter().any(|x| x.file == ".nest/milestones.toml"), "{f:?}");
}

#[test]
fn duplicate_milestones_are_findings() {
    let m = |id: i64| Milestone {
        id,
        name: format!("m{id}"),
        target_date: None,
        done_at: None,
        created_at: "2026-09-11T01:28:29".into(),
    };
    let mut p = project(Vec::new());
    p.milestones = MilestonesSource {
        read: FileRead::Text("[[milestones]]\nid = 1\n".into()),
        record: Ok(vec![m(1), m(1)]),
    };
    let f = inspect(p);
    assert!(f.iter().any(|x| x.code.starts_with("milestone")), "{f:?}");
}

fn kb(kind: KnowledgeKind, file: EntriesFile) -> KbSource {
    KbSource {
        kind,
        read: FileRead::Text(String::new()),
        record: Ok(file),
    }
}

#[test]
fn knowledge_base_problems_are_findings() {
    let mut old = KnowledgeEntry::new(1, KnowledgeKind::Status, "old".into(), "state".into());
    old.tags = vec!["current".into()];
    old.supersedes = vec![7];
    old.related_task = Some(40);
    let mut p = project(Vec::new());
    p.kb = vec![
        kb(
            KnowledgeKind::Status,
            EntriesFile {
                current_summary: Some(CurrentSummary {
                    entry_id: 42,
                    set_at: "2026-09-13T18:45:00Z".into(),
                    set_by: "human".into(),
                    commit: None,
                }),
                entries: vec![old],
            },
        ),
        KbSource {
            kind: KnowledgeKind::Note,
            read: FileRead::Text("oops {{{".into()),
            record: Err("expected".into()),
        },
    ];
    let f = inspect(p);
    let codes = codes(&f);
    assert!(codes.contains(&"kb.legacy_current_tag"), "{codes:?}");
    assert!(codes.contains(&"kb.current_summary_missing"), "{codes:?}");
    assert!(f.iter().any(|x| x.file == ".nest/kb/notes.toml"), "{f:?}");
    assert!(f.iter().filter(|x| x.file == ".nest/kb/status.toml").count() >= 3, "{f:?}");
}

#[test]
fn task_files_are_toml_files_in_name_order() {
    let names: Vec<String> = ["b.toml", "10.toml", "2.toml", "x.txt", ".toml", "a.TOML"]
        .iter()
        .map(|s| s.to_string())
        .collect();
    assert_eq!(task_file_names(&names), vec!["10.toml", "2.toml", "b.toml"]);
    assert!(is_toml_name("1.toml"));
    assert!(!is_toml_name(".toml"));
    assert!(!is_toml_name("toml"));
}

#[test]
fn warnings_alone_do_not_fail_doctor() {
    let text = format!("{FUTURE}schema_version = 99\n");
    let f = inspect(project(vec![source("2.toml", &text)]));
    let (errors, warnings) = finding_counts(&f);
    assert_eq!((errors, warnings), (0, 1));
    assert_eq!(doctor_code(errors), 0);
    let shown = doctor_text(&f, Some(GitIntegration::Off), true, &Some("main".into()));
    assert!(shown.starts_with("repo ok, branch: main\n"), "{shown}");
    assert!(shown.ends_with("0 error(s), 1 warning(s)\n"), "{shown}");
    assert!(!shown.contains("hint:"));

    let f = inspect(project(vec![source("17.toml", LEGACY)]));
    let (errors, _) = finding_counts(&f);
    assert!(errors > 0);
    assert_eq!(doctor_code(errors), 1);
    let shown = doctor_text(&f, None, false, &None);
    assert!(shown.contains("hint: run `jay repair`"), "{shown}");
    assert!(
        shown.contains("error[task.closed_missing_result] .nest/tasks/17.toml"),
        "{shown}"
    );
    let j = doctor_json(&f);
    assert!(matches!(j.get("ok"), Some(Json::Bool(false))));
    match j.get("findings") {
        Some(Json::Array(v)) => assert_eq!(v.len(), f.len()),
        other => panic!("{other:?}"),
    }
}

#[test]
fn clean_doctor_says_ok() {
    let none: Vec<Finding> = Vec::new();
    assert_eq!(doctor_text(&none, None, false, &None), "ok\n");
    assert_eq!(
        doctor_text(&none, Some(GitIntegration::Auto), false, &None),
        "note: git_integration is 'auto' but this folder is not a git repo\nok\n"
    );
    assert_eq!(
        doctor_text(&none, Some(GitIntegration::Off), true, &None),
        "repo present (no current branch / detached)\nok\n"
    );
}

#[test]
fn applied_repair_reports_only_remaining_errors() {
    let before = inspect(project(vec![source("17.toml", LEGACY)]));
    let after_text = migrate_text(LEGACY).unwrap().unwrap();
    let after = inspect(project(vec![source("17.toml", &after_text)]));
    let dry = repair(false, &before, &before, Vec::new());
    let shown = repair_text(&dry, false);
    assert!(
        shown.starts_with("proposed (dry run) [task.legacy_closed_at] .nest/tasks/17.toml: "),
        "{shown}"
    );
    assert!(shown.contains("re-run with --apply"), "{shown}");
    let done = repair(true, &before, &after, vec!["b".into()]);
    let shown = repair_text(&done, true);
    assert!(shown.starts_with("applied [task.legacy_closed_at]"), "{shown}");
    assert!(shown.contains("backup: b\n"), "{shown}");
    assert!(!shown.contains("closed_missing_done_at"), "{shown}");
    let clean = repair(false, &Vec::new(), &Vec::new(), Vec::new());
    assert_eq!(repair_text(&clean, false), "no repairable issues found\n");
}

#[test]
fn repair_stamps_name_a_time() {
    let s = repair_stamp();
    assert_eq!(s.len(), 15, "{s}");
    for (i, c) in s.chars().enumerate() {
        assert!(if i == 8 { c == '-' } else { c.is_ascii_digit() }, "{s}");
    }
}

const LEGACY_TASK_17: &str = r#"id = 17
title = "Model waveform families and capabilities"
description = "legacy closed record"
status = "closed"
blocked = false
acceptance = ["a"]
context = ""
priority = "medium"
labels = []
links = []
report_problems = []
report_ideas = []
report_decisions = ["d"]
created_at = "2026-09-12T15:08:43"
actor = "agent"
updated_at = "2026-09-13T18:45:00"
closed_at = "2026-09-13T18:45:00Z"
"#;

fn legacy_status() -> EntriesFile {
    let mut one = KnowledgeEntry::new(
        1,
        KnowledgeKind::Status,
        "Current state (2026-08-29)".into(),
        "Functional generator; tests empty.".into(),
    );
    one.tags = vec!["current".into()];
    one.created_at = "2026-08-29T01:16:02".into();
    one.updated_at = "2026-08-29T01:16:02".into();
    let mut two = KnowledgeEntry::new(
        2,
        KnowledgeKind::Status,
        "Task #4 completed".into(),
        "Created sequential tasks. Local review; automatic branch/PR workflow unconfigured.".into(),
    );
    two.related_task = Some(4);
    two.created_at = "2026-09-12T14:26:07".into();
    two.updated_at = "2026-09-12T14:26:07".into();
    EntriesFile {
        current_summary: None,
        entries: vec![one, two],
    }
}

#[test]
fn legacy_records_readonly_diagnosis_and_safe_repair() {
    // a conflicting record: closed_at differs from done_at
    let conflicting = LEGACY_TASK_17
        .replace("id = 17", "id = 18")
        .replace(
            "closed_at = \"2026-09-13T18:45:00Z\"",
            "done_at = \"2026-09-13T10:00:00Z\"\nclosed_at = \"2026-09-13T18:45:00Z\"\nreport_result = \"r\"\nreport_validation = \"v\"",
        );
    // a malformed file that must not hide findings in later files
    let malformed = "status = ";
    let look = |text17: &str| {
        let mut p = project(vec![
            source("17.toml", text17),
            source("18.toml", &conflicting),
            source("19.toml", malformed),
        ]);
        p.kb = vec![kb(KnowledgeKind::Status, legacy_status())];
        inspect(p)
    };

    // doctor: exit 1, all problems visible
    let before = look(LEGACY_TASK_17);
    assert_eq!(doctor_code(finding_counts(&before).0), 1);
    let found = codes(&before);
    for code in [
        "task.legacy_closed_at",
        "task.closed_missing_done_at",
        "task.closed_missing_result",
        "task.closed_at_conflict",
        "task.parse_error",
        "kb.legacy_current_tag",
    ] {
        assert!(found.contains(&code), "{found:?}");
    }
    // contradictory tag is a warning, never an error
    let tag = before
        .iter()
        .find(|f| f.code == "kb.legacy_current_tag")
        .unwrap();
    assert_eq!(tag.severity, Severity::Warning);

    // repair dry run
    let rep = repair(false, &before, &before, Vec::new());
    let out = repair_text(&rep, false);
    assert!(out.contains("dry run"), "{out}");

    // apply: migrates 17, leaves the conflicting 18 and malformed 19 untouched, backs up
    assert_eq!(repair_targets(&before), vec![".nest/tasks/17.toml"]);
    let after17 = migrate_text(LEGACY_TASK_17).unwrap().unwrap();
    assert!(after17.contains("done_at = \"2026-09-13T18:45:00Z\""));
    assert!(!after17.contains("closed_at"));
    // no new fields invented on the repaired record
    assert!(!after17.contains("history"));
    assert!(!after17.contains("depends_on"));
    assert!(!after17.contains("report_result"), "evidence never fabricated");
    let after = look(&after17);
    let backup = backup_path("20260913-184500", ".nest/tasks/17.toml");
    let rep = repair(true, &before, &after, vec![backup]);
    let out = repair_text(&rep, true);
    assert!(out.contains("backup:"), "{out}");
    assert_eq!(migrate_text(malformed).unwrap(), None);

    // idempotent: second run proposes nothing
    assert!(repair_targets(&after).is_empty());
    let rep = repair(false, &after, &after, Vec::new());
    let out = repair_text(&rep, false);
    assert!(out.contains("no repairable issues"), "{out}");

    // unresolved errors remain visible and doctor still exits 1
    assert_eq!(doctor_code(finding_counts(&after).0), 1);
}

#[test]
fn repairing_a_whole_project_twice_changes_nothing_more() {
    let same = format!("{LEGACY_TASK_17}done_at = \"2026-09-13T18:45:00Z\"\n")
        .replace("id = 17", "id = 20");
    let other = LEGACY_TASK_17.replace("id = 17", "id = 18").replace(
        "closed_at = ",
        "done_at = \"2026-09-13T10:00:00Z\"\nclosed_at = ",
    );
    let mut texts = vec![
        ("17.toml", LEGACY_TASK_17.to_string()),
        ("18.toml", other),
        ("19.toml", "status = ".to_string()),
        ("20.toml", same),
    ];
    let look = |texts: &Vec<(&str, String)>| {
        inspect(project(texts.iter().map(|(n, t)| source(n, t)).collect()))
    };
    let before = look(&texts);
    let targets = repair_targets(&before);
    assert_eq!(targets, vec![".nest/tasks/17.toml", ".nest/tasks/20.toml"]);
    let untouched = (texts[1].1.clone(), texts[2].1.clone());
    for (name, text) in texts.iter_mut() {
        if targets.contains(&format!(".nest/tasks/{name}")) {
            *text = migrate_text(text).unwrap().unwrap();
        }
    }
    assert_eq!((texts[1].1.clone(), texts[2].1.clone()), untouched);
    let after = look(&texts);
    assert!(repair_targets(&after).is_empty());
    assert!(repair(true, &after, &after, Vec::new()).proposed.is_empty());
}
