use jay::diag::{
    inspect, ConfigSource, FileRead, Finding, MilestonesSource, ProjectFiles, TaskSource,
};
use jay::error::Error;
use jay::json::{read_json, Json};
use jay::cli::{doctor_code, finding_counts, resolve_actor, status_overview};
use jay::knowledge::{self, EntriesFile, PlacedEntry};
use jay::model::{KnowledgeEntry, KnowledgeKind, Priority, Task, TaskAction, TaskStatus};
use jay::project::{init_project, GitIntegration, ProjectConfig};
use jay::service::{
    self, git_step, parse_task_patch, project_context, ready_tasks, status_counts,
    write_task_preserving, GitStep, ReportMode, ReportUpdate, TaskReplace,
};
use jay::tasks;

/// The report sections in a JSON object.
fn sections(text: &str) -> ReportUpdate {
    let v: serde_json::Value = serde_json::from_str(text).unwrap();
    let one = |name: &str| v.get(name).and_then(|x| x.as_str()).map(String::from);
    let many = |name: &str| {
        v.get(name).and_then(|x| x.as_array()).map(|a| {
            a.iter()
                .map(|x| x.as_str().unwrap().to_string())
                .collect::<Vec<String>>()
        })
    };
    ReportUpdate {
        result: one("result"),
        validation: one("validation"),
        problems: many("problems"),
        ideas: many("ideas"),
        decisions: many("decisions"),
    }
}

/// A project in memory.
struct Proj {
    tasks: Vec<Task>,
    mode: GitIntegration,
}

impl Proj {
    fn new() -> Proj {
        Proj {
            tasks: Vec::new(),
            mode: GitIntegration::Off,
        }
    }

    fn next_id(&self) -> i64 {
        let names: Vec<String> = self
            .tasks
            .iter()
            .map(|t| format!("{}.toml", t.id))
            .collect();
        tasks::next_id(&names)
    }

    fn get(&self, id: i64) -> Task {
        self.tasks.iter().find(|t| t.id == id).unwrap().clone()
    }

    fn has(&self, id: i64) -> bool {
        self.tasks.iter().any(|t| t.id == id)
    }

    fn put(&mut self, t: Task) -> Task {
        self.tasks.retain(|x| x.id != t.id);
        self.tasks.push(t.clone());
        self.tasks = tasks::load_tasks(std::mem::take(&mut self.tasks));
        t
    }

    fn create(&mut self, t: Task) -> Result<Task, Error> {
        let t = service::create_task(t, &self.tasks)?;
        Ok(self.put(t))
    }

    fn apply(
        &mut self,
        id: i64,
        action: TaskAction,
        actor: &str,
        reason: Option<&str>,
    ) -> Result<Task, Error> {
        let t = service::apply_action(id, self.get(id), &self.tasks, action, actor, reason)?;
        Ok(self.put(t))
    }

    fn patch(&mut self, id: i64, text: &str) -> Result<Task, Error> {
        let patch = parse_task_patch(text)?;
        let t = service::patch_task(self.get(id), &self.tasks, patch, "human")?;
        Ok(self.put(t))
    }

    fn report(&mut self, id: i64, text: &str, mode: ReportMode) -> Result<Task, Error> {
        let u = sections(text);
        let t = service::update_report(self.get(id), &u, mode, "human")?;
        Ok(self.put(t))
    }

    fn section(&mut self, id: i64, section: &str, content: &str) -> Result<Task, Error> {
        let t = service::update_report_section_legacy(self.get(id), section, content, "human")?;
        Ok(self.put(t))
    }

    fn complete(&mut self, id: i64, text: &str, actor: &str) -> Result<Task, Error> {
        let u = sections(text);
        let t = service::complete_task(id, self.get(id), &u, actor, self.mode)?;
        Ok(self.put(t))
    }

    fn follow_up(&mut self, id: i64, title: &str) -> Result<Task, Error> {
        let t = service::create_follow_up(
            self.next_id(),
            id,
            self.has(id),
            title.into(),
            "desc".into(),
            "human",
            &self.tasks,
        )?;
        Ok(self.put(t))
    }

    fn move_to(&mut self, id: i64, dest: &mut Proj) -> Result<Task, Error> {
        let t = service::move_task(id, self.get(id), &self.tasks, dest.next_id(), "human")?;
        self.tasks.retain(|x| x.id != id);
        Ok(dest.put(t))
    }

    fn inspect(&self) -> Vec<Finding> {
        let config = ProjectConfig {
            name: "p".into(),
            description: String::new(),
            goal: None,
            git_repo: None,
            branch_template: None,
            git_integration: Some(self.mode),
            links: Vec::new(),
        };
        inspect(ProjectFiles {
            config: ConfigSource {
                has_config: true,
                has_tasks: true,
                has_git: false,
                text: Some("name = \"p\"\ndescription = \"\"\ngit_integration = \"off\"\n".into()),
                record: Ok(config),
            },
            milestones: MilestonesSource {
                read: FileRead::Missing,
                record: Ok(Vec::new()),
            },
            tasks: self
                .tasks
                .iter()
                .map(|t| TaskSource {
                    name: format!("{}.toml", t.id),
                    read: FileRead::Text(format!("id = {}\n", t.id)),
                    record: Ok(t.clone()),
                })
                .collect(),
            kb: Vec::new(),
        })
    }
}

fn seeded(p: &mut Proj) -> i64 {
    let mut t = Task::new(p.next_id(), "Seed task".into(), "seed desc".into());
    t.labels = vec!["keep".into()];
    t.estimate_points = Some(3);
    t.links = vec!["https://example.com".into()];
    t.assignee = Some("ronny".into());
    t.actor = Some("human".into());
    p.create(t).unwrap().id
}

fn task_with_deps(p: &mut Proj, title: &str, deps: Vec<i64>) -> Task {
    let mut t = Task::new(p.next_id(), title.into(), String::new());
    t.depends_on = deps;
    p.create(t).unwrap()
}

fn close(p: &mut Proj, id: i64) {
    p.apply(id, TaskAction::Start, "human", None).unwrap();
    p.apply(id, TaskAction::Review, "human", None).unwrap();
    p.complete(id, r#"{"result":"r","validation":"v"}"#, "human")
        .unwrap();
}

fn ids(v: &[Task]) -> Vec<i64> {
    v.iter().map(|t| t.id).collect()
}

#[test]
fn patch_only_description_preserves_everything_else() {
    let mut p = Proj::new();
    let id = seeded(&mut p);
    let t = p.patch(id, r#"{"description":"new desc"}"#).unwrap();
    assert_eq!(t.description, "new desc");
    assert_eq!(t.title, "Seed task");
    assert_eq!(t.labels, vec!["keep"]);
    assert_eq!(t.estimate_points, Some(3));
    assert_eq!(t.links, vec!["https://example.com"]);
    assert_eq!(t.assignee.as_deref(), Some("ronny"));
}

#[test]
fn patch_distinguishes_absent_null_and_empty_from_real_json() {
    let mut p = Proj::new();
    let id = seeded(&mut p);
    // explicit null clears a nullable field
    let t = p.patch(id, r#"{"assignee":null}"#).unwrap();
    assert_eq!(t.assignee, None);
    // empty list clears the list
    let t = p.patch(id, r#"{"labels":[]}"#).unwrap();
    assert!(t.labels.is_empty());
    // null for a required field is rejected at apply time
    assert!(p.patch(id, r#"{"title":null}"#).is_err());
    assert!(p.patch(id, r#"{"description":null}"#).is_err());
    // absent fields stay untouched
    let t = p.patch(id, r#"{"context":"ctx"}"#).unwrap();
    assert_eq!(t.title, "Seed task");
    assert_eq!(t.context, "ctx");
}

#[test]
fn patch_rejects_protected_and_unknown_fields() {
    let e = parse_task_patch(r#"{"status":"open"}"#).unwrap_err();
    assert!(e.message.contains("protected"), "{}", e.message);
    let e = parse_task_patch(r#"{"report_result":"x"}"#).unwrap_err();
    assert!(e.message.contains("protected"), "{}", e.message);
    let e = parse_task_patch(r#"{"done_at":"2026-01-01T00:00:00Z"}"#).unwrap_err();
    assert!(e.message.contains("protected"), "{}", e.message);
    assert!(parse_task_patch(r#"{"bogus_field":1}"#).is_err());
}

#[test]
fn patch_texts_that_are_no_patches() {
    let e = parse_task_patch("{").unwrap_err();
    assert!(e.message.starts_with("patch must be valid JSON"), "{}", e.message);
    assert!(parse_task_patch("[]").is_err());
    assert!(parse_task_patch(r#"{"labels":"one"}"#).is_err());
    assert!(parse_task_patch(r#"{"estimate_points":1.5}"#).is_err());
}

#[test]
fn patch_sets_every_editable_field() {
    let mut p = Proj::new();
    let other = seeded(&mut p);
    let id = seeded(&mut p);
    let t = p
        .patch(
            id,
            r#"{"title":"T","description":"D","acceptance":["a"],"context":"C","assignee":"me",
                "priority":"high","labels":["l"],"estimate_points":8,"estimate_hours":2.5,
                "deadline":"2026-09-01","links":["x"],"parent_id":1,"epic_id":2,
                "milestone_id":3,"depends_on":[1]}"#,
        )
        .unwrap();
    assert_eq!(t.title, "T");
    assert_eq!(t.description, "D");
    assert_eq!(t.acceptance, vec!["a"]);
    assert_eq!(t.context, "C");
    assert_eq!(t.assignee.as_deref(), Some("me"));
    assert_eq!(t.priority, Priority::High);
    assert_eq!(t.labels, vec!["l"]);
    assert_eq!(t.estimate_points, Some(8));
    assert_eq!(t.estimate_hours.as_deref(), Some("2.5"));
    assert_eq!(t.deadline.as_deref(), Some("2026-09-01"));
    assert_eq!(t.links, vec!["x"]);
    assert_eq!(t.parent_id, Some(1));
    assert_eq!(t.epic_id, Some(2));
    assert_eq!(t.milestone_id, Some(3));
    assert_eq!(t.depends_on, vec![other]);
}

#[test]
fn mutation_preserves_unknown_file_fields() {
    let old = "id = 1\ntitle = \"Seed task\"\ndescription = \"seed desc\"\nclosed_at = \"2026-09-13T18:45:00Z\"\nschema_version = 99\n";
    let new = "id = 1\ntitle = \"Seed task\"\ndescription = \"edited\"\n";
    let after = write_task_preserving(new, old).unwrap();
    assert!(after.contains("closed_at"), "legacy field must survive: {after}");
    assert!(
        after.contains("schema_version = 99"),
        "unknown field must survive: {after}"
    );
    assert!(after.contains("edited"));
    assert!(!after.contains("seed desc"));
    assert!(write_task_preserving(new, "not toml {{{").is_err());
}

#[test]
fn known_fields_that_were_cleared_stay_cleared() {
    let old = "id = 1\ntitle = \"t\"\ndescription = \"\"\nassignee = \"ronny\"\nkept = true\n";
    let new = "id = 1\ntitle = \"t\"\ndescription = \"\"\n";
    let after = write_task_preserving(new, old).unwrap();
    assert!(!after.contains("assignee"), "{after}");
    assert!(after.contains("kept = true"), "{after}");
}

#[test]
fn report_update_replace_and_append_typed() {
    let mut p = Proj::new();
    let id = seeded(&mut p);
    let t = p
        .report(
            id,
            r#"{"result":"first","problems":["p1"],"ideas":["i1"],"decisions":["d1"]}"#,
            ReportMode::Replace,
        )
        .unwrap();
    assert_eq!(t.report_result.as_deref(), Some("first"));
    assert_eq!(t.report_problems, vec!["p1"]);

    let t = p
        .report(
            id,
            r#"{"result":"second","problems":["p2"],"validation":"v"}"#,
            ReportMode::Append,
        )
        .unwrap();
    assert_eq!(t.report_result.as_deref(), Some("first\n\nsecond"));
    assert_eq!(t.report_problems, vec!["p1", "p2"]);
    assert_eq!(t.report_validation.as_deref(), Some("v"));
    // omitted sections (ideas/decisions) unchanged
    assert_eq!(t.report_ideas, vec!["i1"]);
    assert_eq!(t.report_decisions, vec!["d1"]);
}

#[test]
fn report_update_rejects_unknown_sections_and_empty_payload() {
    let mut p = Proj::new();
    let id = seeded(&mut p);
    assert!(p.section(id, "bogus", "x").is_err());
    let empty = ReportUpdate {
        result: None,
        validation: None,
        problems: None,
        ideas: None,
        decisions: None,
    };
    assert!(service::update_report(p.get(id), &empty, ReportMode::Replace, "human").is_err());
}

#[test]
fn report_modes_by_name() {
    assert_eq!(ReportMode::parse(" append ").unwrap(), ReportMode::Append);
    assert_eq!(ReportMode::parse("replace").unwrap(), ReportMode::Replace);
    assert_eq!(
        ReportMode::parse("merge").unwrap_err().message,
        "unknown report mode: merge (use replace|append)"
    );
}

#[test]
fn complete_task_saves_report_and_closes_atomically() {
    let mut p = Proj::new();
    let id = seeded(&mut p);
    p.apply(id, TaskAction::Start, "human", None).unwrap();
    p.apply(id, TaskAction::Review, "human", None).unwrap();
    let t = p
        .complete(
            id,
            r#"{"result":"delivered","validation":"tests pass","problems":[],"ideas":["later"],"decisions":[]}"#,
            "human",
        )
        .unwrap();
    assert_eq!(t.status, TaskStatus::Closed);
    assert_eq!(t.report_result.as_deref(), Some("delivered"));
    assert_eq!(t.report_validation.as_deref(), Some("tests pass"));
    assert_eq!(t.report_ideas, vec!["later"]);
    assert!(t.done_at.is_some());
}

#[test]
fn complete_task_requires_review_and_leaves_bytes_intact_on_failure() {
    let mut p = Proj::new();
    let id = seeded(&mut p);

    // not in review (open): refused, record unchanged
    let before = format!("{:?}", p.get(id));
    let e = p
        .complete(id, r#"{"result":"r","validation":"v"}"#, "human")
        .unwrap_err();
    assert!(e.message.contains("review"), "{}", e.message);
    assert_eq!(format!("{:?}", p.get(id)), before);

    // in review but missing evidence: refused, record unchanged
    p.apply(id, TaskAction::Start, "human", None).unwrap();
    p.apply(id, TaskAction::Review, "human", None).unwrap();
    let before = format!("{:?}", p.get(id));
    assert!(p
        .complete(id, r#"{"result":"only result"}"#, "human")
        .is_err());
    assert_eq!(format!("{:?}", p.get(id)), before);
    assert_eq!(p.get(id).status, TaskStatus::Review);
}

#[test]
fn cli_agent_actor_and_local_completion_are_recorded() {
    let mut p = Proj::new();
    let t = Task::new(p.next_id(), "Deliver feature".into(), String::new());
    let id = p.create(t).unwrap().id;
    p.apply(id, TaskAction::Start, "agent:codex", None).unwrap();
    let saved = p
        .complete(
            id,
            r#"{"result":"Delivered","validation":"Tests passed"}"#,
            "agent:codex",
        )
        .unwrap();
    assert_eq!(saved.status, TaskStatus::Closed);
    assert_eq!(saved.actor.as_deref(), Some("agent:codex"));
    assert_eq!(saved.history.len(), 3);
    assert_eq!(saved.history[1].to, TaskStatus::Review);
    assert_eq!(saved.history.first().unwrap().actor, "agent:codex");
    assert_eq!(saved.history.last().unwrap().actor, "agent:codex");
    assert_eq!(
        resolve_actor(Some("agent:codex".into()), None).unwrap(),
        "agent:codex"
    );

    let e = resolve_actor(Some("agent:".into()), None).unwrap_err();
    assert!(e.message.contains("actor must be"), "{}", e.message);
}

#[test]
fn completion_rejects_missing_evidence_without_changing_started_task() {
    let mut p = Proj::new();
    let id = seeded(&mut p);
    p.apply(id, TaskAction::Start, "agent:codex", None).unwrap();
    let before = format!("{:?}", p.get(id));
    assert!(p
        .complete(id, r#"{"result":"","validation":"passed"}"#, "agent:codex")
        .is_err());
    assert_eq!(format!("{:?}", p.get(id)), before);
}

#[test]
fn automatic_git_mode_still_requires_review_before_completion() {
    let mut p = Proj::new();
    let id = seeded(&mut p);
    p.apply(id, TaskAction::Start, "agent:codex", None).unwrap();
    p.mode = GitIntegration::Auto;
    let before = format!("{:?}", p.get(id));
    assert!(p
        .complete(
            id,
            r#"{"result":"done","validation":"passed"}"#,
            "agent:codex"
        )
        .is_err());
    assert_eq!(format!("{:?}", p.get(id)), before);
}

#[test]
fn linked_commit_is_verified_and_visible_after_completion() {
    let mut p = Proj::new();
    let id = seeded(&mut p);
    close(&mut p, id);
    let t = service::add_task_link(p.get(id), "commit:0123abc").unwrap();
    p.put(t);
    assert!(p.get(id).links.iter().any(|l| l.starts_with("commit:")));
    let reopened = p
        .apply(id, TaskAction::Reopen, "agent:codex", Some("follow-up fix"))
        .unwrap();
    assert!(!reopened.links.iter().any(|l| l.starts_with("commit:")));
    assert!(reopened
        .history
        .last()
        .unwrap()
        .prior_report
        .as_ref()
        .unwrap()
        .links
        .iter()
        .any(|l| l.starts_with("commit:")));
}

#[test]
fn done_action_also_requires_evidence() {
    let mut p = Proj::new();
    let id = seeded(&mut p);
    p.apply(id, TaskAction::Start, "human", None).unwrap();
    p.apply(id, TaskAction::Review, "human", None).unwrap();
    let e = p.apply(id, TaskAction::Done, "human", None).unwrap_err();
    assert!(e.message.contains("evidence"), "{}", e.message);
}

#[test]
fn legacy_report_section_api_keeps_replacement_semantics() {
    let mut p = Proj::new();
    let id = seeded(&mut p);
    let t = p.section(id, "result", "v1").unwrap();
    assert_eq!(t.report_result.as_deref(), Some("v1"));
    let t = p.section(id, "result", "v2").unwrap();
    assert_eq!(t.report_result.as_deref(), Some("v2"));
    // legacy quirk: JSON-array-encoded string becomes a list
    let t = p.section(id, "problems", r#"["a","b"]"#).unwrap();
    assert_eq!(t.report_problems, vec!["a", "b"]);
    let t = p.section(id, "ideas", "plain text").unwrap();
    assert_eq!(t.report_ideas, vec!["plain text"]);
    assert!(p.section(id, "bogus", "x").is_err());
}

#[test]
fn legacy_replace_task_replaces_all_editable_fields() {
    let mut p = Proj::new();
    let id = seeded(&mut p);
    let t = service::replace_task(
        p.get(id),
        TaskReplace {
            title: "Replaced".into(),
            description: String::new(),
            acceptance: Vec::new(),
            context: String::new(),
            assignee: None,
            priority: Priority::High,
            labels: Vec::new(),
            estimate_points: None,
            estimate_hours: None,
            deadline: None,
            links: Vec::new(),
            parent_id: None,
            epic_id: None,
            milestone_id: None,
        },
        "agent",
    )
    .unwrap();
    assert_eq!(t.title, "Replaced");
    assert!(t.labels.is_empty(), "legacy PUT clears omitted fields");
    assert_eq!(t.estimate_points, None);
    assert_eq!(t.priority, Priority::High);
}

#[test]
fn create_task_allocates_sequential_ids_under_lock() {
    let mut p = Proj::new();
    let t = Task::new(p.next_id(), "a".into(), String::new());
    let a = p.create(t).unwrap();
    let t = Task::new(p.next_id(), "b".into(), String::new());
    let b = p.create(t).unwrap();
    assert_eq!(a.id + 1, b.id);
    assert_eq!(p.tasks.len(), 2);
}

#[test]
fn move_task_preserves_unknown_fields_and_reassigns_id() {
    let mut src = Proj::new();
    let mut dst = Proj::new();
    let id = seeded(&mut src);
    let moved = src.move_to(id, &mut dst).unwrap();
    assert_eq!(moved.id, 1);
    assert!(!src.has(id));
    assert_eq!(moved.actor.as_deref(), Some("human"));
    let text = write_task_preserving(
        "id = 1\ntitle = \"Seed task\"\n",
        "id = 7\ntitle = \"Seed task\"\ncustom = \"kept\"\n",
    )
    .unwrap();
    assert!(text.contains("custom = \"kept\""), "{text}");
    assert!(text.contains("id = 1"), "{text}");
}

#[test]
fn validation_rejects_bad_records_before_write() {
    let mut p = Proj::new();
    let id = seeded(&mut p);
    let before = format!("{:?}", p.get(id));
    // blank title rejected
    assert!(p.patch(id, r#"{"title":"  "}"#).is_err());
    assert_eq!(format!("{:?}", p.get(id)), before);
}

#[test]
fn dependency_chain_gates_ready_and_start() {
    let mut p = Proj::new();
    let a = task_with_deps(&mut p, "a", vec![]);
    let b = task_with_deps(&mut p, "b", vec![a.id]);
    let c = task_with_deps(&mut p, "c", vec![b.id]);

    // only A is ready
    assert_eq!(ids(&ready_tasks(&p.tasks)), vec![a.id]);

    // starting B with unmet deps is refused with the relevant ids
    let e = p.apply(b.id, TaskAction::Start, "human", None).unwrap_err();
    assert!(e.message.contains(&format!("#{}", a.id)), "{}", e.message);

    // close A -> B ready; C still not
    close(&mut p, a.id);
    assert_eq!(ids(&ready_tasks(&p.tasks)), vec![b.id]);
    p.apply(b.id, TaskAction::Start, "human", None).unwrap();
    assert!(ready_tasks(&p.tasks).is_empty());
    let _ = c;
}

#[test]
fn cancelled_dependency_does_not_count_as_completed() {
    let mut p = Proj::new();
    let a = task_with_deps(&mut p, "a", vec![]);
    let b = task_with_deps(&mut p, "b", vec![a.id]);
    p.apply(a.id, TaskAction::Cancel, "human", None).unwrap();
    assert!(ready_tasks(&p.tasks).is_empty());
    let e = p.apply(b.id, TaskAction::Start, "human", None).unwrap_err();
    assert!(e.message.contains(&format!("#{}", a.id)), "{}", e.message);
    assert!(
        e.message.contains("cancelled does not count"),
        "{}",
        e.message
    );
}

#[test]
fn dependency_edges_reject_self_duplicate_missing_and_cycles() {
    let mut p = Proj::new();
    let a = task_with_deps(&mut p, "a", vec![]);
    let b = task_with_deps(&mut p, "b", vec![a.id]);

    // self dependency via patch
    assert!(p
        .patch(b.id, &format!(r#"{{"depends_on":[{}]}}"#, b.id))
        .is_err());
    // duplicate
    assert!(p
        .patch(b.id, &format!(r#"{{"depends_on":[{},{}]}}"#, a.id, a.id))
        .is_err());
    // missing
    assert!(p.patch(b.id, r#"{"depends_on":[999]}"#).is_err());
    // cycle: a -> b while b -> a
    let e = p
        .patch(a.id, &format!(r#"{{"depends_on":[{}]}}"#, b.id))
        .unwrap_err();
    assert!(e.message.contains("cycle"), "{}", e.message);
    // on create too
    let mut t = Task::new(p.next_id(), "loop".into(), String::new());
    t.depends_on = vec![t.id];
    let e = p.create(t).unwrap_err();
    assert!(e.message.contains("itself"), "{}", e.message);
}

#[test]
fn ready_sorts_by_priority_then_id() {
    let mut p = Proj::new();
    let mut t = Task::new(p.next_id(), "low".into(), String::new());
    t.priority = Priority::Low;
    let low = p.create(t).unwrap();
    let mut t = Task::new(p.next_id(), "high1".into(), String::new());
    t.priority = Priority::High;
    let high1 = p.create(t).unwrap();
    let mut t = Task::new(p.next_id(), "high0".into(), String::new());
    t.priority = Priority::High;
    let high0 = p.create(t).unwrap();
    assert_eq!(
        ids(&ready_tasks(&p.tasks)),
        vec![high1.id, high0.id, low.id]
    );
    let listed = service::sort_by_urgency(p.tasks.clone());
    assert_eq!(ids(&listed), vec![high1.id, high0.id, low.id]);
}

#[test]
fn manual_block_excludes_from_ready_without_touching_deps() {
    let mut p = Proj::new();
    let a = task_with_deps(&mut p, "a", vec![]);
    p.apply(a.id, TaskAction::Block, "human", Some("waiting"))
        .unwrap();
    assert!(ready_tasks(&p.tasks).is_empty());
    p.apply(a.id, TaskAction::Unblock, "human", None).unwrap();
    assert_eq!(ready_tasks(&p.tasks).len(), 1);
}

#[test]
fn cross_project_move_refused_while_dependency_edges_exist() {
    let mut src = Proj::new();
    let mut dst = Proj::new();
    let a = task_with_deps(&mut src, "a", vec![]);
    let b = task_with_deps(&mut src, "b", vec![a.id]);

    // outgoing edge
    let e = src.move_to(b.id, &mut dst).unwrap_err();
    assert!(e.message.contains("depend"), "{}", e.message);
    // incoming edge
    let e = src.move_to(a.id, &mut dst).unwrap_err();
    assert!(e.message.contains("depend"), "{}", e.message);
    // neither project modified
    assert!(src.has(a.id));
    assert!(src.has(b.id));
    assert!(dst.tasks.is_empty());

    // after explicitly removing the edge, the move succeeds
    src.patch(b.id, r#"{"depends_on":[]}"#).unwrap();
    let moved = src.move_to(b.id, &mut dst).unwrap();
    assert_eq!(moved.id, 1);
    assert!(!src.has(b.id));
}

#[test]
fn closed_reopen_without_reason_fails_with_reason_starts_fresh_cycle() {
    let mut p = Proj::new();
    let id = seeded(&mut p);
    close(&mut p, id);
    assert!(p.apply(id, TaskAction::Reopen, "human", None).is_err());
    let t = p
        .apply(id, TaskAction::Reopen, "human", Some("review fix"))
        .unwrap();
    assert_eq!(t.status, TaskStatus::Open);
    assert!(t.report_result.is_none());
    assert_eq!(
        t.history
            .last()
            .unwrap()
            .prior_report
            .as_ref()
            .unwrap()
            .result
            .as_deref(),
        Some("r")
    );
    // reclosing needs fresh evidence
    p.apply(id, TaskAction::Start, "human", None).unwrap();
    p.apply(id, TaskAction::Review, "human", None).unwrap();
    assert!(p
        .complete(id, r#"{"result":"  ","validation":"v"}"#, "human")
        .is_err());
    let t = p
        .complete(
            id,
            r#"{"result":"fresh","validation":"fresh v"}"#,
            "human",
        )
        .unwrap();
    assert_eq!(t.status, TaskStatus::Closed);
    assert_eq!(t.report_result.as_deref(), Some("fresh"));
    assert!(t.history.iter().any(|e| e.prior_report.is_some()));
}

#[test]
fn follow_up_leaves_original_unchanged() {
    let mut p = Proj::new();
    let id = seeded(&mut p);
    close(&mut p, id);
    let before = format!("{:?}", p.get(id));
    let fu = p.follow_up(id, "Polish edge cases").unwrap();
    assert_eq!(fu.follow_up_of, Some(id));
    assert_eq!(fu.status, TaskStatus::Open);
    assert!(fu.depends_on.is_empty(), "no implied dependency");
    // original closed task identical
    assert_eq!(format!("{:?}", p.get(id)), before);
    // blank title refused
    assert!(p.follow_up(id, " ").is_err());
    // missing original refused
    assert!(p.follow_up(999, "x").is_err());
}

#[test]
fn patches_cannot_touch_history_or_follow_up_links() {
    assert!(parse_task_patch(r#"{"history":[]}"#).is_err());
    assert!(parse_task_patch(r#"{"follow_up_of":1}"#).is_err());
}

#[test]
fn move_refused_while_follow_up_references_exist() {
    let mut src = Proj::new();
    let mut dst = Proj::new();
    let id = seeded(&mut src);
    let fu = src.follow_up(id, "fu").unwrap();
    // outgoing reference
    assert!(src.move_to(fu.id, &mut dst).is_err());
    // incoming reference
    assert!(src.move_to(id, &mut dst).is_err());
    // nothing moved
    assert!(src.has(id));
    assert!(dst.tasks.is_empty());
}

#[test]
fn reopened_prerequisite_flags_dependents_in_doctor_not_rewound() {
    let mut p = Proj::new();
    let a = task_with_deps(&mut p, "a", vec![]);
    let b = task_with_deps(&mut p, "b", vec![a.id]);
    close(&mut p, a.id);
    close(&mut p, b.id);
    // reopen the prerequisite: dependent b must NOT be rewound
    p.apply(a.id, TaskAction::Reopen, "human", Some("regression"))
        .unwrap();
    assert_eq!(p.get(b.id).status, TaskStatus::Closed);
    // doctor surfaces the inconsistency
    let f = p.inspect();
    assert!(
        f.iter().any(|x| x.code == "task.dependency_inconsistency"),
        "{f:?}"
    );
}

#[test]
fn off_mode_start_review_has_no_side_effects_or_noise() {
    let mut p = Proj::new();
    let mut t = Task::new(1, "Fix bug".into(), "".into());
    t.links = vec!["branch:feat/old".into()];
    p.put(t);
    assert_eq!(git_step(p.mode, TaskAction::Start), GitStep::Nothing);
    assert_eq!(git_step(p.mode, TaskAction::Review), GitStep::Nothing);
    p.apply(1, TaskAction::Start, "human", None).unwrap();
    p.apply(1, TaskAction::Review, "human", None).unwrap();
    let t = p.get(1);
    assert_eq!(t.status, TaskStatus::Review);
    // no new links, no diagnostics, no report problems
    assert_eq!(t.links, vec!["branch:feat/old"]);
    assert!(t.git_diagnostics.is_empty());
    assert!(t.report_problems.is_empty());
}

#[test]
fn automation_follows_start_and_review_alone() {
    let auto = GitIntegration::Auto;
    assert_eq!(git_step(auto, TaskAction::Start), GitStep::Branch);
    assert_eq!(git_step(auto, TaskAction::Review), GitStep::PullRequest);
    assert_eq!(git_step(auto, TaskAction::Done), GitStep::Nothing);
    assert_eq!(git_step(auto, TaskAction::Reopen), GitStep::Nothing);
}

#[test]
fn links_are_deduplicated() {
    let t = Task::new(1, "t".into(), String::new());
    let t = service::add_task_link(t, "x").unwrap();
    let t = service::add_task_link(t, "x").unwrap();
    assert_eq!(t.links, vec!["x"]);
}

fn member<'a>(j: &'a Json, name: &str) -> &'a Json {
    j.get(name).unwrap()
}

#[test]
fn project_context_lists_work_and_counts() {
    let mut p = Proj::new();
    let a = task_with_deps(&mut p, "a", vec![]);
    let b = task_with_deps(&mut p, "b", vec![a.id]);
    let c = task_with_deps(&mut p, "c", vec![]);
    p.apply(a.id, TaskAction::Start, "human", None).unwrap();
    p.apply(b.id, TaskAction::Block, "human", Some("hardware"))
        .unwrap();
    let config = ProjectConfig {
        name: "demo".into(),
        description: String::new(),
        goal: None,
        git_repo: None,
        branch_template: None,
        git_integration: None,
        links: Vec::new(),
    };
    let file = EntriesFile {
        current_summary: None,
        entries: Vec::new(),
    };
    let j = project_context(&config, "/w/demo", &p.tasks, &file, &Vec::new(), None);
    assert_eq!(member(&j, "project").as_text(), Some("demo"));
    assert_eq!(member(&j, "root").as_text(), Some("/w/demo"));
    assert_eq!(member(&j, "git_integration").as_text(), Some("off"));
    assert!(matches!(member(&j, "summary"), Json::Null));
    assert!(matches!(
        member(member(&j, "counts"), "open"),
        Json::Integer(2)
    ));
    assert!(member(&j, "counts").get("closed").is_none());
    match member(&j, "active") {
        Json::Array(v) => {
            assert_eq!(v.len(), 1);
            assert_eq!(v[0].get("title").unwrap().as_text(), Some("a"));
            assert_eq!(v[0].get("priority").unwrap().as_text(), Some("medium"));
        }
        other => panic!("{other:?}"),
    }
    match member(&j, "blocked") {
        Json::Array(v) => {
            assert_eq!(v.len(), 1);
            assert_eq!(v[0].get("block_reason").unwrap().as_text(), Some("hardware"));
        }
        other => panic!("{other:?}"),
    }
    match member(&j, "ready") {
        Json::Array(v) => {
            assert_eq!(v.len(), 1);
            assert!(matches!(v[0].get("id").unwrap(), Json::Integer(i) if *i == c.id));
        }
        other => panic!("{other:?}"),
    }
    assert_eq!(
        status_counts(&p.tasks),
        vec![(TaskStatus::Open, 2), (TaskStatus::Started, 1)]
    );
}

#[test]
fn hours_are_decimal_texts() {
    let mut p = Proj::new();
    let id = seeded(&mut p);
    for (given, kept) in [("3", "3"), ("1e2", "100"), ("0.10", "0.1"), ("100.0", "100")] {
        let t = p.patch(id, &format!(r#"{{"estimate_hours":{given}}}"#)).unwrap();
        assert_eq!(t.estimate_hours.as_deref(), Some(kept));
    }
}

#[test]
fn numbers_keep_their_decimal_text() {
    let j = read_json(r#"{"a":2.50,"b":3,"c":18446744073709551615}"#).unwrap();
    assert!(matches!(member(&j, "a"), Json::Real(s) if s == "2.5"));
    assert!(matches!(member(&j, "b"), Json::Integer(3)));
    assert!(matches!(member(&j, "c"), Json::Real(s) if s == "18446744073709551615"));
    assert!(read_json("{").is_err());
}

#[test]
fn diagnostics_are_appended_without_touching_the_report() {
    let mut t = Task::new(1, "a".into(), String::new());
    t.report_problems = vec!["mine".into()];
    let t = service::add_git_diagnostic(t, "branch", "no repository").unwrap();
    let t = service::add_git_diagnostic_at(t, "pr", "no client", "then", "now").unwrap();
    assert_eq!(t.git_diagnostics.len(), 2);
    assert_eq!(t.git_diagnostics[0].operation, "branch");
    assert_eq!(t.git_diagnostics[0].message, "no repository");
    assert_eq!(t.git_diagnostics[1].at, "then");
    assert_eq!(t.updated_at, "now");
    assert_eq!(t.report_problems, vec!["mine"]);
}

#[test]
fn rewritten_task_files_read_back_with_unknown_fields() {
    let new = "id = 1\ntitle = \"it's \\\"new\\\"\"\n";
    let old = "id = 1\ntitle = \"old\"\ncontext = \"gone\"\n[x]\nkept = [1, 2]\n";
    let text = write_task_preserving(new, old).unwrap();
    let d = jay::doc::read_doc(&text).unwrap();
    assert_eq!(
        format!("{:?}", d.get("title")),
        "Some(Text(\"it's \\\"new\\\"\"))"
    );
    assert!(d.get("context").is_none());
    assert_eq!(
        format!("{:?}", d.get("x").unwrap().get("kept")),
        "Some(Array([Integer(1), Integer(2)]))"
    );
}

fn walk_to_review(p: &mut Proj, id: i64) {
    for action in [TaskAction::Start, TaskAction::Review] {
        assert_eq!(git_step(p.mode, action), GitStep::Nothing);
        p.apply(id, action, "human", None).unwrap();
    }
}

fn full_report(result: &str, validation: &str) -> String {
    format!(
        r#"{{"result":"{result}","validation":"{validation}","problems":[],"ideas":[],"decisions":[]}}"#
    )
}

fn status_entry(title: &str, content: &str) -> KnowledgeEntry {
    KnowledgeEntry::new(0, KnowledgeKind::Status, title.into(), content.into())
}

#[test]
fn psotool_workflow_no_git_noise_with_current_summary() {
    let mut p = Proj::new();

    // automation IS configured, but the project stays quiet because
    // git_integration defaults to off for new projects
    let mut cfg = init_project("/w/psotool", None, false, None).unwrap().config;
    assert_eq!(cfg.effective_git_integration(), GitIntegration::Off);
    cfg.branch_template = Some("feat/{task-id}-{slug}".into());
    cfg.git_repo = Some("git@host:o/psotool.git".into());
    p.mode = cfg.effective_git_integration();

    // one fully reported local delivery
    let mut t = Task::new(p.next_id(), "Build the PSO laboratory".into(), "core + viz".into());
    t.acceptance = vec!["tests pass".into(), "docs written".into()];
    let t1 = p.create(t).unwrap();
    walk_to_review(&mut p, t1.id);
    let done = p
        .complete(
            t1.id,
            &full_report("Implemented the lab", "8 numerical tests pass; smoke run ok"),
            "agent:worker",
        )
        .unwrap();
    assert_eq!(done.status, TaskStatus::Closed);
    assert!(done.done_at.is_some());

    // three lightweight future tasks with empty acceptance criteria
    for title in ["Compare seeds", "More landscapes", "CSV extras"] {
        let mut t = Task::new(p.next_id(), title.into(), "future work".into());
        t.labels = vec!["future".into()];
        p.create(t).unwrap();
    }

    // no git automation noise anywhere
    assert_eq!(p.tasks.len(), 4);
    for t in &p.tasks {
        assert!(t.git_diagnostics.is_empty(), "task {} has diagnostics", t.id);
        assert!(t.report_problems.is_empty(), "task {} has noise", t.id);
        assert!(
            t.links.iter().all(|l| !l.starts_with("branch:")),
            "stale branch link"
        );
    }

    // a current summary is designated atomically with entry creation
    let mut e = status_entry("v1 delivered", "Lab shipped; future tasks open.");
    e.commit = Some("local-only".into());
    let empty = EntriesFile {
        current_summary: None,
        entries: Vec::new(),
    };
    let file = knowledge::add_status_entry(empty, e, true, "human").unwrap();
    assert!(file.current_summary.is_some());
    let cs = knowledge::current_status(&file).unwrap();
    assert!(cs.designated);
    assert_eq!(cs.entry.id, file.entries[0].id);

    // doctor is clean; ordinary future tasks need no completion evidence
    let findings = p.inspect();
    let (errors, _) = finding_counts(&findings);
    assert_eq!(errors, 0, "{findings:?}");
    assert_eq!(doctor_code(errors), 0);

    // status shows summary + ready work; next lists exactly the future tasks
    let kb = vec![PlacedEntry {
        kind: KnowledgeKind::Status,
        entry: file.entries[0].clone(),
    }];
    let fresh = knowledge::summary_freshness(&cs, &p.tasks, &kb, None);
    let out = status_overview(&cfg.name, "/w/psotool", &p.tasks, &Some((cs, fresh)), &None);
    assert!(out.contains("current summary"), "{out}");
    assert!(out.contains("ready"), "{out}");
    assert_eq!(ids(&ready_tasks(&p.tasks)), vec![2, 3, 4]);
}

#[test]
fn siggen_workflow_deps_summaries_reopen_and_followup() {
    let mut p = Proj::new();

    // dependency chain: 1 <- 2 <- 3, plus deferred tasks 4,5 depending on 3
    let t1 = task_with_deps(&mut p, "Plan expansion", vec![]);
    let t2 = task_with_deps(&mut p, "WGN/AWGN", vec![t1.id]);
    let t3 = task_with_deps(&mut p, "FSK families", vec![t2.id]);
    for title in ["Deferred 2-FSK", "Deferred dataset export"] {
        let mut t = Task::new(p.next_id(), title.into(), String::new());
        t.depends_on = vec![t3.id];
        t.labels = vec!["deferred".into()];
        p.create(t).unwrap();
    }

    // readiness follows the chain exactly
    assert_eq!(ids(&ready_tasks(&p.tasks)), vec![t1.id]);

    // batch completion: 1 then 2 then 3, each with one typed report call
    for (id, res) in [
        (t1.id, "plan written"),
        (t2.id, "awgn delivered"),
        (t3.id, "fsk delivered"),
    ] {
        walk_to_review(&mut p, id);
        p.complete(id, &full_report(res, "ctest 5/5 passes"), "agent:w")
            .unwrap();
        // deferred tasks become ready only after t3 closes
        let ready = ready_tasks(&p.tasks);
        if id != t3.id {
            assert_eq!(ready.len(), 1, "chain gate after #{id}");
        } else {
            assert_eq!(ready.len(), 2, "both deferred tasks ready after #3");
        }
    }

    // revised summaries with supersession + explicit designation
    let mut file = EntriesFile {
        current_summary: None,
        entries: Vec::new(),
    };
    let (s1, all) =
        knowledge::add_entry(status_entry("After plan", "planning done"), file.entries).unwrap();
    let mut s2 = status_entry("After delivery", "CLI-first scope delivered");
    s2.supersedes = vec![s1.id];
    let (s2, all) = knowledge::add_entry(s2, all).unwrap();
    file = EntriesFile {
        current_summary: None,
        entries: all,
    };
    file.current_summary =
        Some(knowledge::set_current_summary(&file, s2.id, "agent:rev", None).unwrap());
    // a later ordinary entry does NOT steal the designation
    let (_, all) =
        knowledge::add_entry(status_entry("Review note", "working-tree claim"), file.entries)
            .unwrap();
    file = EntriesFile {
        current_summary: file.current_summary,
        entries: all,
    };
    let cs = knowledge::current_status(&file).unwrap();
    assert!(cs.designated);
    assert_eq!(cs.entry.id, s2.id);
    // superseded text preserved
    let s1_after = knowledge::get_entry(&file.entries, s1.id).unwrap();
    assert_eq!(s1_after.content, "planning done");

    // reopened review correction on t2: fresh evidence required, old cycle in history
    let reopened = p
        .apply(t2.id, TaskAction::Reopen, "human", Some("SNR metric was wrong"))
        .unwrap();
    assert_eq!(reopened.status, TaskStatus::Open);
    assert!(reopened.report_result.is_none());
    walk_to_review(&mut p, t2.id);
    // stale evidence cannot close it
    assert!(p.apply(t2.id, TaskAction::Done, "human", None).is_err());
    let fixed = p
        .complete(
            t2.id,
            &full_report("awgn fixed", "statistical tests rerun"),
            "human",
        )
        .unwrap();
    assert_eq!(fixed.report_result.as_deref(), Some("awgn fixed"));
    assert_eq!(
        fixed
            .history
            .iter()
            .filter(|e| e.prior_report.is_some())
            .count(),
        1
    );

    // linked follow-up keeps the original closed
    let before = format!("{:?}", p.get(t3.id));
    let fu = p.follow_up(t3.id, "GFSK variant").unwrap();
    assert_eq!(fu.follow_up_of, Some(t3.id));
    assert_eq!(format!("{:?}", p.get(t3.id)), before);

    // doctor stays clean (reopened t2 was re-closed before inspection)
    let findings = p.inspect();
    assert_eq!(finding_counts(&findings).0, 0, "{findings:?}");
}

#[test]
fn refused_patches_say_which_kind_of_fault() {
    for bad in [
        r#"{"bogus":1}"#,
        r#"{"title":7}"#,
        r#"{"labels":["a",1]}"#,
        r#"{"estimate_points":1.5}"#,
    ] {
        assert_eq!(
            parse_task_patch(bad).err().map(|e| e.message),
            Some("invalid patch payload".to_string()),
            "{bad}"
        );
    }
    for bad in ["[1]", "\"text\"", "null"] {
        assert_eq!(
            parse_task_patch(bad).err().map(|e| e.message),
            Some("patch must be a JSON object of task fields".to_string()),
            "{bad}"
        );
    }
    for bad in ["", "{", "{\"title\":}"] {
        assert_eq!(
            parse_task_patch(bad).err().map(|e| e.message),
            Some("patch must be valid JSON".to_string()),
            "{bad}"
        );
    }
    assert!(parse_task_patch(r#"{"estimate_hours":2}"#).is_ok());
    assert!(parse_task_patch(r#"{"context":null}"#).is_ok());
}

#[test]
fn report_modes_read_from_text() {
    assert_eq!(" append ".parse::<ReportMode>().unwrap(), ReportMode::Append);
    assert_eq!("replace".parse::<ReportMode>().unwrap(), ReportMode::Replace);
    assert!("Replace".parse::<ReportMode>().is_err());
}

#[test]
fn rewritten_tasks_keep_their_fractions_and_dates() {
    let new = "estimate_hours = 2.5\nid = 1\ntitle = \"t\"\n";
    let old = "estimate_hours = 1.0\nid = 1\ntitle = \"s\"\nratio = 0.125\nsince = 2026-01-02\n";
    let out = write_task_preserving(new, old).unwrap();
    let v: toml::Value = toml::from_str(&out).unwrap();
    assert_eq!(v.get("estimate_hours").unwrap().as_float(), Some(2.5));
    assert_eq!(v.get("ratio").unwrap().as_float(), Some(0.125));
    assert!(out.contains("since = 2026-01-02"), "{out}");
    assert_eq!(v.get("title").unwrap().as_str(), Some("t"));
}
