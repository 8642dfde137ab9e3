use jay::clock::Instant;
use jay::diag::{inspect, ConfigSource, FileRead, KbSource, MilestonesSource, ProjectFiles};
use jay::json::Json;
use jay::knowledge::{
    add_entry, add_status_entry, current_status, current_summary_ref, entry_json, filter_entries,
    get_entry, head_commit, is_found, last_id, latest_status, next_id, save_text, search,
    set_current_summary, set_current_summary_at, summary_freshness, summary_freshness_at,
    supersession_cycle, tokenize, update_entry, validate_supersedes, words_of, EntriesFile,
    EntryChange, PlacedEntry, FALLBACK_NOTE,
};
use jay::model::{KnowledgeEntry, KnowledgeKind, Task};

fn entry(kind: KnowledgeKind, title: &str, content: &str) -> KnowledgeEntry {
    KnowledgeEntry::new(0, kind, title.into(), content.into())
}

fn no_change() -> EntryChange {
    EntryChange {
        title: None,
        content: None,
        tags: None,
        related_task: None,
        supersedes: None,
        actor: None,
    }
}

/// Adds entries one after the other.
fn added(list: Vec<KnowledgeEntry>) -> Vec<KnowledgeEntry> {
    let mut all: Vec<KnowledgeEntry> = Vec::new();
    for e in list {
        all = add_entry(e, all).unwrap().1;
    }
    all
}

fn placed(list: Vec<KnowledgeEntry>) -> Vec<PlacedEntry> {
    list.into_iter()
        .map(|entry| PlacedEntry {
            kind: entry.kind,
            entry,
        })
        .collect()
}

fn found(kb: &Vec<PlacedEntry>, query: &str, kind: Option<KnowledgeKind>) -> Vec<String> {
    match search(kb, query, kind) {
        Some(f) => (0..f.entries.len())
            .filter(|i| is_found(&f, *i))
            .map(|i| f.entries[i].title.clone())
            .collect(),
        None => Vec::new(),
    }
}

fn status_file(list: Vec<KnowledgeEntry>) -> EntriesFile {
    EntriesFile {
        current_summary: None,
        entries: added(list),
    }
}

#[test]
fn empty_when_no_file() {
    assert_eq!(next_id(&Vec::new()), 1);
    assert_eq!(last_id(&Vec::new()), 0);
}

#[test]
fn add_and_load_roundtrip() {
    let (saved, all) = add_entry(
        entry(KnowledgeKind::Decision, "Use Odin", "raylib"),
        Vec::new(),
    )
    .unwrap();
    assert_eq!(saved.id, 1);
    assert_eq!(all.len(), 1);
    assert_eq!(all[0].title, "Use Odin");
    // second entry gets id 2
    let (saved2, all) = add_entry(
        entry(KnowledgeKind::Decision, "TOML over JSON", "diffable"),
        all,
    )
    .unwrap();
    assert_eq!(saved2.id, 2);
    assert_eq!(all.len(), 2);
}

#[test]
fn knowledge_entries_still_roundtrip() {
    let (saved, all) = add_entry(entry(KnowledgeKind::Note, "n", "c"), Vec::new()).unwrap();
    assert_eq!(saved.id, 1);
    assert_eq!(get_entry(&all, 1).unwrap().content, "c");
    assert!(get_entry(&all, 2).is_none());
}

#[test]
fn update_modifies_existing() {
    let all = added(vec![entry(KnowledgeKind::Note, "original", "v1")]);
    let mut change = no_change();
    change.content = Some("v2".into());
    change.tags = Some(vec!["updated".into()]);
    let all = update_entry(all, KnowledgeKind::Note, 1, change).unwrap();
    let e = get_entry(&all, 1).unwrap();
    assert_eq!(e.content, "v2");
    assert_eq!(e.tags, vec!["updated"]);
    assert_eq!(e.title, "original");
}

#[test]
fn update_missing_returns_error() {
    assert!(update_entry(Vec::new(), KnowledgeKind::Note, 999, no_change()).is_err());
}

#[test]
fn filter_by_kind_and_tag() {
    let mut d1 = entry(KnowledgeKind::Decision, "Odin", "c");
    d1.tags = vec!["stack".into()];
    let mut d2 = entry(KnowledgeKind::Decision, "TOML", "c");
    d2.tags = vec!["format".into()];
    let mut n1 = entry(KnowledgeKind::Note, "impl detail", "c");
    n1.tags = vec!["stack".into()];
    let kb = placed(vec![d1, d2, n1]);

    // all decisions
    assert_eq!(
        filter_entries(&kb, Some(KnowledgeKind::Decision), None).len(),
        2
    );
    // all with tag "stack" across kinds, whatever the case
    assert_eq!(filter_entries(&kb, None, Some("STACK")).len(), 2);
    assert_eq!(filter_entries(&kb, None, Some("tac")).len(), 2);
    // decisions with tag "format"
    let fmt = filter_entries(&kb, Some(KnowledgeKind::Decision), Some("format"));
    assert_eq!(fmt.len(), 1);
    assert_eq!(fmt[0].title, "TOML");
}

#[test]
fn latest_status_returns_highest_id() {
    assert!(latest_status(&Vec::new()).is_none());
    let all = added(vec![
        entry(KnowledgeKind::Status, "v1", "old"),
        entry(KnowledgeKind::Status, "v2", "current"),
    ]);
    let latest = latest_status(&all).unwrap();
    assert_eq!(latest.title, "v2");
    assert_eq!(latest.content, "current");
}

#[test]
fn tokenize_splits_and_lowercases() {
    let tokens = tokenize("Hello World! TOML-based config.");
    assert_eq!(tokens, vec!["hello", "world", "toml", "based", "config"]);
}

#[test]
fn tokenize_filters_short_words() {
    let tokens = tokenize("a I is an the of to TOML");
    // single-char words filtered out
    assert_eq!(tokens, vec!["is", "an", "the", "of", "to", "toml"]);
}

#[test]
fn tokenize_counts_characters() {
    assert_eq!(tokenize("é né x_y"), vec!["né", "x_y"]);
    let chars: Vec<char> = "ab c".chars().collect();
    let word = vec![true, true, false, true];
    assert_eq!(words_of(&chars, &word), vec!["ab"]);
}

#[test]
fn search_empty_returns_nothing() {
    assert!(search(&Vec::new(), "anything", None).is_none());
}

#[test]
fn search_finds_matching_entries() {
    let kb = placed(vec![
        entry(KnowledgeKind::Decision, "Use Odin", "raylib graphics"),
        entry(KnowledgeKind::Decision, "Use TOML", "config format"),
        entry(KnowledgeKind::Note, "MCP server", "stdio transport"),
    ]);
    assert_eq!(found(&kb, "odin", None), vec!["Use Odin"]);
    assert!(search(&kb, "!", None).is_none());
}

#[test]
fn search_counts_terms_by_field() {
    let mut e1 = entry(KnowledgeKind::Note, "Graphics lib", "using raylib for odin");
    e1.tags = vec!["odin".into()];
    let kb = placed(vec![
        e1,
        entry(KnowledgeKind::Note, "Language choice", "we picked odin, odin"),
        entry(KnowledgeKind::Note, "Other", "nothing"),
    ]);
    let f = search(&kb, "odin", None).unwrap();
    assert_eq!(f.lengths, vec![7, 6, 2]);
    assert_eq!(f.terms.len(), 1);
    let t = &f.terms[0];
    assert_eq!(t.entries, 2);
    assert_eq!(
        (t.counts[0].title, t.counts[0].content, t.counts[0].tags),
        (0, 1, 1)
    );
    assert_eq!(
        (t.counts[1].title, t.counts[1].content, t.counts[1].tags),
        (0, 2, 0)
    );
}

#[test]
fn search_filters_by_kind() {
    let kb = placed(vec![
        entry(KnowledgeKind::Decision, "TOML decision", "use toml"),
        entry(KnowledgeKind::Note, "TOML note", "use toml"),
    ]);
    assert_eq!(found(&kb, "toml", None).len(), 2);
    assert_eq!(
        found(&kb, "toml", Some(KnowledgeKind::Decision)),
        vec!["TOML decision"]
    );
}

#[test]
fn fallback_is_labeled_and_never_promoted_by_tag() {
    let mut old = entry(KnowledgeKind::Status, "old", "old state");
    old.tags = vec!["current".into()];
    let file = status_file(vec![
        old,
        entry(KnowledgeKind::Status, "newer delivery", "delivered X"),
    ]);
    let cs = current_status(&file).unwrap();
    assert!(!cs.designated);
    assert_eq!(cs.entry.title, "newer delivery", "highest-id fallback");
    assert_eq!(cs.note.as_deref(), Some(FALLBACK_NOTE));
    // and nothing was rewritten
    assert!(file.entries[0].tags.contains(&"current".to_string()));
}

#[test]
fn designated_summary_wins_over_later_entries() {
    let mut file = status_file(vec![
        entry(KnowledgeKind::Status, "authoritative", "the real current state"),
        entry(KnowledgeKind::Status, "later ordinary update", "some review note"),
    ]);
    let cs_ref = set_current_summary(&file, 1, "human", Some("abc123".into())).unwrap();
    assert_eq!(cs_ref.entry_id, 1);
    assert_eq!(cs_ref.set_by, "human");
    assert_eq!(cs_ref.commit.as_deref(), Some("abc123"));
    file.current_summary = Some(cs_ref);

    let cs = current_status(&file).unwrap();
    assert!(cs.designated);
    assert_eq!(cs.entry.id, 1, "chosen summary wins over later entry");
    assert_eq!(cs.designation.unwrap().commit.as_deref(), Some("abc123"));
    assert_eq!(current_summary_ref(&file).unwrap().entry_id, 1);
    // history stays available
    assert_eq!(file.entries.len(), 2);
}

#[test]
fn set_current_requires_existing_entry_with_content() {
    let file = status_file(vec![entry(KnowledgeKind::Status, "blank", "   ")]);
    assert!(set_current_summary(&file, 99, "human", None).is_err());
    assert!(set_current_summary(&file, 1, "human", None).is_err());
    let file = status_file(vec![entry(KnowledgeKind::Status, "s", "c")]);
    let cs = set_current_summary_at(&file, 1, "human", None, "2026-01-01T00:00:00+00:00").unwrap();
    assert_eq!(cs.set_at, "2026-01-01T00:00:00+00:00");
}

#[test]
fn add_status_entry_can_designate_atomically() {
    let empty = EntriesFile {
        current_summary: None,
        entries: Vec::new(),
    };
    let mut e = entry(KnowledgeKind::Status, "s", "content");
    e.commit = Some("deadbeef".into());
    let file = add_status_entry(empty, e, true, "agent:x").unwrap();
    let cs = file.current_summary.as_ref().unwrap();
    assert_eq!(cs.entry_id, file.entries.last().unwrap().id);
    assert_eq!(cs.commit.as_deref(), Some("deadbeef"));
    assert!(current_status(&file).unwrap().designated);
    // blank content refused for designation
    let e = entry(KnowledgeKind::Status, "b", " ");
    assert!(add_status_entry(file, e, true, "human").is_err());
}

#[test]
fn supersession_validated_and_text_preserved() {
    let all = added(vec![entry(
        KnowledgeKind::Status,
        "first conclusion",
        "old conclusion text",
    )]);
    // missing target rejected
    let mut bad = entry(KnowledgeKind::Status, "x", "c");
    bad.supersedes = vec![999];
    assert!(validate_supersedes(&bad, &all).is_err());
    // valid supersession; superseded text preserved
    let mut second = entry(KnowledgeKind::Status, "revised", "new");
    second.supersedes = vec![1];
    let (second, all) = add_entry(second, all).unwrap();
    assert_eq!(get_entry(&all, 1).unwrap().content, "old conclusion text");
    assert!(supersession_cycle(&all).is_none());
    // cycles rejected: first -> second while second -> first
    let mut change = no_change();
    change.supersedes = Some(vec![second.id]);
    assert!(update_entry(all, KnowledgeKind::Status, 1, change).is_err());
    // self reference rejected
    let all = added(vec![entry(KnowledgeKind::Status, "s", "c")]);
    let mut change = no_change();
    change.supersedes = Some(vec![1]);
    assert!(update_entry(all, KnowledgeKind::Status, 1, change).is_err());
}

#[test]
fn missing_current_pointer_falls_back_and_doctor_flags() {
    let mut file = status_file(vec![entry(KnowledgeKind::Status, "s1", "c1")]);
    let mut cs = set_current_summary(&file, 1, "human", None).unwrap();
    cs.entry_id = 42;
    file.current_summary = Some(cs);
    let cs = current_status(&file).unwrap();
    assert!(!cs.designated, "missing pointer target falls back");
    let f = inspect(ProjectFiles {
        config: ConfigSource {
            has_config: true,
            has_tasks: true,
            has_git: false,
            text: None,
            record: Err("unread".into()),
        },
        milestones: MilestonesSource {
            read: FileRead::Missing,
            record: Err("missing".into()),
        },
        tasks: Vec::new(),
        kb: vec![KbSource {
            kind: KnowledgeKind::Status,
            read: FileRead::Text(String::new()),
            record: Ok(file),
        }],
    });
    assert!(
        f.iter().any(|x| x.code == "kb.current_summary_missing"),
        "{f:?}"
    );
}

#[test]
fn freshness_flags_later_task_updates_and_commit_mismatch() {
    let mut file = status_file(vec![entry(KnowledgeKind::Status, "summary", "state at time T")]);
    file.current_summary = Some(
        set_current_summary_at(
            &file,
            1,
            "human",
            Some("ffffffff".into()),
            "2026-01-02T00:00:00+00:00",
        )
        .unwrap(),
    );
    let early = Task::new_at(1, "earlier".into(), String::new(), "2026-01-01T00:00:00+00:00");
    let late = Task::new_at(2, "later".into(), String::new(), "2026-01-03T00:00:00+00:00");
    let tasks = vec![early, late];
    let cs = current_status(&file).unwrap();
    let fresh = summary_freshness(&cs, &tasks, &Vec::new(), None);
    assert!(fresh.possibly_stale);
    assert_eq!(fresh.tasks_updated_after, vec![2]);
    // no git repo: commit comparison unavailable, fact recorded
    assert!(fresh.head_commit.is_none());
    assert!(fresh.commit_matches_head.is_none());
    assert!(
        fresh.facts.iter().any(|x| x.contains("no local git repo")),
        "{:?}",
        fresh.facts
    );
    let fresh = summary_freshness(&cs, &tasks, &Vec::new(), Some("0000".into()));
    assert_eq!(fresh.commit_matches_head, Some(false));
    let fresh = summary_freshness(
        &cs,
        &Vec::new(),
        &Vec::new(),
        Some("ffffffff00112233".into()),
    );
    assert_eq!(fresh.commit_matches_head, Some(true));
    assert!(!fresh.possibly_stale);
}

#[test]
fn freshness_compares_instants() {
    let file = status_file(vec![entry(KnowledgeKind::Status, "s", "c")]);
    let cs = current_status(&file).unwrap();
    let at = |secs: i64| Some(Instant { secs, nanos: 0 });
    let tasks = vec![
        Task::new(1, "a".into(), String::new()),
        Task::new(2, "b".into(), String::new()),
        Task::new(3, "c".into(), String::new()),
    ];
    let other = PlacedEntry {
        kind: KnowledgeKind::Note,
        entry: KnowledgeEntry::new(5, KnowledgeKind::Note, "n".into(), "c".into()),
    };
    let f = summary_freshness_at(
        &cs,
        at(10),
        &tasks,
        &vec![at(9), at(10), at(11)],
        &vec![other],
        &vec![at(12)],
        None,
    );
    assert_eq!(f.tasks_updated_after, vec![3]);
    assert_eq!(f.kb_updated_after, vec!["note#5"]);
    assert!(f.possibly_stale);
    assert_eq!(f.facts.len(), 2);
}

#[test]
fn siggen_scenario_history_and_revised_summary() {
    // old 'current'-tagged entry, newer delivery record, later review note
    let mut old = entry(
        KnowledgeKind::Status,
        "Current state (2026-08-29)",
        "Functional generator; tests empty.",
    );
    old.tags = vec!["current".into()];
    let mut file = status_file(vec![
        old,
        entry(KnowledgeKind::Status, "Delivery complete", "CLI-first scope delivered"),
        entry(KnowledgeKind::Status, "Review note", "working tree claim at review time"),
    ]);
    // the team designates the delivery record as authoritative
    let cs = set_current_summary(&file, 2, "agent:rev", Some("d2eec00".into())).unwrap();
    file.current_summary = Some(cs);
    let cs = current_status(&file).unwrap();
    assert!(cs.designated);
    assert_eq!(cs.entry.title, "Delivery complete");
    // history stays available through search
    let kb = placed(file.entries.clone());
    assert!(!found(&kb, "generator", Some(KnowledgeKind::Status)).is_empty());
    assert_eq!(file.entries.len(), 3);
    assert!(
        file.entries[0].tags.contains(&"current".to_string()),
        "legacy tag untouched"
    );
}

#[test]
fn kb_updates_preserve_extensions_at_every_document_level() {
    let old = r#"format = 2

[current_summary]
entry_id = 1
set_at = "2026-01-01T00:00:00Z"
set_by = "human"
origin = "import"

[[entries]]
id = 1
kind = "status"
title = "s"
content = "c"
created_at = "2026-01-01T00:00:00Z"
updated_at = "2026-01-01T00:00:00Z"
rating = 5
"#;
    let new = r#"[current_summary]
entry_id = 1
set_at = "2026-02-01T00:00:00Z"
set_by = "human"

[[entries]]
id = 1
kind = "status"
title = "edited"
content = "c"
tags = []
supersedes = []
created_at = "2026-01-01T00:00:00Z"
updated_at = "2026-02-01T00:00:00Z"
"#;
    let out = save_text(new, old).unwrap();
    assert!(out.contains("format = 2"), "{out}");
    assert!(out.contains("origin = \"import\""), "{out}");
    assert!(out.contains("rating = 5"), "{out}");
    assert!(out.contains("title = \"edited\""), "{out}");
    assert!(!out.contains("title = \"s\""), "{out}");
    assert!(save_text(new, "oops {{{").is_err());
}

#[test]
fn head_commits_are_trimmed() {
    assert_eq!(head_commit(true, "abc\n").as_deref(), Some("abc"));
    assert_eq!(head_commit(false, "abc\n"), None);
}

#[test]
fn entries_as_json() {
    let mut e = entry(KnowledgeKind::Decision, "t", "c");
    e.related_task = Some(4);
    let j = entry_json(&e);
    assert_eq!(j.get("kind").unwrap().as_text(), Some("decision"));
    assert!(matches!(j.get("related_task"), Some(Json::Integer(4))));
    assert!(matches!(j.get("commit"), Some(Json::Null)));
}

#[test]
fn different_kinds_are_independent() {
    let mut files: Vec<Vec<KnowledgeEntry>> = Vec::new();
    for (kind, title) in [
        (KnowledgeKind::Decision, "d"),
        (KnowledgeKind::Note, "n"),
        (KnowledgeKind::Status, "s"),
    ] {
        files.push(added(vec![entry(kind, title, "")]));
    }
    for entries in &files {
        assert_eq!(entries.len(), 1);
        // each kind has its own id sequence
        assert_eq!(next_id(entries), 2);
    }
}

#[test]
fn saving_entries_keeps_what_is_unknown_at_each_level() {
    let old = "format = 2\n\n[current_summary]\nentry_id = 1\nset_at = \"x\"\nset_by = \"human\"\nwhy = \"release\"\n\n[[entries]]\ncontent = \"c\"\nid = 1\nrating = 4.5\ntitle = \"one\"\n\n[[entries]]\ncontent = \"c\"\nid = 2\nsince = 2026-01-02\ntitle = \"two\"\n";
    let new = "[current_summary]\nentry_id = 1\nset_at = \"y\"\nset_by = \"human\"\n\n[[entries]]\ncontent = \"c\"\nid = 2\ntitle = \"second\"\n\n[[entries]]\ncontent = \"c\"\nid = 1\ntitle = \"one\"\n";
    let out: toml::Value = toml::from_str(&save_text(new, old).unwrap()).unwrap();
    assert_eq!(out.get("format").unwrap().as_integer(), Some(2));
    let cs = out.get("current_summary").unwrap();
    assert_eq!(cs.get("set_at").unwrap().as_str(), Some("y"));
    assert_eq!(cs.get("why").unwrap().as_str(), Some("release"));
    let entries = out.get("entries").unwrap().as_array().unwrap();
    assert_eq!(entries.len(), 2);
    assert_eq!(entries[0].get("title").unwrap().as_str(), Some("second"));
    assert!(entries[0].get("since").unwrap().as_datetime().is_some());
    assert!(entries[0].get("rating").is_none());
    assert_eq!(entries[1].get("id").unwrap().as_integer(), Some(1));
    assert_eq!(entries[1].get("rating").unwrap().as_float(), Some(4.5));
}

#[test]
fn naive_timestamps_are_taken_to_be_local() {
    let mut file = status_file(vec![entry(KnowledgeKind::Status, "s", "c")]);
    file.current_summary = Some(
        set_current_summary_at(&file, 1, "human", None, "2026-01-10T00:00:00+00:00").unwrap(),
    );
    let cs = current_status(&file).unwrap();
    // more than a day away from the reference, whatever the time zone
    let before = Task::new_at(1, "before".into(), String::new(), "2026-01-08T12:00:00");
    let after = Task::new_at(2, "after".into(), String::new(), "2026-01-11T12:00:00");
    let broken = Task::new_at(3, "broken".into(), String::new(), "some day");
    let fresh = summary_freshness(&cs, &vec![before, after, broken], &Vec::new(), None);
    assert!(fresh.tasks_updated_after.iter().all(|id| *id == 2));
}
