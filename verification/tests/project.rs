use jay::project::{
    detect_git_repo, find_nest, folder_name, init_project, join_path, lock_order, project_subfolders,
    resolve_context_at, save_config_text, temporary_name, Context, Folder, GitIntegration, ProjectConfig,
};

fn folder(path: &str, has_config: bool) -> Folder {
    Folder {
        path: path.into(),
        has_config,
    }
}

fn config() -> ProjectConfig {
    ProjectConfig {
        name: "demo".into(),
        description: String::new(),
        goal: None,
        git_repo: None,
        branch_template: None,
        git_integration: None,
        links: Vec::new(),
    }
}

#[test]
fn legacy_config_resolves_integration_from_automation_fields() {
    let mut cfg = config();
    cfg.git_integration = None;
    assert_eq!(cfg.effective_git_integration(), GitIntegration::Off);
    cfg.branch_template = Some("".into());
    assert_eq!(cfg.effective_git_integration(), GitIntegration::Off);
    cfg.branch_template = Some("feat/{task-id}".into());
    assert_eq!(cfg.effective_git_integration(), GitIntegration::Auto);
    cfg.branch_template = None;
    cfg.git_repo = Some("git@host:o/r.git".into());
    assert_eq!(cfg.effective_git_integration(), GitIntegration::Auto);
    // explicit off wins even with automation configured
    cfg.git_integration = Some(GitIntegration::Off);
    assert_eq!(cfg.effective_git_integration(), GitIntegration::Off);
}

#[test]
fn integration_names_read_back() {
    for g in [GitIntegration::Off, GitIntegration::Auto] {
        assert_eq!(GitIntegration::parse(g.as_str()).unwrap(), g);
    }
    assert_eq!(
        " auto ".parse::<GitIntegration>().unwrap(),
        GitIntegration::Auto
    );
    assert_eq!(
        GitIntegration::parse("on").unwrap_err().message,
        "unknown git_integration mode: on (use off|auto)"
    );
}

#[test]
fn new_projects_default_to_off() {
    let plan = init_project("/w/site", None, false, None).unwrap();
    assert_eq!(plan.config.git_integration, Some(GitIntegration::Off));
    assert_eq!(
        plan.config.effective_git_integration(),
        GitIntegration::Off
    );
}

#[test]
fn init_creates_layout_and_resolves() {
    let plan = init_project("/w/myproj", None, false, None).unwrap();
    assert_eq!(plan.config.name, "myproj");
    assert!(plan.folders.iter().any(|f| f == "/w/myproj/.nest/tasks"));
    assert!(plan.folders.iter().any(|f| f == "/w/myproj/.nest/kb"));
    let above = vec![
        folder("/w/myproj/a/b/c", false),
        folder("/w/myproj/a/b", false),
        folder("/w/myproj/a", false),
        folder("/w/myproj", true),
        folder("/w", false),
        folder("/", false),
    ];
    assert_eq!(find_nest(&above).as_deref(), Some("/w/myproj"));
    let ctx = resolve_context_at("/w/myproj/a/b/c", &above, &Vec::new()).unwrap();
    assert_eq!(ctx, Context::Project("/w/myproj".into()));
    assert!(ctx.is_project());
}

#[test]
fn init_fails_when_pro_exists() {
    assert!(init_project("/w/p", None, true, None).is_err());
}

#[test]
fn init_takes_a_name_and_the_detected_repo() {
    let plan = init_project("/w/p", Some("My Site"), false, Some("git@h:o/r.git".into())).unwrap();
    assert_eq!(plan.config.name, "My Site");
    assert_eq!(plan.config.git_repo.as_deref(), Some("git@h:o/r.git"));
}

#[test]
fn implicit_workspace_when_cwd_has_project_subfolders() {
    let above = vec![folder("/w", false), folder("/", false)];
    let below = vec![
        folder("/w/b", true),
        folder("/w/a", true),
        folder("/w/x", false),
    ];
    let ctx = resolve_context_at("/w", &above, &below).unwrap();
    assert_eq!(ctx, Context::Workspace("/w".into()));
    assert!(!ctx.is_project());
    assert_eq!(ctx.root(), "/w");
    let subs = project_subfolders(&below);
    assert_eq!(subs, vec!["/w/a", "/w/b"]);
}

#[test]
fn outside_any_project_errors() {
    let above = vec![folder("/w", false), folder("/", false)];
    assert!(resolve_context_at("/w", &above, &Vec::new()).is_err());
    let below = vec![folder("/w/x", false)];
    assert!(resolve_context_at("/w", &above, &below).is_err());
}

#[test]
fn folder_name_defaults_to_dir_name() {
    assert_eq!(folder_name("/x/hello"), "hello");
    assert_eq!(folder_name("/"), "project");
}

#[test]
fn paths_and_temporary_names() {
    assert_eq!(join_path("/a", "b"), "/a/b");
    assert_eq!(join_path("/", "b"), "/b");
    assert_ne!(temporary_name("1.toml", 7), temporary_name("1.toml", 8));
    assert!(temporary_name("1.toml", 7).contains("1.toml"));
}

#[test]
fn command_output_counts_only_when_it_says_something() {
    assert_eq!(
        detect_git_repo(true, " git@h:o/r.git\n").as_deref(),
        Some("git@h:o/r.git")
    );
    assert_eq!(detect_git_repo(true, " \n"), None);
    assert_eq!(detect_git_repo(false, "git@h:o/r.git"), None);
}

#[test]
fn projects_are_locked_in_one_order() {
    let names = |list: &[&str]| -> Vec<String> { list.iter().map(|s| s.to_string()).collect() };
    let expected = names(&["/a", "/a/b", "/a-b", "/b"]);
    assert_eq!(lock_order(&names(&["/b", "/a-b", "/a/b", "/a"])), expected);
    assert_eq!(
        lock_order(&names(&["/a/b", "/b", "/a", "/a-b", "/b", "/a"])),
        expected
    );
    assert!(lock_order(&names(&[])).is_empty());
}

#[test]
fn saving_the_config_keeps_unknown_fields() {
    let old = "description = \"d\"\ngoal = \"old\"\nlimit = 1.5\nname = \"p\"\n\n[tools]\neditor = \"vi\"\n";
    let new = "description = \"d2\"\nname = \"p\"\n";
    assert_eq!(
        save_config_text(new, old).unwrap(),
        "description = \"d2\"\nlimit = 1.5\nname = \"p\"\n\n[tools]\neditor = \"vi\"\n"
    );
    assert!(save_config_text(new, "name = ").is_err());
    assert!(save_config_text("name = ", old).is_err());
}
