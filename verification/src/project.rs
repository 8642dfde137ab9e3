//! Project resolution, initialization and config (the `.nest/` folder).
//!
//! A path is a text here: the names along it, parted by `/`. Where a platform
//! parts them otherwise, the program brings its paths into this form before it
//! hands them over.
use vstd::prelude::*;

use crate::diag;
use crate::doc;
use crate::doc::{complete_text, DocView};
use crate::error::Error;
use crate::order;
use crate::order::{is_text_less, sort_texts};
use crate::text;
use crate::text::{
    cat, cat3, chars_of, is_blank, is_opt_blank, natural_text, opt_clone, owned, same, split,
    starts_with, texts_clone, trimmed,
};

verus! {

pub const NEST_DIR: &'static str = ".nest";

pub const CONFIG_FILE: &'static str = "config.toml";

pub const TASKS_DIR: &'static str = "tasks";

pub const MILESTONES_FILE: &'static str = "milestones.toml";

pub const KB_DIR: &'static str = "kb";

/// Git/Forgejo automation policy for a project.
#[derive(Debug, Clone, Copy, PartialEq, Eq, Structural)]
pub enum GitIntegration {
    /// No automatic branch or PR operations, no missing-configuration noise.
    Off,
    /// Best-effort branch and PR automation; failures become structured
    /// diagnostics on the task, never report problems.
    Auto,
}

/// The text form of a policy.
pub open spec fn integration_name(g: GitIntegration) -> Seq<char> {
    match g {
        GitIntegration::Off => "off"@,
        GitIntegration::Auto => "auto"@,
    }
}

/// The policy that a text names, surrounding white space aside.
pub open spec fn integration_of(text: Seq<char>) -> Option<GitIntegration> {
    let s = text::trim(text);
    if s == "off"@ {
        Some(GitIntegration::Off)
    } else if s == "auto"@ {
        Some(GitIntegration::Auto)
    } else {
        None
    }
}

impl GitIntegration {
    /// The text form of the policy.
    pub fn as_str(self) -> (r: &'static str)
        ensures
            r@ == integration_name(self),
    {
        match self {
            GitIntegration::Off => "off",
            GitIntegration::Auto => "auto",
        }
    }

    /// The policy that `s` names.
    pub fn parse(s: &str) -> (r: Result<GitIntegration, Error>)
        ensures
            match r {
                Ok(g) => integration_of(s@) == Some(g),
                Err(e) => integration_of(s@) is None && e@ == "unknown git_integration mode: "@
                    + text::trim(s@) + " (use off|auto)"@,
            },
    {
        let t = trimmed(s);
        if same(t.as_str(), "off") {
            Ok(GitIntegration::Off)
        } else if same(t.as_str(), "auto") {
            Ok(GitIntegration::Auto)
        } else {
            Err(
                Error::new(cat3("unknown git_integration mode: ", t.as_str(), " (use off|auto)")),
            )
        }
    }
}

impl std::str::FromStr for GitIntegration {
    type Err = Error;

    fn from_str(s: &str) -> (r: Result<GitIntegration, Error>)
        ensures
            match r {
                Ok(g) => integration_of(s@) == Some(g),
                Err(e) => integration_of(s@) is None && e@ == "unknown git_integration mode: "@
                    + text::trim(s@) + " (use off|auto)"@,
            },
    {
        GitIntegration::parse(s)
    }
}

/// Every policy is read back from its text form.
pub proof fn law_integration_name_reads_back(g: GitIntegration)
    ensures
        integration_of(integration_name(g)) == Some(g),
{
    reveal_strlit("off");
    reveal_strlit("auto");
    assert("off"@.len() == 3 && "auto"@.len() == 4);
    text::lemma_trim_tight(integration_name(g));
}

/// Project metadata, stored in `.nest/config.toml`.
#[derive(Debug)]
pub struct ProjectConfig {
    pub name: String,
    pub description: String,
    pub goal: Option<String>,
    pub git_repo: Option<String>,
    pub branch_template: Option<String>,
    /// Explicit automation policy. `None` only happens in legacy configs;
    /// see [`ProjectConfig::effective_git_integration`].
    pub git_integration: Option<GitIntegration>,
    pub links: Vec<String>,
}

/// What a [`ProjectConfig`] holds.
#[verifier::ext_equal]
pub struct ProjectConfigView {
    pub name: Seq<char>,
    pub description: Seq<char>,
    pub goal: Option<Seq<char>>,
    pub git_repo: Option<Seq<char>>,
    pub branch_template: Option<Seq<char>>,
    pub git_integration: Option<GitIntegration>,
    pub links: Seq<Seq<char>>,
}

impl View for ProjectConfig {
    type V = ProjectConfigView;

    open spec fn view(&self) -> ProjectConfigView {
        ProjectConfigView {
            name: self.name@,
            description: self.description@,
            goal: text::opt_text(self.goal),
            git_repo: text::opt_text(self.git_repo),
            branch_template: text::opt_text(self.branch_template),
            git_integration: self.git_integration,
            links: text::texts(self.links@),
        }
    }
}

impl Clone for ProjectConfig {
    fn clone(&self) -> (r: ProjectConfig)
        ensures
            r@ == self@,
    {
        ProjectConfig {
            name: self.name.clone(),
            description: self.description.clone(),
            goal: opt_clone(&self.goal),
            git_repo: opt_clone(&self.git_repo),
            branch_template: opt_clone(&self.branch_template),
            git_integration: self.git_integration,
            links: texts_clone(&self.links),
        }
    }
}

/// The policy that is in effect: the explicit one, or for legacy configs
/// without one automation where a repository or a branch template is
/// configured.
pub open spec fn effective_integration(c: ProjectConfigView) -> GitIntegration {
    match c.git_integration {
        Some(mode) => mode,
        None => if !text::opt_blank(c.git_repo) || !text::opt_blank(c.branch_template) {
            GitIntegration::Auto
        } else {
            GitIntegration::Off
        },
    }
}

impl ProjectConfig {
    /// Resolves the effective git integration policy.
    ///
    /// Compatibility rule for legacy configs without the field: automation
    /// stays enabled (`auto`) when `git_repo` or `branch_template` is
    /// configured and nonblank; otherwise it resolves to `off`.
    pub fn effective_git_integration(&self) -> (r: GitIntegration)
        ensures
            r == effective_integration(self@),
    {
        match self.git_integration {
            Some(mode) => mode,
            None => if !is_opt_blank(&self.git_repo) || !is_opt_blank(&self.branch_template) {
                GitIntegration::Auto
            } else {
                GitIntegration::Off
            },
        }
    }
}

/// The context a command resolves to.
#[derive(Debug, PartialEq, Eq)]
pub enum Context {
    /// A project root (a folder with a `.nest/`).
    Project(String),
    /// A workspace root (a folder whose subfolders are projects).
    Workspace(String),
}

impl Context {
    /// The folder of the context.
    pub fn root(&self) -> (r: &str)
        ensures
            match *self {
                Context::Project(p) => r@ == p@,
                Context::Workspace(p) => r@ == p@,
            },
    {
        match self {
            Context::Project(p) => p.as_str(),
            Context::Workspace(p) => p.as_str(),
        }
    }

    /// Whether the context is a project.
    pub fn is_project(&self) -> (r: bool)
        ensures
            r == (*self is Project),
    {
        matches!(self, Context::Project(_))
    }
}

/// A folder, and whether it holds `.nest/config.toml`.
#[derive(Debug)]
pub struct Folder {
    pub path: String,
    pub has_config: bool,
}

/// The first folder that holds a config.
pub open spec fn first_project(folders: Seq<Folder>) -> Option<Seq<char>>
    decreases folders.len(),
{
    if folders.len() == 0 {
        None
    } else if folders[0].has_config {
        Some(folders[0].path@)
    } else {
        first_project(folders.skip(1))
    }
}

/// Walks up: `folders` are a folder and those above it, up to the root of the
/// file system; the first that holds a config is the project.
pub fn find_nest(folders: &Vec<Folder>) -> (r: Option<String>)
    ensures
        text::opt_text(r) == first_project(folders@),
{
    let mut i: usize = 0;
    assert(folders@.skip(0) =~= folders@);
    while i < folders.len()
        invariant
            i <= folders.len(),
            first_project(folders@) == first_project(folders@.skip(i as int)),
        decreases folders.len() - i,
    {
        if folders[i].has_config {
            return Some(folders[i].path.clone());
        }
        assert(folders@.skip(i as int).skip(1) =~= folders@.skip(i + 1));
        i += 1;
    }
    None
}

/// The paths of the folders that hold a config, in order.
pub open spec fn project_paths(folders: Seq<Folder>) -> Seq<Seq<char>>
    decreases folders.len(),
{
    if folders.len() == 0 {
        Seq::empty()
    } else {
        let front = project_paths(folders.drop_last());
        if folders.last().has_config {
            front.push(folders.last().path@)
        } else {
            front
        }
    }
}

/// The given subfolders that are project roots, sorted.
pub fn project_subfolders(folders: &Vec<Folder>) -> (r: Vec<String>)
    ensures
        text::texts(r@) == order::sorted_by(project_paths(folders@), order::text_order()),
{
    let mut out: Vec<String> = Vec::new();
    let mut i: usize = 0;
    assert(text::texts(out@) =~= project_paths(folders@.take(0)));
    while i < folders.len()
        invariant
            i <= folders.len(),
            text::texts(out@) == project_paths(folders@.take(i as int)),
        decreases folders.len() - i,
    {
        assert(folders@.take(i + 1).drop_last() =~= folders@.take(i as int));
        let ghost before = out@;
        if folders[i].has_config {
            out.push(folders[i].path.clone());
            assert(text::texts(out@) =~= text::texts(before).push(folders@[i as int].path@));
        }
        i += 1;
    }
    assert(folders@.take(i as int) =~= folders@);
    sort_texts(out)
}

/// Resolves the context of a folder from the folders above it (itself first)
/// and its direct subfolders: the nearest project, or else a workspace when a
/// subfolder is a project.
pub fn resolve_context_at(cwd: &str, above: &Vec<Folder>, below: &Vec<Folder>) -> (r: Result<
    Context,
    Error,
>)
    ensures
        match r {
            Ok(Context::Project(p)) => first_project(above@) == Some(p@),
            Ok(Context::Workspace(p)) => first_project(above@) is None && project_paths(
                below@,
            ).len() > 0 && p@ == cwd@,
            Err(e) => first_project(above@) is None && project_paths(below@).len() == 0 && e@
                == "could not find a jay project in this folder or any subfolder - try jay init"@,
        },
{
    if let Some(root) = find_nest(above) {
        return Ok(Context::Project(root));
    }
    let subs = project_subfolders(below);
    proof {
        order::lemma_text_order();
        order::lemma_sorted(project_paths(below@), order::text_order());
    }
    assert(subs.len() == project_paths(below@).len());
    if subs.len() > 0 {
        return Ok(Context::Workspace(owned(cwd)));
    }
    Err(
        Error::fixed(
            "could not find a jay project in this folder or any subfolder - try jay init",
        ),
    )
}

/// `name` inside `dir`.
pub open spec fn inside(dir: Seq<char>, name: Seq<char>) -> Seq<char> {
    if text::begins(name, "/"@) || dir.len() == 0 {
        name
    } else if dir.last() == '/' {
        dir + name
    } else {
        dir + "/"@ + name
    }
}

/// `name` inside `dir`.
pub fn join_path(dir: &str, name: &str) -> (r: String)
    ensures
        r@ == inside(dir@, name@),
{
    let chars = chars_of(dir);
    if starts_with(name, "/") || chars.len() == 0 {
        owned(name)
    } else if chars[chars.len() - 1] == '/' {
        cat(dir, name)
    } else {
        cat3(dir, "/", name)
    }
}

/// The names along a path; a `.` names nothing.
pub open spec fn path_parts(dir: Seq<char>) -> Seq<Seq<char>> {
    text::split_on(dir, '/').filter(|p: Seq<char>| p.len() > 0 && p != "."@)
}

/// The last part of a path, where it names something.
pub open spec fn last_part(dir: Seq<char>) -> Option<Seq<char>> {
    let parts = path_parts(dir);
    if parts.len() == 0 || parts.last() == ".."@ {
        None
    } else {
        Some(parts.last())
    }
}

/// Default project name: the folder name.
pub fn folder_name(dir: &str) -> (r: String)
    ensures
        r@ == (match last_part(dir@) {
            Some(name) => name,
            None => "project"@,
        }),
{
    let chars = chars_of(dir);
    let all = split(&chars, '/');
    let ghost parts = text::texts(all@);
    let ghost keep = |p: Seq<char>| p.len() > 0 && p != "."@;
    let mut last: Option<String> = None;
    let mut i: usize = 0;
    reveal(Seq::filter);
    assert(parts.take(0) =~= Seq::empty());
    while i < all.len()
        invariant
            i <= all.len(),
            parts == text::texts(all@),
            keep == (|p: Seq<char>| p.len() > 0 && p != "."@),
            match last {
                Some(s) => parts.take(i as int).filter(keep).len() > 0 && s@ == parts.take(
                    i as int,
                ).filter(keep).last(),
                None => parts.take(i as int).filter(keep).len() == 0,
            },
        decreases all.len() - i,
    {
        proof {
            text::lemma_filter_take(parts, keep, i as int);
            reveal_strlit("");
        }
        assert(parts[i as int] == all@[i as int]@);
        let empty = same(all[i].as_str(), "");
        assert(empty == (parts[i as int].len() == 0)) by {
            assert(""@ =~= Seq::<char>::empty());
            if parts[i as int].len() == 0 {
                assert(parts[i as int] =~= ""@);
            }
        }
        if !empty && !same(all[i].as_str(), ".") {
            last = Some(all[i].clone());
        }
        i += 1;
    }
    assert(parts.take(i as int) =~= parts);
    match last {
        Some(s) => if same(s.as_str(), "..") {
            owned("project")
        } else {
            s
        },
        None => owned("project"),
    }
}

/// The trimmed output of a command, where it succeeded and printed something.
pub open spec fn printed(success: bool, out: Seq<char>) -> Option<Seq<char>> {
    if success && !text::blank(out) {
        Some(text::trim(out))
    } else {
        None
    }
}

/// The remote origin URL that `git config --get remote.origin.url` reported.
pub fn detect_git_repo(success: bool, out: &str) -> (r: Option<String>)
    ensures
        text::opt_text(r) == printed(success, out@),
{
    if !success || is_blank(out) {
        None
    } else {
        Some(trimmed(out))
    }
}

/// A file to write.
#[derive(Debug)]
pub struct NewFile {
    pub path: String,
    pub text: String,
}

/// What initializing a project creates.
#[derive(Debug)]
pub struct InitPlan {
    /// Folders, in order.
    pub folders: Vec<String>,
    /// Files with fixed content, in order.
    pub files: Vec<NewFile>,
    /// The config to save.
    pub config: ProjectConfig,
}

/// The config of a new project.
pub open spec fn initial_config(
    dir: Seq<char>,
    name: Option<Seq<char>>,
    git_repo: Option<Seq<char>>,
) -> ProjectConfigView {
    ProjectConfigView {
        name: match name {
            Some(n) => n,
            None => match last_part(dir) {
                Some(n) => n,
                None => "project"@,
            },
        },
        description: Seq::empty(),
        goal: None,
        git_repo,
        branch_template: None,
        git_integration: Some(GitIntegration::Off),
        links: Seq::empty(),
    }
}

/// `jay init [name]`: what creates `.nest/` (config, tasks, milestones). New
/// projects are quiet by default: automation must be opted in.
pub fn init_project(dir: &str, name: Option<&str>, exists: bool, git_repo: Option<String>) -> (r:
    Result<InitPlan, Error>)
    ensures
        match r {
            Ok(plan) => {
                let nest = inside(dir@, NEST_DIR@);
                &&& !exists
                &&& text::texts(plan.folders@) == seq![
                    inside(nest, TASKS_DIR@),
                    inside(nest, KB_DIR@),
                ]
                &&& plan.files.len() == 2
                &&& plan.files@[0].path@ == inside(nest, ".gitignore"@)
                &&& plan.files@[0].text@ == "/lock\n"@
                &&& plan.files@[1].path@ == inside(nest, MILESTONES_FILE@)
                &&& plan.files@[1].text@ == "# milestones\n"@
                &&& plan.config@ == initial_config(
                    dir@,
                    text::given(name),
                    text::opt_text(git_repo),
                )
            },
            Err(e) => exists && e@ == "already a jay project here (.nest exists)"@,
        },
{
    if exists {
        return Err(Error::fixed("already a jay project here (.nest exists)"));
    }
    let nest = join_path(dir, NEST_DIR);
    let mut folders: Vec<String> = Vec::new();
    folders.push(join_path(nest.as_str(), TASKS_DIR));
    folders.push(join_path(nest.as_str(), KB_DIR));
    let mut files: Vec<NewFile> = Vec::new();
    files.push(
        NewFile { path: join_path(nest.as_str(), ".gitignore"), text: owned("/lock\n") },
    );
    files.push(
        NewFile { path: join_path(nest.as_str(), MILESTONES_FILE), text: owned("# milestones\n") },
    );
    let config = ProjectConfig {
        name: match name {
            Some(n) => owned(n),
            None => folder_name(dir),
        },
        description: String::new(),
        goal: None,
        git_repo,
        branch_template: None,
        git_integration: Some(GitIntegration::Off),
        links: Vec::new(),
    };
    assert(config@.description =~= Seq::empty());
    assert(config@.links =~= Seq::empty());
    let ghost nest_view = inside(dir@, NEST_DIR@);
    assert(text::texts(folders@) =~= seq![
        inside(nest_view, TASKS_DIR@),
        inside(nest_view, KB_DIR@),
    ]);
    Ok(InitPlan { folders, files, config })
}

/// The name of the temporary file beside `name` that process `pid` writes
/// before it replaces `name`.
pub fn temporary_name(name: &str, pid: u32) -> (r: String)
    ensures
        r@ == "."@ + name@ + (".tmp-"@ + text::decimal(pid as int)),
{
    let id = natural_text(pid as u128);
    let tail = cat(".tmp-", id.as_str());
    cat3(".", name, tail.as_str())
}

/// A config document completed by the fields of the one it replaces that are
/// neither known nor in it.
pub open spec fn config_preserved(new: DocView, old: DocView) -> DocView {
    doc::completed_doc(new, old, diag::KNOWN_CONFIG_FIELDS@)
}

/// The text of the config file that is written in place of another, preserving
/// unknown fields of the old one. Two documents that read back give a text that
/// is read as the one completed by the other.
pub fn save_config_text(new: &str, old: &str) -> (r: Result<String, Error>)
    ensures
        match (doc::toml_reads(new@), doc::toml_reads(old@)) {
            (Ok(n), Ok(o)) => match r {
                Ok(s) => doc::toml_writes(config_preserved(n, o)) == Ok::<Seq<char>, Seq<char>>(s@),
                Err(e) => doc::toml_writes(config_preserved(n, o)) == Err::<Seq<char>, Seq<char>>(e@),
            },
            (Err(m), _) => r matches Err(e) && e@ == m,
            (_, Err(m)) => r matches Err(e) && e@ == m,
        },
        match (doc::toml_reads(new@), doc::toml_reads(old@)) {
            (Ok(n), Ok(o)) => doc::reads_back(n) && doc::reads_back(o) ==> r is Ok
                && doc::toml_reads(r->Ok_0@) == Ok::<DocView, Seq<char>>(config_preserved(n, o)),
            _ => true,
        },
{
    match complete_text(new, old, &diag::KNOWN_CONFIG_FIELDS) {
        Ok(s) => Ok(s),
        Err(e) => Err(Error::new(e)),
    }
}

/// Saving the config loses no unknown field, writes what the new config says, and
/// clears the known fields that it leaves out.
pub proof fn law_config_extensions_survive(new: DocView, old: DocView, name: Seq<char>)
    requires
        new is Table,
    ensures
        doc::field_of(config_preserved(new, old), name) == (match doc::field_of(new, name) {
            Some(v) => Some(v),
            None => if text::listed(name, diag::KNOWN_CONFIG_FIELDS@) {
                None
            } else {
                doc::field_of(old, name)
            },
        }),
{
    if let (DocView::Table(n), DocView::Table(o)) = (new, old) {
        doc::law_completed(n, o, diag::KNOWN_CONFIG_FIELDS@, name);
    }
}

/// A character of a path as it is compared: the separator goes before every
/// other character.
pub open spec fn path_char(c: char) -> char {
    if c == '/' {
        '\0'
    } else if c == '\0' {
        '/'
    } else {
        c
    }
}

/// A path as it is compared, component by component.
pub open spec fn path_key(p: Seq<char>) -> Seq<char> {
    p.map_values(|c: char| path_char(c))
}

/// Whether the path `a` goes before `b`, component by component.
pub open spec fn path_less(a: Seq<char>, b: Seq<char>) -> bool {
    order::text_less(path_key(a), path_key(b))
}

/// Whether paths are in the order in which their projects are locked: each
/// before the next, so that none comes twice.
pub open spec fn in_lock_order(s: Seq<Seq<char>>) -> bool {
    forall|i: int, j: int| 0 <= i < j < s.len() ==> path_less(#[trigger] s[i], #[trigger] s[j])
}

proof fn lemma_path_key_tells(a: Seq<char>, b: Seq<char>)
    requires
        path_key(a) == path_key(b),
    ensures
        a == b,
{
    assert(path_key(a).len() == a.len() && path_key(b).len() == b.len());
    assert forall|i: int| 0 <= i < a.len() implies a[i] == b[i] by {
        assert(path_key(a)[i] == path_char(a[i]));
        assert(path_key(b)[i] == path_char(b[i]));
    }
    assert(a =~= b);
}

fn key_of(p: &str) -> (r: Vec<char>)
    ensures
        r@ == path_key(p@),
{
    let all = chars_of(p);
    let mut out: Vec<char> = Vec::new();
    let mut i: usize = 0;
    while i < all.len()
        invariant
            i <= all.len(),
            out@ == path_key(all@.take(i as int)),
        decreases all.len() - i,
    {
        let c: char = all[i];
        let mapped: char = if c == '/' {
            '\0'
        } else if c == '\0' {
            '/'
        } else {
            c
        };
        out.push(mapped);
        assert(out@ =~= path_key(all@.take(i + 1)));
        i += 1;
    }
    assert(all@.take(i as int) =~= all@);
    out
}

/// The order in which the projects at the given canonical paths are locked:
/// ascending, with aliases of the same project collapsed.
pub fn lock_order(roots: &Vec<String>) -> (r: Vec<String>)
    ensures
        in_lock_order(text::texts(r@)),
        forall|p: Seq<char>|
            text::texts(r@).contains(p) <==> #[trigger] text::texts(roots@).contains(p),
{
    let mut out: Vec<String> = Vec::new();
    let ghost all = text::texts(roots@);
    let mut i: usize = 0;
    while i < roots.len()
        invariant
            i <= roots.len(),
            all == text::texts(roots@),
            in_lock_order(text::texts(out@)),
            forall|p: Seq<char>|
                text::texts(out@).contains(p) <==> #[trigger] all.take(i as int).contains(p),
        decreases roots.len() - i,
    {
        let ghost before = text::texts(out@);
        let ghost x = all[i as int];
        let key = key_of(roots[i].as_str());
        let mut at: usize = 0;
        while at < out.len() && is_text_less(&key_of(out[at].as_str()), &key)
            invariant
                at <= out.len(),
                key@ == path_key(x),
                before == text::texts(out@),
                forall|j: int| 0 <= j < at ==> path_less(#[trigger] before[j], x),
            decreases out.len() - at,
        {
            assert(before[at as int] == out@[at as int]@);
            at += 1;
        }
        if at < out.len() && same(out[at].as_str(), roots[i].as_str()) {
            assert(before[at as int] == x);
            assert forall|p: Seq<char>|
                text::texts(out@).contains(p) <==> #[trigger] all.take(i + 1).contains(p) by {
                lemma_take_members(all, i as int, p);
            }
        } else {
            proof {
                lemma_lock_place(before, x, at as int);
            }
            out.insert(at, owned(roots[i].as_str()));
            assert(text::texts(out@) =~= before.insert(at as int, x));
            assert forall|p: Seq<char>|
                text::texts(out@).contains(p) <==> #[trigger] all.take(i + 1).contains(p) by {
                lemma_take_members(all, i as int, p);
                lemma_insert_members(before, at as int, x, p);
            }
        }
        i += 1;
    }
    assert(all.take(i as int) =~= all);
    out
}

proof fn lemma_take_members(s: Seq<Seq<char>>, i: int, p: Seq<char>)
    requires
        0 <= i < s.len(),
    ensures
        s.take(i + 1).contains(p) <==> s.take(i).contains(p) || p == s[i],
{
    let front = s.take(i);
    let more = s.take(i + 1);
    assert(more[i] == s[i]);
    if front.contains(p) {
        let k = choose|k: int| 0 <= k < front.len() && front[k] == p;
        assert(more[k] == p);
    }
    if more.contains(p) && p != s[i] {
        let k = choose|k: int| 0 <= k < more.len() && more[k] == p;
        assert(front[k] == p);
    }
}

proof fn lemma_insert_members(s: Seq<Seq<char>>, at: int, x: Seq<char>, p: Seq<char>)
    requires
        0 <= at <= s.len(),
    ensures
        s.insert(at, x).contains(p) <==> s.contains(p) || p == x,
{
    let r = s.insert(at, x);
    assert(r[at] == x);
    if s.contains(p) {
        let k = choose|k: int| 0 <= k < s.len() && s[k] == p;
        if k < at {
            assert(r[k] == p);
        } else {
            assert(r[k + 1] == p);
        }
    }
    if r.contains(p) && p != x {
        let k = choose|k: int| 0 <= k < r.len() && r[k] == p;
        if k < at {
            assert(s[k] == p);
        } else {
            assert(s[k - 1] == p);
        }
    }
}

proof fn lemma_lock_place(s: Seq<Seq<char>>, x: Seq<char>, at: int)
    requires
        0 <= at <= s.len(),
        in_lock_order(s),
        forall|j: int| 0 <= j < at ==> path_less(#[trigger] s[j], x),
        at < s.len() ==> !path_less(s[at], x) && s[at] != x,
    ensures
        in_lock_order(s.insert(at, x)),
{
    if at < s.len() {
        if path_key(s[at]) == path_key(x) {
            lemma_path_key_tells(s[at], x);
        }
        order::lemma_text_less_total(path_key(x), path_key(s[at]));
    }
    let r = s.insert(at, x);
    assert forall|i: int, j: int| 0 <= i < j < r.len() implies path_less(
        #[trigger] r[i],
        #[trigger] r[j],
    ) by {
        if j < at {
            assert(path_less(s[i], s[j]));
        } else if j == at {
            assert(path_less(s[i], x));
        } else if i < at {
            assert(path_less(s[i], s[j - 1]));
        } else if i > at {
            assert(path_less(s[i - 1], s[j - 1]));
        } else if j - 1 > at {
            assert(path_less(s[at], s[j - 1]));
            order::lemma_text_less_chain(path_key(x), path_key(s[at]), path_key(s[j - 1]));
        }
    }
}

/// Whatever the order in which two operations name the same projects, and
/// however often, they lock them in the same order: they cannot wait for each
/// other.
pub proof fn law_lock_order_is_one(a: Seq<Seq<char>>, b: Seq<Seq<char>>)
    requires
        in_lock_order(a),
        in_lock_order(b),
        forall|p: Seq<char>| a.contains(p) <==> #[trigger] b.contains(p),
    ensures
        a == b,
    decreases a.len(),
{
    if a.len() == 0 {
        if b.len() > 0 {
            assert(b.contains(b[0]));
        }
        assert(a =~= b);
    } else {
        assert(a.contains(a.last()));
        assert(b.contains(a.last()));
        assert(b.contains(b.last()));
        assert(a.contains(b.last()));
        lemma_last_is_greatest(a, b.last());
        lemma_last_is_greatest(b, a.last());
        if a.last() != b.last() {
            order::lemma_text_less_chain(path_key(a.last()), path_key(b.last()), path_key(a.last()));
            order::lemma_text_less_irreflexive(path_key(a.last()));
        }
        let x = a.drop_last();
        let y = b.drop_last();
        assert forall|p: Seq<char>| x.contains(p) <==> #[trigger] y.contains(p) by {
            lemma_front_members(a, p);
            lemma_front_members(b, p);
        }
        assert forall|i: int, j: int| 0 <= i < j < x.len() implies path_less(
            #[trigger] x[i],
            #[trigger] x[j],
        ) by {
            assert(path_less(a[i], a[j]));
        }
        assert forall|i: int, j: int| 0 <= i < j < y.len() implies path_less(
            #[trigger] y[i],
            #[trigger] y[j],
        ) by {
            assert(path_less(b[i], b[j]));
        }
        law_lock_order_is_one(x, y);
        assert(a =~= x.push(a.last()));
        assert(b =~= y.push(b.last()));
    }
}

proof fn lemma_last_is_greatest(s: Seq<Seq<char>>, p: Seq<char>)
    requires
        in_lock_order(s),
        s.contains(p),
    ensures
        p == s.last() || path_less(p, s.last()),
{
    let k = choose|k: int| 0 <= k < s.len() && s[k] == p;
    if k < s.len() - 1 {
        assert(path_less(s[k], s[s.len() - 1]));
    }
}

/// What stands in front of the last path is what is there but for it.
proof fn lemma_front_members(s: Seq<Seq<char>>, p: Seq<char>)
    requires
        in_lock_order(s),
        s.len() > 0,
    ensures
        s.drop_last().contains(p) <==> s.contains(p) && p != s.last(),
{
    let x = s.drop_last();
    if x.contains(p) {
        let k = choose|k: int| 0 <= k < x.len() && x[k] == p;
        assert(s[k] == p);
        assert(path_less(s[k], s[s.len() - 1]));
        order::lemma_text_less_irreflexive(path_key(p));
    }
    if s.contains(p) && p != s.last() {
        let k = choose|k: int| 0 <= k < s.len() && s[k] == p;
        assert(x[k] == p);
    }
}

} // verus!
