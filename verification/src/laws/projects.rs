//! Projects: where they are, how they are configured, and how their tasks are
//! numbered.
use vstd::prelude::*;

use crate::laws::edits::says;
use crate::laws::texts;
use crate::model::TaskView;
use crate::order;
use crate::project;
use crate::project::{Folder, GitIntegration, ProjectConfigView};
use crate::tasks;
use crate::text;

verus! {

/// The policy in effect is the one that is set; where none is, it is automatic
/// exactly when a repository or a branch template says something.
pub proof fn law_policy_in_effect(c: ProjectConfigView)
    ensures
        c.git_integration matches Some(g) ==> project::effective_integration(c) == g,
        c.git_integration is None ==> (project::effective_integration(c) == GitIntegration::Auto
            <==> (c.git_repo matches Some(s) && says(s)) || (c.branch_template matches Some(s)
            && says(s))),
{
}

/// A policy is named in words, white space around it aside.
pub proof fn law_policies_are_named(s: Seq<char>)
    ensures
        project::integration_of(s) == Some(GitIntegration::Off) <==> text::trim(s) == "off"@,
        project::integration_of(s) == Some(GitIntegration::Auto) <==> text::trim(s) == "auto"@,
{
    reveal_strlit("off");
    reveal_strlit("auto");
    assert("off"@.len() == 3 && "auto"@.len() == 4);
}

/// Whether the `k`-th folder is the first that holds a config.
pub open spec fn first_config_at(folders: Seq<Folder>, k: int) -> bool {
    0 <= k < folders.len() && folders[k].has_config && forall|j: int|
        0 <= j < k ==> !(#[trigger] folders[j]).has_config
}

/// The project of a folder is the nearest folder, upwards, that holds a config, and
/// there is none exactly when none does.
pub proof fn law_nearest_project(folders: Seq<Folder>)
    ensures
        match project::first_project(folders) {
            Some(p) => exists|k: int| #[trigger]
                first_config_at(folders, k) && folders[k].path@ == p,
            None => forall|k: int|
                0 <= k < folders.len() ==> !(#[trigger] folders[k]).has_config,
        },
    decreases folders.len(),
{
    if folders.len() > 0 {
        let rest = folders.skip(1);
        law_nearest_project(rest);
        if folders[0].has_config {
            assert(first_config_at(folders, 0));
        } else {
            match project::first_project(rest) {
                Some(p) => {
                    let k = choose|k: int| #[trigger]
                        first_config_at(rest, k) && rest[k].path@ == p;
                    assert(folders[k + 1] == rest[k]);
                    assert(first_config_at(folders, k + 1)) by {
                        assert forall|j: int| 0 <= j < k + 1 implies !(
                        #[trigger] folders[j]).has_config by {
                            if j > 0 {
                                assert(rest[j - 1] == folders[j]);
                            }
                        }
                    }
                },
                None => {
                    assert forall|k: int| 0 <= k < folders.len() implies !(
                    #[trigger] folders[k]).has_config by {
                        if k > 0 {
                            assert(rest[k - 1] == folders[k]);
                        }
                    }
                },
            }
        }
    }
}

/// The projects of a workspace are the folders that hold a config, and those only.
pub proof fn law_projects_of_a_workspace(folders: Seq<Folder>, p: Seq<char>)
    ensures
        project::project_paths(folders).contains(p) <==> exists|k: int|
            0 <= k < folders.len() && (#[trigger] folders[k]).has_config && folders[k].path@ == p,
        project::project_paths(folders).len() == folders.filter(|f: Folder| f.has_config).len(),
    decreases folders.len(),
{
    reveal(Seq::filter);
    if folders.len() > 0 {
        let front = folders.drop_last();
        let a = project::project_paths(front);
        let all = project::project_paths(folders);
        law_projects_of_a_workspace(front, p);
        if all.contains(p) {
            let i = choose|i: int| 0 <= i < all.len() && all[i] == p;
            if i < a.len() {
                assert(a[i] == p);
                let k = choose|k: int|
                    0 <= k < front.len() && (#[trigger] front[k]).has_config && front[k].path@ == p;
                assert(folders[k] == front[k]);
            } else {
                assert(folders[folders.len() - 1] == folders.last());
            }
        }
        if exists|k: int|
            0 <= k < folders.len() && (#[trigger] folders[k]).has_config && folders[k].path@ == p {
            let k = choose|k: int|
                0 <= k < folders.len() && (#[trigger] folders[k]).has_config && folders[k].path@ == p;
            if k < front.len() {
                assert(front[k] == folders[k]);
                let i = choose|i: int| 0 <= i < a.len() && a[i] == p;
                assert(all[i] == p);
            } else {
                assert(all[a.len() as int] == p);
            }
        }
    }
}

/// A name inside a folder stands behind the folder and one slash; an absolute name
/// stands alone.
pub proof fn law_paths(dir: Seq<char>, name: Seq<char>)
    ensures
        "/"@.is_prefix_of(name) ==> project::inside(dir, name) == name,
        !"/"@.is_prefix_of(name) && dir.len() > 0 && dir.last() != '/' ==> project::inside(
            dir,
            name,
        ) == dir + seq!['/'] + name,
        !"/"@.is_prefix_of(name) && dir.len() > 0 && dir.last() == '/' ==> project::inside(
            dir,
            name,
        ) == dir + name,
        dir.len() == 0 ==> project::inside(dir, name) == name,
{
    text::law_begins(name, "/"@);
    reveal_strlit("/");
    assert("/"@ =~= seq!['/']);
}

/// The default name of a project is the last part of its folder that names
/// something; a trailing slash or a dot does not.
pub proof fn law_folders_are_named(dir: Seq<char>, name: Seq<char>)
    requires
        name.len() > 0,
        !name.contains('/'),
        name != "."@,
        name != ".."@,
    ensures
        project::last_part(dir + seq!['/'] + name) == Some(name),
        project::last_part(dir + seq!['/']) == project::last_part(dir),
        project::last_part(name) == Some(name),
{
    let none = Seq::<char>::empty();
    let keep = |p: Seq<char>| p.len() > 0 && p != "."@;
    texts::law_splitting_on(dir, '/', name);
    texts::law_splitting_on(name, '/', none);
    texts::law_splitting_on(dir, '/', none);
    texts::law_splitting_on(none, '/', none);
    assert(dir + seq!['/'] + none =~= dir + seq!['/']);
    reveal(Seq::filter);
    let a = text::split_on(dir, '/');
    lemma_filter_more(a, name, keep);
    lemma_filter_more(a, none, keep);
    lemma_filter_more(Seq::empty(), name, keep);
    assert(Seq::<Seq<char>>::empty() + seq![name] =~= seq![name]);
}

proof fn lemma_filter_more(a: Seq<Seq<char>>, x: Seq<char>, keep: spec_fn(Seq<char>) -> bool)
    ensures
        (a + seq![x]).filter(keep) == if keep(x) {
            a.filter(keep).push(x)
        } else {
            a.filter(keep)
        },
{
    reveal(Seq::filter);
    let s = a + seq![x];
    assert(s.drop_last() =~= a);
    assert(s.last() == x);
}

/// The output of a command counts where the command succeeded and printed
/// something, without the white space around it.
pub proof fn law_output_counts(success: bool, out: Seq<char>)
    ensures
        project::printed(success, out) is Some <==> success && says(out),
        project::printed(success, out) matches Some(s) ==> s == text::trim(out),
{
}

/// A new project is quiet: it has its name, the repository that was found and
/// nothing else, and no automation.
pub proof fn law_new_project_is_quiet(
    dir: Seq<char>,
    name: Option<Seq<char>>,
    git_repo: Option<Seq<char>>,
)
    ensures
        ({
            let c = project::initial_config(dir, name, git_repo);
            &&& name matches Some(n) ==> c.name == n
            &&& name is None && project::last_part(dir) is Some ==> c.name == project::last_part(
                dir,
            )->0
            &&& name is None && project::last_part(dir) is None ==> c.name == "project"@
            &&& c.git_repo == git_repo
            &&& c.git_integration == Some(GitIntegration::Off)
            &&& project::effective_integration(c) == GitIntegration::Off
            &&& c.description.len() == 0 && c.links.len() == 0
            &&& c.goal is None && c.branch_template is None
        }),
{
}

/// The id that the name of a task file stands for: a number before `.toml`.
pub open spec fn stands_for(name: Seq<char>, id: i64) -> bool {
    exists|stem: Seq<char>| name == #[trigger] (stem + ".toml"@) && text::integer(stem) == Some(id)
}

proof fn lemma_stands_for(name: Seq<char>, id: i64)
    ensures
        tasks::file_id(name) == Some(id) <==> stands_for(name, id),
{
    texts::law_affixes(name, ".toml"@);
    if stands_for(name, id) {
        let stem = choose|stem: Seq<char>|
            name == #[trigger] (stem + ".toml"@) && text::integer(stem) == Some(id);
        assert(".toml"@.is_suffix_of(name)) by {
            assert(name.subrange(stem.len() as int, name.len() as int) =~= ".toml"@);
        }
        let r = text::before_suffix(name, ".toml"@)->0;
        assert(r =~= stem) by {
            assert(r + ".toml"@ == stem + ".toml"@);
            assert(r.len() == stem.len());
            assert forall|i: int| 0 <= i < r.len() implies r[i] == stem[i] by {
                assert((r + ".toml"@)[i] == (stem + ".toml"@)[i]);
            }
        }
    }
}

/// The highest id in use is that of some task file, or zero where none has a
/// positive one, and no task file has a higher one.
pub proof fn law_highest_id_in_use(names: Seq<Seq<char>>)
    ensures
        ({
            let h = tasks::highest_file_id(names);
            &&& h >= 0
            &&& h > 0 ==> exists|i: int, id: i64|
                0 <= i < names.len() && h == id && #[trigger] stands_for(names[i], id)
            &&& forall|i: int, id: i64|
                0 <= i < names.len() && #[trigger] stands_for(names[i], id) ==> id <= h
        }),
    decreases names.len(),
{
    let h = tasks::highest_file_id(names);
    if names.len() > 0 {
        let front = names.drop_last();
        let k = names.len() - 1;
        law_highest_id_in_use(front);
        let g = tasks::highest_file_id(front);
        assert forall|i: int, id: i64|
            0 <= i < names.len() && #[trigger] stands_for(names[i], id) implies id <= h by {
            if i < front.len() {
                assert(front[i] == names[i]);
                assert(stands_for(front[i], id));
            } else {
                lemma_stands_for(names[k], id);
            }
        }
        if h > 0 {
            if h == g {
                let (i, id) = choose|i: int, id: i64|
                    0 <= i < front.len() && g == id && #[trigger] stands_for(front[i], id);
                assert(names[i] == front[i]);
                assert(stands_for(names[i], id));
            } else {
                let id = tasks::file_id(names[k])->0;
                lemma_stands_for(names[k], id);
                assert(stands_for(names[k], id));
            }
        }
    }
}

/// Tasks are loaded by id, from the lowest on, and every record is.
pub proof fn law_tasks_are_loaded_by_id(records: Seq<TaskView>)
    ensures
        ({
            let all = order::sorted_by(records, tasks::by_id());
            &&& all.to_multiset() == records.to_multiset()
            &&& forall|i: int, j: int|
                0 <= i < j < all.len() ==> (#[trigger] all[i]).id <= (#[trigger] all[j]).id
        }),
{
    let less = tasks::by_id();
    tasks::law_tasks_are_ordered(records);
    let all = order::sorted_by(records, less);
    assert forall|i: int, j: int| 0 <= i < j < all.len() implies (#[trigger] all[i]).id <= (
    #[trigger] all[j]).id by {
        assert(!less(all[j], all[i]));
    }
}

/// The file of a task is `<id>.toml` in `.nest/tasks` below the root.
pub proof fn law_task_files_have_their_place(root: Seq<char>, id: i64)
    requires
        root.len() > 0,
        root.last() != '/',
    ensures
        tasks::task_path(root, id) == root + "/.nest/tasks/"@ + text::decimal(id as int) + ".toml"@,
{
    reveal_strlit(".nest");
    reveal_strlit("tasks");
    reveal_strlit("/.nest/tasks/");
    reveal_strlit("/");
    reveal_strlit(".toml");
    text::lemma_decimal_chars(id as int);
    let name = text::decimal(id as int) + ".toml"@;
    law_paths(root, ".nest"@);
    let nest = root + seq!['/'] + ".nest"@;
    assert(!"/"@.is_prefix_of(".nest"@)) by {
        assert(".nest"@.subrange(0, 1)[0] == '.');
        assert("/"@[0] == '/');
    }
    law_paths(nest, "tasks"@);
    assert(!"/"@.is_prefix_of("tasks"@)) by {
        assert("tasks"@.subrange(0, 1)[0] == 't');
        assert("/"@[0] == '/');
    }
    let dir = nest + seq!['/'] + "tasks"@;
    assert(nest.last() == 't');
    assert(dir.last() == 's');
    law_paths(dir, name);
    assert(!"/"@.is_prefix_of(name)) by {
        if "/"@.is_prefix_of(name) {
            assert(name.subrange(0, 1)[0] == name[0]);
            assert("/"@[0] == '/');
            if text::decimal(id as int).len() > 0 {
                assert(text::decimal(id as int)[0] == name[0]);
                assert(text::decimal(id as int).contains('/'));
            }
        }
    }
    assert(dir + seq!['/'] + name =~= root + "/.nest/tasks/"@ + text::decimal(id as int)
        + ".toml"@);
}

} // verus!
