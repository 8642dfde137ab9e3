//! Task files: one TOML file per task, so `git diff`, `log` and `merge` work
//! directly.
use vstd::prelude::*;

use crate::model;
use crate::model::{Task, TaskView};
use crate::order;
use crate::order::sort_keyed;
use crate::project;
use crate::project::join_path;
use crate::text;
use crate::text::{cat, int_text, parse_int, strip_suffix};

verus! {

/// Path of a task's TOML file (`<root>/.nest/tasks/<id>.toml`).
pub open spec fn task_path(root: Seq<char>, id: i64) -> Seq<char> {
    project::inside(
        project::inside(project::inside(root, project::NEST_DIR@), project::TASKS_DIR@),
        text::decimal(id as int) + ".toml"@,
    )
}

/// Path of a task's TOML file (`<root>/.nest/tasks/<id>.toml`).
pub fn task_file(root: &str, id: i64) -> (r: String)
    ensures
        r@ == task_path(root@, id),
{
    let nest = join_path(root, project::NEST_DIR);
    let dir = join_path(nest.as_str(), project::TASKS_DIR);
    let n = int_text(id);
    let name = cat(n.as_str(), ".toml");
    join_path(dir.as_str(), name.as_str())
}

/// The order of tasks by id.
pub open spec fn by_id() -> spec_fn(TaskView, TaskView) -> bool {
    |a: TaskView, b: TaskView| a.id < b.id
}

/// The tasks of a project, ordered by id, from the records of its task files.
pub fn load_tasks(records: Vec<Task>) -> (r: Vec<Task>)
    ensures
        model::tasks(r@) == order::sorted_by(model::tasks(records@), by_id()),
{
    let mut keys: Vec<(i64, i64)> = Vec::new();
    let mut i: usize = 0;
    while i < records.len()
        invariant
            i <= records.len(),
            keys.len() == i,
            forall|j: int|
                0 <= j < i ==> (#[trigger] keys@[j]).0 == records@[j].id && keys@[j].1 == 0,
        decreases records.len() - i,
    {
        keys.push((records[i].id, 0));
        i += 1;
    }
    let ghost less = |a: Task, b: Task| a.id < b.id;
    let ghost view = |t: Task| t@;
    let ghost all = records@;
    assert forall|a: int, b: int| 0 <= a < all.len() && 0 <= b < all.len() implies #[trigger] less(
        all[a],
        all[b],
    ) == order::pair_less(
        (keys@[a].0 as int, keys@[a].1 as int),
        (keys@[b].0 as int, keys@[b].1 as int),
    ) by {
        assert(keys@[a].0 == records@[a].id);
        assert(keys@[b].0 == records@[b].id);
    }
    proof {
        order::lemma_sorted_map(all, less, view, by_id());
    }
    sort_keyed(records, keys, Ghost(less))
}

/// Loading orders the tasks of a project by id, and keeps each of them.
pub proof fn law_tasks_are_ordered(records: Seq<TaskView>)
    ensures
        order::in_order(order::sorted_by(records, by_id()), by_id()),
        order::sorted_by(records, by_id()).to_multiset() == records.to_multiset(),
{
    assert(order::orders(by_id())) by {
        assert forall|a: TaskView, b: TaskView| #[trigger] by_id()(a, b) implies !by_id()(b, a) by {}
        assert forall|a: TaskView, b: TaskView, c: TaskView|
            #![trigger by_id()(b, a), by_id()(c, b)]
            !by_id()(b, a) && !by_id()(c, b) implies !by_id()(c, a) by {}
    }
    order::lemma_sorted(records, by_id());
}

/// The id that a file name stands for: that of `<id>.toml`.
pub open spec fn file_id(name: Seq<char>) -> Option<i64> {
    match text::before_suffix(name, ".toml"@) {
        Some(stem) => text::integer(stem),
        None => None,
    }
}

/// The file of a task stands for its id.
pub proof fn law_task_file_stands_for_its_id(id: i64)
    ensures
        file_id(text::decimal(id as int) + ".toml"@) == Some(id),
{
    text::lemma_decimal_reads_back(id);
    let stem = text::decimal(id as int);
    let name = stem + ".toml"@;
    assert(name.take(stem.len() as int) =~= stem);
    assert(name.skip(stem.len() as int) =~= ".toml"@);
}

/// The highest id that file names stand for (0 if there is none above).
pub open spec fn highest_file_id(names: Seq<Seq<char>>) -> int
    decreases names.len(),
{
    if names.len() == 0 {
        0
    } else {
        let front = highest_file_id(names.drop_last());
        match file_id(names.last()) {
            Some(id) => if id > front {
                id as int
            } else {
                front
            },
            None => front,
        }
    }
}

/// The highest id that file names stand for (0 if there is none above).
pub fn last_id(names: &Vec<String>) -> (r: i64)
    ensures
        r == highest_file_id(text::texts(names@)),
{
    let ghost all = text::texts(names@);
    let mut highest: i64 = 0;
    let mut i: usize = 0;
    while i < names.len()
        invariant
            i <= names.len(),
            all == text::texts(names@),
            highest == highest_file_id(all.take(i as int)),
        decreases names.len() - i,
    {
        assert(all.take(i + 1).drop_last() =~= all.take(i as int));
        assert(all.take(i + 1).last() == names@[i as int]@);
        if let Some(stem) = strip_suffix(names[i].as_str(), ".toml") {
            if let Some(id) = parse_int(stem.as_str()) {
                if id > highest {
                    highest = id;
                }
            }
        }
        i += 1;
    }
    assert(all.take(i as int) =~= all);
    highest
}

/// Next available id: the highest existing numeric file name plus one (1 if
/// none).
pub fn next_id(names: &Vec<String>) -> (r: i64)
    requires
        highest_file_id(text::texts(names@)) < i64::MAX,
    ensures
        r == highest_file_id(text::texts(names@)) + 1,
{
    last_id(names) + 1
}

/// The next id is positive, and no task file stands for it yet.
pub proof fn law_next_id_is_new(names: Seq<Seq<char>>)
    ensures
        highest_file_id(names) >= 0,
        forall|i: int|
            0 <= i < names.len() ==> (file_id(#[trigger] names[i]) matches Some(id) ==> id
                <= highest_file_id(names)),
    decreases names.len(),
{
    if names.len() > 0 {
        law_next_id_is_new(names.drop_last());
        assert forall|i: int| 0 <= i < names.len() implies (file_id(
            #[trigger] names[i],
        ) matches Some(id) ==> id <= highest_file_id(names)) by {
            if i < names.len() - 1 {
                assert(names.drop_last()[i] == names[i]);
            }
        }
    }
}

} // verus!
