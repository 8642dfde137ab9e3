use jay::model::{Task, TaskStatus};
use jay::tasks::{last_id, load_tasks, next_id, task_file};

fn names(list: &[&str]) -> Vec<String> {
    list.iter().map(|s| s.to_string()).collect()
}

#[test]
fn roundtrip_task_and_next_id() {
    assert_eq!(next_id(&names(&[])), 1);
    let t = Task::new(1, "first".into(), "do it".into());
    assert_eq!(next_id(&names(&["1.toml"])), 2);
    let loaded = load_tasks(vec![t]);
    assert_eq!(loaded[0].title, "first");
    assert_eq!(loaded[0].status, TaskStatus::Open);
    assert_eq!(next_id(&names(&["1.toml", "5.toml"])), 6);
}

#[test]
fn ids_come_from_numeric_file_names() {
    assert_eq!(
        last_id(&names(&["3.toml", "x.toml", "9.txt", "-4.toml", "+7.toml"])),
        7
    );
    assert_eq!(last_id(&names(&["-4.toml"])), 0);
    assert_eq!(last_id(&names(&["99999999999999999999.toml"])), 0);
}

#[test]
fn task_files_are_named_by_id() {
    assert_eq!(task_file("/w/p", 12), "/w/p/.nest/tasks/12.toml");
}

#[test]
fn tasks_are_ordered_by_id() {
    let t = |id: i64| Task::new(id, format!("t{id}"), String::new());
    let out = load_tasks(vec![t(3), t(1), t(2)]);
    let ids: Vec<i64> = out.iter().map(|t| t.id).collect();
    assert_eq!(ids, vec![1, 2, 3]);
}

#[test]
fn a_task_file_stands_for_its_id() {
    for id in [1i64, 42, i64::MAX - 1] {
        assert_eq!(last_id(&vec![format!("{id}.toml")]), id);
    }
}
