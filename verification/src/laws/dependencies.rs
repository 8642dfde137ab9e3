//! Dependencies: which are accepted, which count as completed, and what is ready.
use vstd::prelude::*;

use crate::diag;
use crate::graph;
use crate::graph::NodeView;
use crate::model;
use crate::model::{Priority, TaskAction, TaskStatus, TaskView, TimesView};
use crate::order;
use crate::service;
use crate::text;

verus! {

/// Whether the `k`-th task is the first with the given id.
pub open spec fn first_at(all: Seq<TaskView>, id: i64, k: int) -> bool {
    0 <= k < all.len() && all[k].id == id && forall|j: int|
        0 <= j < k ==> (#[trigger] all[j]).id != id
}

/// Whether `from` depends on `to`: the task itself by its own edges, any other id
/// by those of the first other task that has it.
pub open spec fn depends_step(t: TaskView, others: Seq<TaskView>, from: i64, to: i64) -> bool {
    if from == t.id {
        t.depends_on.contains(to)
    } else {
        exists|k: int| #[trigger]
            first_at(others, from, k) && others[k].depends_on.contains(to)
    }
}

proof fn lemma_first_in_rest(all: Seq<TaskView>, id: i64, k: int)
    requires
        first_at(all, id, k),
        k > 0,
    ensures
        first_at(all.skip(1), id, k - 1),
{
    let rest = all.skip(1);
    assert forall|j: int| 0 <= j < k - 1 implies (#[trigger] rest[j]).id != id by {
        assert(rest[j] == all[j + 1]);
    }
}

/// Where an id occurs, some task is the first with it.
proof fn lemma_first_exists(all: Seq<TaskView>, id: i64, k: int) -> (m: int)
    requires
        0 <= k < all.len(),
        all[k].id == id,
    ensures
        first_at(all, id, m),
    decreases k,
{
    if forall|j: int| 0 <= j < k ==> (#[trigger] all[j]).id != id {
        k
    } else {
        let j = choose|j: int| 0 <= j < k && (#[trigger] all[j]).id == id;
        lemma_first_exists(all, id, j)
    }
}

proof fn lemma_first_targets(others: Seq<TaskView>, from: i64, k: int)
    requires
        first_at(others, from, k),
    ensures
        graph::targets(diag::dependency_graph(others), from) == others[k].depends_on,
    decreases others.len(),
{
    let g = diag::dependency_graph(others);
    assert(g[0] == NodeView { id: others[0].id, to: others[0].depends_on });
    if k > 0 {
        assert(g.skip(1) =~= diag::dependency_graph(others.skip(1)));
        lemma_first_in_rest(others, from, k);
        lemma_first_targets(others.skip(1), from, k - 1);
    }
}

proof fn lemma_no_targets(others: Seq<TaskView>, from: i64)
    requires
        forall|k: int| 0 <= k < others.len() ==> (#[trigger] others[k]).id != from,
    ensures
        graph::targets(diag::dependency_graph(others), from) == Seq::<i64>::empty(),
    decreases others.len(),
{
    let g = diag::dependency_graph(others);
    if others.len() > 0 {
        let rest = others.skip(1);
        assert(g[0] == NodeView { id: others[0].id, to: others[0].depends_on });
        assert(g.skip(1) =~= diag::dependency_graph(rest));
        assert forall|k: int| 0 <= k < rest.len() implies (#[trigger] rest[k]).id != from by {
            assert(rest[k] == others[k + 1]);
        }
        lemma_no_targets(rest, from);
    }
}

/// What an id refers to is what the first with that id refers to.
pub proof fn lemma_targets_of_others(others: Seq<TaskView>, from: i64, to: i64)
    ensures
        graph::targets(diag::dependency_graph(others), from).contains(to) <==> exists|k: int|
            #[trigger] first_at(others, from, k) && others[k].depends_on.contains(to),
{
    if forall|k: int| 0 <= k < others.len() ==> (#[trigger] others[k]).id != from {
        lemma_no_targets(others, from);
    } else {
        let k = choose|k: int| 0 <= k < others.len() && (#[trigger] others[k]).id == from;
        let m = lemma_first_exists(others, from, k);
        lemma_first_targets(others, from, m);
        assert forall|n: int| #[trigger] first_at(others, from, n) implies n == m by {
            if n < m {
                assert(others[n].id != from);
            } else if m < n {
                assert(others[m].id != from);
            }
        }
    }
}

proof fn lemma_projected_step(t: TaskView, others: Seq<TaskView>, from: i64, to: i64)
    ensures
        graph::targets(service::projected_graph(t, others), from).contains(to) == depends_step(
            t,
            others,
            from,
            to,
        ),
{
    let g = service::projected_graph(t, others);
    assert(g.skip(1) =~= diag::dependency_graph(others));
    lemma_targets_of_others(others, from, to);
}

proof fn lemma_found(all: Seq<TaskView>, id: i64, k: int)
    requires
        first_at(all, id, k),
    ensures
        diag::find_task(all, id) == Some(all[k]),
    decreases all.len(),
{
    if k > 0 {
        lemma_first_in_rest(all, id, k);
        lemma_found(all.skip(1), id, k - 1);
    }
}

proof fn lemma_not_found(all: Seq<TaskView>, id: i64)
    requires
        forall|k: int| 0 <= k < all.len() ==> (#[trigger] all[k]).id != id,
    ensures
        diag::find_task(all, id) is None,
    decreases all.len(),
{
    if all.len() > 0 {
        let rest = all.skip(1);
        assert forall|k: int| 0 <= k < rest.len() implies (#[trigger] rest[k]).id != id by {
            assert(rest[k] == all[k + 1]);
        }
        lemma_not_found(rest, id);
    }
}

/// Whether some task has the given id, whatever its status.
pub open spec fn has_id(all: Seq<TaskView>, id: i64) -> bool {
    exists|k: int| 0 <= k < all.len() && (#[trigger] all[k]).id == id
}

/// Looking up a task by id gives the first that has it, and nothing exactly when
/// none does.
pub proof fn law_tasks_are_found_by_id(all: Seq<TaskView>, id: i64)
    ensures
        match diag::find_task(all, id) {
            Some(t) => exists|k: int| #[trigger] first_at(all, id, k) && all[k] == t,
            None => !has_id(all, id),
        },
{
    if has_id(all, id) {
        let k = choose|k: int| 0 <= k < all.len() && (#[trigger] all[k]).id == id;
        let m = lemma_first_exists(all, id, k);
        lemma_found(all, id, m);
    } else {
        lemma_not_found(all, id);
    }
}

/// Whether the `j`-th dependency of a task is on another one that exists, and
/// stands there for the first time.
spec fn edge_holds(t: TaskView, others: Seq<TaskView>, j: int) -> bool {
    t.depends_on[j] != t.id && !t.depends_on.take(j).contains(t.depends_on[j]) && has_id(
        others,
        t.depends_on[j],
    )
}

proof fn lemma_edges_accepted(t: TaskView, others: Seq<TaskView>, i: int)
    requires
        0 <= i <= t.depends_on.len(),
    ensures
        service::edge_refusal(t, others, i) is None <==> forall|j: int|
            i <= j < t.depends_on.len() ==> #[trigger] edge_holds(t, others, j),
    decreases t.depends_on.len() - i,
{
    if i < t.depends_on.len() {
        law_tasks_are_found_by_id(others, t.depends_on[i]);
        lemma_edges_accepted(t, others, i + 1);
        assert(service::edge_refusal(t, others, i) is None <==> edge_holds(t, others, i)
            && service::edge_refusal(t, others, i + 1) is None);
        if forall|j: int| i + 1 <= j < t.depends_on.len() ==> #[trigger] edge_holds(t, others, j) {
            if edge_holds(t, others, i) {
                assert forall|j: int| i <= j < t.depends_on.len() implies #[trigger] edge_holds(
                    t,
                    others,
                    j,
                ) by {}
            }
        }
    }
}

/// Whether the `i`-th id of `w` depends on the next one.
pub open spec fn depends_at(t: TaskView, others: Seq<TaskView>, w: Seq<i64>, i: int) -> bool {
    depends_step(t, others, w[i], w[i + 1])
}

/// Whether `w` begins at a task and follows dependencies from id to id.
pub open spec fn depends_walk(t: TaskView, others: Seq<TaskView>, w: Seq<i64>) -> bool {
    w.len() > 0 && w[0] == t.id && forall|i: int|
        0 <= i < w.len() - 1 ==> #[trigger] depends_at(t, others, w, i)
}

proof fn lemma_walks_agree(t: TaskView, others: Seq<TaskView>, w: Seq<i64>)
    ensures
        depends_walk(t, others, w) == (w.len() > 0 && w[0] == t.id && graph::walk(
            service::projected_graph(t, others),
            w,
        )),
{
    let g = service::projected_graph(t, others);
    if w.len() > 0 && w[0] == t.id && graph::walk(g, w) {
        assert forall|i: int| 0 <= i < w.len() - 1 implies #[trigger] depends_at(
            t,
            others,
            w,
            i,
        ) by {
            assert(graph::targets(g, w[i]).contains(w[i + 1]));
            lemma_projected_step(t, others, w[i], w[i + 1]);
        }
    }
    if depends_walk(t, others, w) {
        assert forall|i: int| 0 <= i < w.len() - 1 implies graph::targets(
            g,
            #[trigger] w[i],
        ).contains(w[i + 1]) by {
            assert(depends_at(t, others, w, i));
            lemma_projected_step(t, others, w[i], w[i + 1]);
        }
    }
}

proof fn lemma_walks_decide(t: TaskView, others: Seq<TaskView>)
    ensures
        graph::first_cycle_from(service::projected_graph(t, others), t.id) is None
            <==> forall|w: Seq<i64>|
            #[trigger] depends_walk(t, others, w) ==> w.no_duplicates(),
{
    let g = service::projected_graph(t, others);
    graph::law_first_cycle_decides(g, t.id);
    if graph::acyclic_from(g, t.id) {
        assert forall|w: Seq<i64>| #[trigger] depends_walk(
            t,
            others,
            w,
        ) implies w.no_duplicates() by {
            lemma_walks_agree(t, others, w);
        }
    }
    if forall|w: Seq<i64>| #[trigger] depends_walk(t, others, w) ==> w.no_duplicates() {
        assert forall|w: Seq<i64>|
            w.len() > 0 && w[0] == t.id && #[trigger] graph::walk(g, w) implies w.no_duplicates() by {
            lemma_walks_agree(t, others, w);
        }
    }
}

/// The dependencies of a task are accepted exactly when none is on the task
/// itself, none comes twice, each is on a task of the project, whatever its
/// status, and following them from the task never comes to an id twice.
pub proof fn law_dependencies_are_accepted(t: TaskView, others: Seq<TaskView>)
    ensures
        service::dependency_refusal(t, others) is None <==> {
            &&& !t.depends_on.contains(t.id)
            &&& t.depends_on.no_duplicates()
            &&& forall|i: int|
                0 <= i < t.depends_on.len() ==> has_id(others, #[trigger] t.depends_on[i])
            &&& forall|w: Seq<i64>| #[trigger]
                depends_walk(t, others, w) ==> w.no_duplicates()
        },
{
    lemma_edges_accepted(t, others, 0);
    lemma_walks_decide(t, others);
    let d = t.depends_on;
    if service::edge_refusal(t, others, 0) is None {
        assert forall|i: int| 0 <= i < d.len() implies has_id(others, #[trigger] d[i]) && d[i]
            != t.id by {
            assert(edge_holds(t, others, i));
        }
        assert forall|a: int, b: int| 0 <= a < d.len() && 0 <= b < d.len() && a != b implies d[a]
            != d[b] by {
            let (low, high) = if a < b {
                (a, b)
            } else {
                (b, a)
            };
            assert(edge_holds(t, others, high));
            assert(d.take(high)[low] == d[low]);
        }
    } else if !d.contains(t.id) && d.no_duplicates() && forall|i: int|
        0 <= i < d.len() ==> has_id(others, #[trigger] d[i]) {
        assert forall|j: int| 0 <= j < d.len() implies #[trigger] edge_holds(t, others, j) by {
            assert(has_id(others, d[j]));
            if d.take(j).contains(d[j]) {
                let m = choose|m: int| 0 <= m < d.take(j).len() && d.take(j)[m] == d[j];
                assert(d[m] == d[j]);
            }
        }
    }
}

/// Whether some task with the given id is closed.
pub open spec fn completed(all: Seq<TaskView>, id: i64) -> bool {
    exists|i: int|
        0 <= i < all.len() && (#[trigger] all[i]).id == id && all[i].status == TaskStatus::Closed
}

/// Whether a task can be worked on: it is open, nothing blocks it, and everything
/// that it depends on is completed.
pub open spec fn workable(all: Seq<TaskView>, t: TaskView) -> bool {
    t.status == TaskStatus::Open && !t.blocked && forall|k: int|
        0 <= k < t.depends_on.len() ==> completed(all, #[trigger] t.depends_on[k])
}

/// A prerequisite counts as completed exactly when a task with its id is closed:
/// neither a cancelled nor a missing one does. The unmet dependencies are the
/// others, in order, and a task is ready when it can be worked on.
pub proof fn law_only_closed_counts(all: Seq<TaskView>, t: TaskView)
    ensures
        service::unmet(all, t) == t.depends_on.filter(|d: i64| !completed(all, d)),
        service::is_ready(all, t) == workable(all, t),
{
    let f = |d: i64| !completed(all, d);
    let g = |d: i64| !service::is_met(all, d);
    assert forall|d: i64| #[trigger] f(d) == g(d) by {
        if completed(all, d) {
            let i = choose|i: int|
                0 <= i < all.len() && (#[trigger] all[i]).id == d && all[i].status
                    == TaskStatus::Closed;
            assert(service::is_met(all, d));
        }
        if service::is_met(all, d) {
            let i = choose|i: int|
                0 <= i < all.len() && (#[trigger] all[i]).id == d && all[i].status
                    == TaskStatus::Closed;
            assert(completed(all, d));
        }
    }
    text::lemma_filter_same(t.depends_on, f, g);
    lemma_none_kept(t.depends_on, f);
    if workable(all, t) {
        assert forall|k: int| 0 <= k < t.depends_on.len() implies !f(#[trigger] t.depends_on[k]) by {}
    }
    if service::is_ready(all, t) {
        assert forall|k: int| 0 <= k < t.depends_on.len() implies completed(
            all,
            #[trigger] t.depends_on[k],
        ) by {
            assert(!f(t.depends_on[k]));
        }
    }
}

/// A filter keeps nothing exactly when its predicate holds of nothing.
pub proof fn lemma_none_kept<T>(s: Seq<T>, f: spec_fn(T) -> bool)
    ensures
        s.filter(f).len() == 0 <==> forall|k: int| 0 <= k < s.len() ==> !f(#[trigger] s[k]),
    decreases s.len(),
{
    reveal(Seq::filter);
    if s.len() > 0 {
        let front = s.drop_last();
        lemma_none_kept(front, f);
        if s.filter(f).len() == 0 {
            assert forall|k: int| 0 <= k < s.len() implies !f(#[trigger] s[k]) by {
                if k < front.len() {
                    assert(front[k] == s[k]);
                }
            }
        }
        if forall|k: int| 0 <= k < s.len() ==> !f(#[trigger] s[k]) {
            assert forall|k: int| 0 <= k < front.len() implies !f(#[trigger] front[k]) by {
                assert(front[k] == s[k]);
            }
            assert(!f(s[s.len() - 1]));
        }
    }
}

/// What a filter keeps, it keeps as often as it was there.
pub proof fn lemma_filter_count<T>(s: Seq<T>, f: spec_fn(T) -> bool, x: T)
    ensures
        s.filter(f).to_multiset().count(x) == (if f(x) {
            s.to_multiset().count(x)
        } else {
            0
        }),
    decreases s.len(),
{
    reveal(Seq::filter);
    broadcast use vstd::seq_lib::group_to_multiset_ensures;

    if s.len() == 0 {
        assert(s.to_multiset() =~= vstd::multiset::Multiset::empty());
        assert(s.filter(f) =~= Seq::empty());
        assert(s.filter(f).to_multiset() =~= vstd::multiset::Multiset::empty());
    } else {
        let front = s.drop_last();
        lemma_filter_count(front, f, x);
        assert(s =~= front.push(s.last()));
        assert(s.to_multiset() =~= front.to_multiset().insert(s.last()));
        if f(s.last()) {
            assert(s.filter(f) == front.filter(f).push(s.last()));
            assert(s.filter(f).to_multiset() =~= front.filter(f).to_multiset().insert(s.last()));
        }
    }
}

/// The place of a priority among the others: the most urgent comes first.
pub open spec fn place(p: Priority) -> int {
    match p {
        Priority::Highest => 0,
        Priority::High => 1,
        Priority::Medium => 2,
        Priority::Low => 3,
        Priority::Lowest => 4,
    }
}

/// Ready work is listed by priority, from highest to lowest, and within one
/// priority by id; each task that can be worked on is listed as often as the
/// project has it, and no other task is.
pub proof fn law_ready_work_is_listed(all: Seq<TaskView>, t: TaskView)
    ensures
        ({
            let ready = order::sorted_by(service::ready_among(all), service::urgency());
            &&& forall|i: int, j: int|
                0 <= i < j < ready.len() ==> place((#[trigger] ready[i]).priority) < place(
                    (#[trigger] ready[j]).priority,
                ) || ready[i].priority == ready[j].priority && ready[i].id <= ready[j].id
            &&& ready.to_multiset().count(t) == (if workable(all, t) {
                all.to_multiset().count(t)
            } else {
                0
            })
        }),
{
    let some = service::ready_among(all);
    let ready = order::sorted_by(some, service::urgency());
    service::lemma_urgency_orders();
    order::lemma_sorted(some, service::urgency());
    law_only_closed_counts(all, t);
    lemma_filter_count(all, |x: TaskView| service::is_ready(all, x), t);
    assert forall|i: int, j: int| 0 <= i < j < ready.len() implies place(
        (#[trigger] ready[i]).priority,
    ) < place((#[trigger] ready[j]).priority) || ready[i].priority == ready[j].priority
        && ready[i].id <= ready[j].id by {
        assert(!service::urgency()(ready[j], ready[i]));
    }
}

/// A start is refused for dependencies exactly when one of them is not completed,
/// and otherwise accepted whenever the state machine accepts it and the record is
/// sound.
pub proof fn law_start_waits_for_dependencies(
    id: i64,
    t: TaskView,
    all: Seq<TaskView>,
    actor: Seq<char>,
    reason: Option<Seq<char>>,
    times: TimesView,
    now: Seq<char>,
)
    requires
        diag::find_task(all, id) == Some(t),
    ensures
        ({
            let out = service::action_outcome(
                id,
                t,
                all,
                TaskAction::Start,
                actor,
                reason,
                times,
                now,
            );
            let waits = exists|k: int|
                0 <= k < t.depends_on.len() && !completed(all, #[trigger] t.depends_on[k]);
            let started = model::applied(t, TaskAction::Start, actor, reason, times);
            &&& waits ==> out is Err
            &&& !waits && t.status == TaskStatus::Open && !t.blocked && service::record_refusal(
                started,
            ) is None ==> out == Ok::<TaskView, Seq<char>>(
                TaskView { updated_at: now, ..started },
            )
            &&& out is Ok ==> t.status == TaskStatus::Open && !t.blocked && out->Ok_0.status
                == TaskStatus::Started
        }),
{
    law_only_closed_counts(all, t);
    lemma_none_kept(t.depends_on, |d: i64| !completed(all, d));
    let f = |d: i64| !completed(all, d);
    assert(service::unmet(all, t).len() == 0 <==> forall|k: int|
        0 <= k < t.depends_on.len() ==> !f(#[trigger] t.depends_on[k]));
    if exists|k: int| 0 <= k < t.depends_on.len() && !completed(all, #[trigger] t.depends_on[k]) {
        let k = choose|k: int|
            0 <= k < t.depends_on.len() && !completed(all, #[trigger] t.depends_on[k]);
        assert(f(t.depends_on[k]));
    } else {
        assert forall|k: int| 0 <= k < t.depends_on.len() implies !f(#[trigger] t.depends_on[k]) by {
            assert(completed(all, t.depends_on[k]));
        }
    }
}

/// What every other action of the service comes to: the state machine decides,
/// then the record is checked and stamped.
pub proof fn law_actions_follow_the_state_machine(
    id: i64,
    t: TaskView,
    all: Seq<TaskView>,
    action: TaskAction,
    actor: Seq<char>,
    reason: Option<Seq<char>>,
    times: TimesView,
    now: Seq<char>,
)
    requires
        action != TaskAction::Start,
    ensures
        ({
            let out = service::action_outcome(id, t, all, action, actor, reason, times, now);
            let after = model::applied(t, action, actor, reason, times);
            &&& model::refusal(t, action, reason) is Some ==> out is Err
            &&& model::refusal(t, action, reason) is None && service::record_refusal(after) is None
                ==> out == Ok::<TaskView, Seq<char>>(TaskView { updated_at: now, ..after })
            &&& out is Ok ==> model::refusal(t, action, reason) is None && service::record_refusal(
                after,
            ) is None
        }),
{
}

/// A task without dependencies is refused none.
pub proof fn lemma_no_dependencies(t: TaskView, others: Seq<TaskView>)
    requires
        t.depends_on.len() == 0,
    ensures
        service::dependency_refusal(t, others) is None,
{
    assert forall|w: Seq<i64>| #[trigger] depends_walk(t, others, w) implies w.no_duplicates() by {
        if w.len() > 1 {
            assert(depends_at(t, others, w, 0));
        }
    }
    law_dependencies_are_accepted(t, others);
}

} // verus!
