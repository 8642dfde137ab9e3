//! Entries of the knowledge base: how they are found, added, changed and
//! superseded, which of them is current, and how fresh it is.
use vstd::prelude::*;

use crate::clock::Instant;
use crate::graph;
use crate::graph::NodeView;
use crate::knowledge;
use crate::knowledge::{
    CurrentStatusView, CurrentSummaryView, EntriesFileView, EntryChange, PlacedEntryView,
};
use crate::laws::edits::says;
use crate::model;
use crate::model::{KnowledgeEntryView, KnowledgeKind, TaskView};
use crate::text;

verus! {

/// Whether the `k`-th entry is the first with the given id.
pub open spec fn first_at(all: Seq<KnowledgeEntryView>, id: i64, k: int) -> bool {
    0 <= k < all.len() && all[k].id == id && forall|j: int|
        0 <= j < k ==> (#[trigger] all[j]).id != id
}

/// Whether `from` supersedes `to`: the entry itself by its own references, any
/// other id by those of the first other entry that has it.
pub open spec fn supersedes_step(
    e: KnowledgeEntryView,
    others: Seq<KnowledgeEntryView>,
    from: i64,
    to: i64,
) -> bool {
    if from == e.id {
        e.supersedes.contains(to)
    } else {
        exists|k: int| #[trigger]
            first_at(others, from, k) && others[k].supersedes.contains(to)
    }
}

proof fn lemma_first_in_rest(all: Seq<KnowledgeEntryView>, id: i64, k: int)
    requires
        first_at(all, id, k),
        k > 0,
    ensures
        first_at(all.skip(1), id, k - 1),
{
    let rest = all.skip(1);
    assert forall|j: int| 0 <= j < k - 1 implies (#[trigger] rest[j]).id != id by {
        assert(rest[j] == all[j + 1]);
    }
}

/// Where an id occurs, some entry is the first with it.
proof fn lemma_first_exists(all: Seq<KnowledgeEntryView>, id: i64, k: int) -> (m: int)
    requires
        0 <= k < all.len(),
        all[k].id == id,
    ensures
        first_at(all, id, m),
    decreases k,
{
    if forall|j: int| 0 <= j < k ==> (#[trigger] all[j]).id != id {
        k
    } else {
        let j = choose|j: int| 0 <= j < k && (#[trigger] all[j]).id == id;
        lemma_first_exists(all, id, j)
    }
}

proof fn lemma_first_targets(others: Seq<KnowledgeEntryView>, from: i64, k: int)
    requires
        first_at(others, from, k),
    ensures
        graph::targets(knowledge::supersession_graph(others), from) == others[k].supersedes,
    decreases others.len(),
{
    let g = knowledge::supersession_graph(others);
    assert(g[0] == NodeView { id: others[0].id, to: others[0].supersedes });
    if k > 0 {
        assert(g.skip(1) =~= knowledge::supersession_graph(others.skip(1)));
        lemma_first_in_rest(others, from, k);
        lemma_first_targets(others.skip(1), from, k - 1);
    }
}

proof fn lemma_no_targets(others: Seq<KnowledgeEntryView>, from: i64)
    requires
        forall|k: int| 0 <= k < others.len() ==> (#[trigger] others[k]).id != from,
    ensures
        graph::targets(knowledge::supersession_graph(others), from) == Seq::<i64>::empty(),
    decreases others.len(),
{
    let g = knowledge::supersession_graph(others);
    if others.len() > 0 {
        let rest = others.skip(1);
        assert(g[0] == NodeView { id: others[0].id, to: others[0].supersedes });
        assert(g.skip(1) =~= knowledge::supersession_graph(rest));
        assert forall|k: int| 0 <= k < rest.len() implies (#[trigger] rest[k]).id != from by {
            assert(rest[k] == others[k + 1]);
        }
        lemma_no_targets(rest, from);
    }
}

/// What an id refers to is what the first with that id refers to.
pub proof fn lemma_targets_of_others(others: Seq<KnowledgeEntryView>, from: i64, to: i64)
    ensures
        graph::targets(knowledge::supersession_graph(others), from).contains(to) <==> exists|k: int|
            #[trigger] first_at(others, from, k) && others[k].supersedes.contains(to),
{
    if forall|k: int| 0 <= k < others.len() ==> (#[trigger] others[k]).id != from {
        lemma_no_targets(others, from);
    } else {
        let k = choose|k: int| 0 <= k < others.len() && (#[trigger] others[k]).id == from;
        let m = lemma_first_exists(others, from, k);
        lemma_first_targets(others, from, m);
        assert forall|n: int| #[trigger] first_at(others, from, n) implies n == m by {
            if n < m {
                assert(others[n].id != from);
            } else if m < n {
                assert(others[m].id != from);
            }
        }
    }
}

proof fn lemma_projected_step(
    e: KnowledgeEntryView,
    others: Seq<KnowledgeEntryView>,
    from: i64,
    to: i64,
)
    ensures
        graph::targets(knowledge::projected_supersessions(e, others), from).contains(to) == supersedes_step(
            e,
            others,
            from,
            to,
        ),
{
    let g = knowledge::projected_supersessions(e, others);
    assert(g.skip(1) =~= knowledge::supersession_graph(others));
    lemma_targets_of_others(others, from, to);
}

proof fn lemma_found(all: Seq<KnowledgeEntryView>, id: i64, k: int)
    requires
        first_at(all, id, k),
    ensures
        knowledge::find_entry(all, id) == Some(all[k]),
    decreases all.len(),
{
    if k > 0 {
        lemma_first_in_rest(all, id, k);
        lemma_found(all.skip(1), id, k - 1);
    }
}

proof fn lemma_not_found(all: Seq<KnowledgeEntryView>, id: i64)
    requires
        forall|k: int| 0 <= k < all.len() ==> (#[trigger] all[k]).id != id,
    ensures
        knowledge::find_entry(all, id) is None,
    decreases all.len(),
{
    if all.len() > 0 {
        let rest = all.skip(1);
        assert forall|k: int| 0 <= k < rest.len() implies (#[trigger] rest[k]).id != id by {
            assert(rest[k] == all[k + 1]);
        }
        lemma_not_found(rest, id);
    }
}

/// Whether some entry has the given id.
pub open spec fn has_id(all: Seq<KnowledgeEntryView>, id: i64) -> bool {
    exists|k: int| 0 <= k < all.len() && (#[trigger] all[k]).id == id
}

/// Looking up an entry by id gives the first that has it, and nothing exactly when
/// none does.
pub proof fn law_entries_are_found_by_id(all: Seq<KnowledgeEntryView>, id: i64)
    ensures
        match knowledge::find_entry(all, id) {
            Some(e) => exists|k: int| #[trigger] first_at(all, id, k) && all[k] == e,
            None => !has_id(all, id),
        },
{
    if has_id(all, id) {
        let k = choose|k: int| 0 <= k < all.len() && (#[trigger] all[k]).id == id;
        let m = lemma_first_exists(all, id, k);
        lemma_found(all, id, m);
    } else {
        lemma_not_found(all, id);
    }
}

/// Whether the `j`-th reference of an entry is to another one that exists, and
/// stands there for the first time.
spec fn reference_holds(e: KnowledgeEntryView, others: Seq<KnowledgeEntryView>, j: int) -> bool {
    e.supersedes[j] != e.id && !e.supersedes.take(j).contains(e.supersedes[j]) && has_id(
        others,
        e.supersedes[j],
    )
}

proof fn lemma_references_accepted(e: KnowledgeEntryView, others: Seq<KnowledgeEntryView>, i: int)
    requires
        0 <= i <= e.supersedes.len(),
    ensures
        knowledge::reference_refusal(e, others, i) is None <==> forall|j: int|
            i <= j < e.supersedes.len() ==> #[trigger] reference_holds(e, others, j),
    decreases e.supersedes.len() - i,
{
    if i < e.supersedes.len() {
        law_entries_are_found_by_id(others, e.supersedes[i]);
        lemma_references_accepted(e, others, i + 1);
        assert(knowledge::reference_refusal(e, others, i) is None <==> reference_holds(e, others, i)
            && knowledge::reference_refusal(e, others, i + 1) is None);
        if forall|j: int| i + 1 <= j < e.supersedes.len() ==> #[trigger] reference_holds(e, others, j) {
            if reference_holds(e, others, i) {
                assert forall|j: int| i <= j < e.supersedes.len() implies #[trigger] reference_holds(
                    e,
                    others,
                    j,
                ) by {}
            }
        }
    }
}

/// Whether the `i`-th id of `w` supersedes the next one.
pub open spec fn supersedes_at(
    e: KnowledgeEntryView,
    others: Seq<KnowledgeEntryView>,
    w: Seq<i64>,
    i: int,
) -> bool {
    supersedes_step(e, others, w[i], w[i + 1])
}

/// Whether `w` begins at an entry and follows supersessions from id to id.
pub open spec fn supersedes_walk(
    e: KnowledgeEntryView,
    others: Seq<KnowledgeEntryView>,
    w: Seq<i64>,
) -> bool {
    w.len() > 0 && w[0] == e.id && forall|i: int|
        0 <= i < w.len() - 1 ==> #[trigger] supersedes_at(e, others, w, i)
}

proof fn lemma_walks_agree(e: KnowledgeEntryView, others: Seq<KnowledgeEntryView>, w: Seq<i64>)
    ensures
        supersedes_walk(e, others, w) == (w.len() > 0 && w[0] == e.id && graph::walk(
            knowledge::projected_supersessions(e, others),
            w,
        )),
{
    let g = knowledge::projected_supersessions(e, others);
    if w.len() > 0 && w[0] == e.id && graph::walk(g, w) {
        assert forall|i: int| 0 <= i < w.len() - 1 implies #[trigger] supersedes_at(
            e,
            others,
            w,
            i,
        ) by {
            assert(graph::targets(g, w[i]).contains(w[i + 1]));
            lemma_projected_step(e, others, w[i], w[i + 1]);
        }
    }
    if supersedes_walk(e, others, w) {
        assert forall|i: int| 0 <= i < w.len() - 1 implies graph::targets(
            g,
            #[trigger] w[i],
        ).contains(w[i + 1]) by {
            assert(supersedes_at(e, others, w, i));
            lemma_projected_step(e, others, w[i], w[i + 1]);
        }
    }
}

proof fn lemma_walks_decide(e: KnowledgeEntryView, others: Seq<KnowledgeEntryView>)
    ensures
        graph::first_cycle_from(knowledge::projected_supersessions(e, others), e.id) is None
            <==> forall|w: Seq<i64>|
            #[trigger] supersedes_walk(e, others, w) ==> w.no_duplicates(),
{
    let g = knowledge::projected_supersessions(e, others);
    graph::law_first_cycle_decides(g, e.id);
    if graph::acyclic_from(g, e.id) {
        assert forall|w: Seq<i64>| #[trigger] supersedes_walk(
            e,
            others,
            w,
        ) implies w.no_duplicates() by {
            lemma_walks_agree(e, others, w);
        }
    }
    if forall|w: Seq<i64>| #[trigger] supersedes_walk(e, others, w) ==> w.no_duplicates() {
        assert forall|w: Seq<i64>|
            w.len() > 0 && w[0] == e.id && #[trigger] graph::walk(g, w) implies w.no_duplicates() by {
            lemma_walks_agree(e, others, w);
        }
    }
}

/// The supersessions of an entry are accepted exactly when none is of the entry
/// itself, none comes twice, each is of an entry of the same file, and following
/// them from the entry never comes to an id twice.
pub proof fn law_supersessions_are_accepted(e: KnowledgeEntryView, others: Seq<KnowledgeEntryView>)
    ensures
        knowledge::supersedes_refusal(e, others) is None <==> {
            &&& !e.supersedes.contains(e.id)
            &&& e.supersedes.no_duplicates()
            &&& forall|i: int| 0 <= i < e.supersedes.len() ==> has_id(others, #[trigger] e.supersedes[i])
            &&& forall|w: Seq<i64>| #[trigger]
                supersedes_walk(e, others, w) ==> w.no_duplicates()
        },
{
    lemma_references_accepted(e, others, 0);
    lemma_walks_decide(e, others);
    let d = e.supersedes;
    if knowledge::reference_refusal(e, others, 0) is None {
        assert forall|i: int| 0 <= i < d.len() implies has_id(others, #[trigger] d[i]) && d[i]
            != e.id by {
            assert(reference_holds(e, others, i));
        }
        assert forall|a: int, b: int| 0 <= a < d.len() && 0 <= b < d.len() && a != b implies d[a]
            != d[b] by {
            let (low, high) = if a < b {
                (a, b)
            } else {
                (b, a)
            };
            assert(reference_holds(e, others, high));
            assert(d.take(high)[low] == d[low]);
        }
    } else if !d.contains(e.id) && d.no_duplicates() && forall|i: int|
        0 <= i < d.len() ==> has_id(others, #[trigger] d[i]) {
        assert forall|j: int| 0 <= j < d.len() implies #[trigger] reference_holds(e, others, j) by {
            assert(has_id(others, d[j]));
            if d.take(j).contains(d[j]) {
                let m = choose|m: int| 0 <= m < d.take(j).len() && d.take(j)[m] == d[j];
                assert(d[m] == d[j]);
            }
        }
    }
}

proof fn lemma_index_found(entries: Seq<KnowledgeEntryView>, id: i64)
    ensures
        match knowledge::entry_index(entries, id) {
            Some(i) => first_at(entries, id, i),
            None => !has_id(entries, id),
        },
    decreases entries.len(),
{
    if entries.len() > 0 && entries[0].id != id {
        let rest = entries.skip(1);
        lemma_index_found(rest, id);
        match knowledge::entry_index(rest, id) {
            Some(i) => {
                assert(rest[i] == entries[i + 1]);
                assert forall|j: int| 0 <= j < i + 1 implies (#[trigger] entries[j]).id != id by {
                    if j > 0 {
                        assert(rest[j - 1] == entries[j]);
                    }
                }
            },
            None => {
                if has_id(entries, id) {
                    let k = choose|k: int| 0 <= k < entries.len() && (#[trigger] entries[k]).id == id;
                    assert(rest[k - 1] == entries[k]);
                }
            },
        }
    }
}

/// The latest entry is the last of those with the highest id, and there is one
/// exactly when there are entries.
pub proof fn law_latest_has_the_highest_id(entries: Seq<KnowledgeEntryView>)
    ensures
        knowledge::latest(entries) is Some <==> entries.len() > 0,
        knowledge::latest(entries) matches Some(e) ==> exists|k: int|
            0 <= k < entries.len() && #[trigger] entries[k] == e && is_latest(entries, k),
    decreases entries.len(),
{
    if entries.len() > 0 {
        let front = entries.drop_last();
        law_latest_has_the_highest_id(front);
        match knowledge::latest(front) {
            Some(m) => {
                let k = choose|k: int|
                    0 <= k < front.len() && #[trigger] front[k] == m && is_latest(front, k);
                if entries.last().id >= m.id {
                    assert(is_latest(entries, entries.len() - 1)) by {
                        assert forall|j: int| 0 <= j < entries.len() - 1 implies (
                        #[trigger] entries[j]).id <= entries.last().id by {
                            assert(front[j] == entries[j]);
                        }
                    }
                    assert(entries[entries.len() - 1] == entries.last());
                } else {
                    assert(entries[k] == m);
                    assert(is_latest(entries, k)) by {
                        assert forall|j: int| 0 <= j < k implies (#[trigger] entries[j]).id
                            <= entries[k].id by {
                            assert(front[j] == entries[j]);
                        }
                        assert forall|j: int| k < j < entries.len() implies (#[trigger] entries[j]).id
                            < entries[k].id by {
                            if j < front.len() {
                                assert(front[j] == entries[j]);
                            }
                        }
                    }
                }
            },
            None => {
                assert(entries[0] == entries.last());
                assert(is_latest(entries, 0));
            },
        }
    }
}

/// Whether no entry before the `k`-th has a higher id, and every one after it a
/// lower one.
pub open spec fn is_latest(entries: Seq<KnowledgeEntryView>, k: int) -> bool {
    &&& forall|j: int| 0 <= j < k ==> (#[trigger] entries[j]).id <= entries[k].id
    &&& forall|j: int| k < j < entries.len() ==> (#[trigger] entries[j]).id < entries[k].id
}

/// Whether an id is the first after those of entries: one more than the highest,
/// and one where there are none.
pub open spec fn is_next_id(entries: Seq<KnowledgeEntryView>, id: int) -> bool {
    &&& entries.len() == 0 ==> id == 1
    &&& entries.len() > 0 ==> exists|k: int|
        0 <= k < entries.len() && id == (#[trigger] entries[k]).id + 1
    &&& forall|k: int| 0 <= k < entries.len() ==> (#[trigger] entries[k]).id < id
}

proof fn lemma_next_id(entries: Seq<KnowledgeEntryView>)
    ensures
        is_next_id(entries, knowledge::highest_id(entries) + 1),
{
    law_latest_has_the_highest_id(entries);
    if let Some(e) = knowledge::latest(entries) {
        let k = choose|k: int|
            0 <= k < entries.len() && #[trigger] entries[k] == e && is_latest(entries, k);
        assert(entries[k].id == e.id);
        assert forall|j: int| 0 <= j < entries.len() implies (#[trigger] entries[j]).id < e.id
            + 1 by {
            if j != k {
                assert(entries[j].id <= entries[k].id);
            }
        }
    }
}

/// An entry is added with the next id and otherwise as it is, and refused exactly
/// when its supersessions are.
pub proof fn law_entry_is_added(e: KnowledgeEntryView, entries: Seq<KnowledgeEntryView>, id: i64)
    requires
        is_next_id(entries, id as int),
    ensures
        ({
            let n = KnowledgeEntryView { id, ..e };
            &&& knowledge::added(e, entries) is Ok <==> knowledge::supersedes_refusal(
                n,
                entries,
            ) is None
            &&& knowledge::added(e, entries) is Ok ==> knowledge::added(e, entries)->Ok_0 == n
        }),
{
    let h = knowledge::highest_id(entries) + 1;
    lemma_next_id(entries);
    if entries.len() > 0 {
        let a = choose|k: int| 0 <= k < entries.len() && id == (#[trigger] entries[k]).id + 1;
        let b = choose|k: int| 0 <= k < entries.len() && h == (#[trigger] entries[k]).id + 1;
        assert(entries[a].id < h && entries[b].id < id);
    }
    assert(h == id);
}

/// A change to an entry sets what it gives and leaves the rest, the creation and
/// the kind among it, but for the last change. It touches no other entry, and is
/// refused exactly when no entry has the id or the supersessions are not accepted.
pub proof fn law_entry_is_changed(
    entries: Seq<KnowledgeEntryView>,
    kind: KnowledgeKind,
    id: i64,
    c: EntryChange,
    now: Seq<char>,
)
    ensures
        ({
            let out = knowledge::update_outcome(entries, kind, id, c, now);
            &&& !has_id(entries, id) ==> out is Err
            &&& out matches Ok(all) ==> exists|k: int| #[trigger] first_at(entries, id, k) && {
                let e = entries[k];
                let n = all[k];
                &&& all.len() == entries.len()
                &&& forall|j: int| 0 <= j < entries.len() && j != k ==> all[j] == #[trigger] entries[j]
                &&& n.title == (if c.title is Some {
                    c.title->0@
                } else {
                    e.title
                })
                &&& n.content == (if c.content is Some {
                    c.content->0@
                } else {
                    e.content
                })
                &&& n.tags == (if c.tags is Some {
                    text::texts(c.tags->0@)
                } else {
                    e.tags
                })
                &&& n.related_task == (if c.related_task is Some {
                    c.related_task
                } else {
                    e.related_task
                })
                &&& n.supersedes == (if c.supersedes is Some {
                    c.supersedes->0@
                } else {
                    e.supersedes
                })
                &&& n.actor == (if c.actor is Some {
                    Some(c.actor->0@)
                } else {
                    e.actor
                })
                &&& n.updated_at == now
                &&& n.id == e.id && n.kind == e.kind && n.commit == e.commit && n.created_at
                    == e.created_at
                &&& knowledge::supersedes_refusal(
                    n,
                    entries.filter(|x: KnowledgeEntryView| x.id != id),
                ) is None
            }
            &&& out is Err ==> !has_id(entries, id) || exists|k: int| #[trigger]
                first_at(entries, id, k) && knowledge::supersedes_refusal(
                    KnowledgeEntryView {
                        supersedes: if c.supersedes is Some {
                            c.supersedes->0@
                        } else {
                            entries[k].supersedes
                        },
                        ..entries[k]
                    },
                    entries.filter(|x: KnowledgeEntryView| x.id != id),
                ) is Some
        }),
{
    lemma_index_found(entries, id);
    if let Some(i) = knowledge::entry_index(entries, id) {
        let others = entries.filter(|x: KnowledgeEntryView| x.id != id);
        let e = knowledge::changed(entries[i], c);
        let n = KnowledgeEntryView { updated_at: now, ..e };
        let bare = KnowledgeEntryView {
            supersedes: if c.supersedes is Some {
                c.supersedes->0@
            } else {
                entries[i].supersedes
            },
            ..entries[i]
        };
        lemma_refusal_reads_references(e, n, others);
        lemma_refusal_reads_references(e, bare, others);
        assert(first_at(entries, id, i));
    }
}

proof fn lemma_reference_refusal_reads(
    a: KnowledgeEntryView,
    b: KnowledgeEntryView,
    others: Seq<KnowledgeEntryView>,
    i: int,
)
    requires
        a.id == b.id,
        a.kind == b.kind,
        a.supersedes == b.supersedes,
    ensures
        knowledge::reference_refusal(a, others, i) == knowledge::reference_refusal(b, others, i),
    decreases a.supersedes.len() - i,
{
    if 0 <= i < a.supersedes.len() {
        lemma_reference_refusal_reads(a, b, others, i + 1);
    }
}

proof fn lemma_refusal_reads_references(
    a: KnowledgeEntryView,
    b: KnowledgeEntryView,
    others: Seq<KnowledgeEntryView>,
)
    requires
        a.id == b.id,
        a.kind == b.kind,
        a.supersedes == b.supersedes,
    ensures
        knowledge::supersedes_refusal(a, others) == knowledge::supersedes_refusal(b, others),
{
    lemma_reference_refusal_reads(a, b, others, 0);
}

/// A designation is accepted exactly when the first entry with the id has content
/// that says something, and records the id, who designated it, when, and the
/// commit.
pub proof fn law_designation_is_accepted(
    f: EntriesFileView,
    entry_id: i64,
    actor: Seq<char>,
    commit: Option<Seq<char>>,
    now: Seq<char>,
)
    ensures
        ({
            let out = knowledge::designated(f, entry_id, actor, commit, now);
            &&& out is Ok <==> exists|k: int| #[trigger]
                first_at(f.entries, entry_id, k) && says(f.entries[k].content)
            &&& out matches Ok(s) ==> s.entry_id == entry_id && s.set_by == actor && s.set_at == now
                && s.commit == commit
        }),
{
    law_entries_are_found_by_id(f.entries, entry_id);
    if has_id(f.entries, entry_id) {
        let k = choose|k: int| #[trigger]
            first_at(f.entries, entry_id, k) && Some(f.entries[k]) == knowledge::find_entry(
                f.entries,
                entry_id,
            );
        assert forall|n: int| #[trigger] first_at(f.entries, entry_id, n) implies n == k by {
            if n < k {
                assert(f.entries[n].id != entry_id);
            } else if k < n {
                assert(f.entries[k].id != entry_id);
            }
        }
    } else {
        assert forall|n: int| !(#[trigger] first_at(f.entries, entry_id, n)) by {
            if first_at(f.entries, entry_id, n) {
                assert(has_id(f.entries, entry_id));
            }
        }
    }
}

/// A status entry is added at the end of the file, as a status entry with the
/// next id, and the designation changes exactly on request: it then names the new
/// entry with its commit. Only content that says something can be designated.
pub proof fn law_status_entry_is_added(
    f: EntriesFileView,
    e: KnowledgeEntryView,
    set_current: bool,
    actor: Seq<char>,
    now: Seq<char>,
    id: i64,
)
    requires
        is_next_id(f.entries, id as int),
    ensures
        ({
            let out = knowledge::status_added(f, e, set_current, actor, now);
            let n = KnowledgeEntryView { id, kind: KnowledgeKind::Status, ..e };
            &&& out is Ok <==> (set_current ==> says(e.content)) && knowledge::supersedes_refusal(
                n,
                f.entries,
            ) is None
            &&& out matches Ok(g) ==> {
                &&& g.entries == f.entries + seq![n]
                &&& !set_current ==> g.current_summary == f.current_summary
                &&& set_current ==> g.current_summary == Some(
                    CurrentSummaryView { entry_id: id, set_at: now, set_by: actor, commit: e.commit },
                )
            }
        }),
{
    let k = KnowledgeEntryView { kind: KnowledgeKind::Status, ..e };
    law_entry_is_added(k, f.entries, id);
    let n = KnowledgeEntryView { id, kind: KnowledgeKind::Status, ..e };
    assert(f.entries.push(n) =~= f.entries + seq![n]);
}

/// The current status is the designated entry, where the designation names one,
/// with the designation and no note; and otherwise the latest entry, with a note
/// and no designation. There is none exactly when there are no entries.
pub proof fn law_current_status(f: EntriesFileView)
    ensures
        ({
            let named = f.current_summary matches Some(cs) && has_id(f.entries, cs.entry_id);
            let s = knowledge::status_of(f);
            &&& s is None <==> f.entries.len() == 0
            &&& s matches Some(c) ==> {
                &&& c.designated == named
                &&& named ==> c.designation == f.current_summary && c.note is None && exists|k: int|
                    #[trigger]
                    first_at(f.entries, f.current_summary->0.entry_id, k) && f.entries[k] == c.entry
                &&& !named ==> c.designation is None && c.note is Some && exists|k: int|
                    0 <= k < f.entries.len() && #[trigger] f.entries[k] == c.entry && is_latest(
                        f.entries,
                        k,
                    )
            }
        }),
{
    law_latest_has_the_highest_id(f.entries);
    if let Some(cs) = f.current_summary {
        law_entries_are_found_by_id(f.entries, cs.entry_id);
        if knowledge::find_entry(f.entries, cs.entry_id) is Some {
            let k = choose|k: int| #[trigger]
                first_at(f.entries, cs.entry_id, k) && f.entries[k] == knowledge::find_entry(
                    f.entries,
                    cs.entry_id,
                )->0;
            assert(f.entries[k].id == cs.entry_id);
            assert(has_id(f.entries, cs.entry_id));
        }
    }
}

/// Whether an instant was read and lies after another.
pub open spec fn lies_after(t: Option<Instant>, reference: Instant) -> bool {
    t matches Some(i) && (reference.secs < i.secs || reference.secs == i.secs && reference.nanos
        < i.nanos)
}

proof fn lemma_tasks_after(
    tasks: Seq<TaskView>,
    times: Seq<Option<Instant>>,
    reference: Instant,
    id: i64,
)
    requires
        times.len() == tasks.len(),
    ensures
        knowledge::tasks_after(tasks, times, reference).contains(id) <==> exists|k: int|
            0 <= k < tasks.len() && (#[trigger] tasks[k]).id == id && lies_after(
                times[k],
                reference,
            ),
    decreases tasks.len(),
{
    if tasks.len() > 0 {
        let front = tasks.drop_last();
        let before = times.drop_last();
        let a = knowledge::tasks_after(front, before, reference);
        let all = knowledge::tasks_after(tasks, times, reference);
        lemma_tasks_after(front, before, reference, id);
        if all.contains(id) {
            let i = choose|i: int| 0 <= i < all.len() && all[i] == id;
            if i < a.len() {
                assert(a[i] == id);
                let k = choose|k: int|
                    0 <= k < front.len() && (#[trigger] front[k]).id == id && lies_after(
                        before[k],
                        reference,
                    );
                assert(tasks[k].id == id && times[k] == before[k]);
            } else {
                assert(tasks[tasks.len() - 1].id == id);
            }
        }
        if exists|k: int|
            0 <= k < tasks.len() && (#[trigger] tasks[k]).id == id && lies_after(
                times[k],
                reference,
            ) {
            let k = choose|k: int|
                0 <= k < tasks.len() && (#[trigger] tasks[k]).id == id && lies_after(
                    times[k],
                    reference,
                );
            if k < front.len() {
                assert(front[k].id == id && before[k] == times[k]);
                let i = choose|i: int| 0 <= i < a.len() && a[i] == id;
                assert(all[i] == id);
            } else {
                assert(all[a.len() as int] == id);
            }
        }
    }
}

/// Whether an entry other than the summary changed after an instant.
pub open spec fn changed_after(
    p: PlacedEntryView,
    t: Option<Instant>,
    reference: Instant,
    summary: i64,
) -> bool {
    !(p.kind == KnowledgeKind::Status && p.entry.id == summary) && lies_after(t, reference)
}

proof fn lemma_entries_after(
    kb: Seq<PlacedEntryView>,
    times: Seq<Option<Instant>>,
    reference: Instant,
    summary: i64,
    label: Seq<char>,
)
    requires
        times.len() == kb.len(),
    ensures
        knowledge::entries_after(kb, times, reference, summary).contains(label) <==> exists|k: int|
            0 <= k < kb.len() && changed_after(#[trigger] kb[k], times[k], reference, summary)
                && label == model::kind_name(kb[k].kind) + "#"@ + text::decimal(
                kb[k].entry.id as int,
            ),
    decreases kb.len(),
{
    if kb.len() > 0 {
        let front = kb.drop_last();
        let before = times.drop_last();
        let a = knowledge::entries_after(front, before, reference, summary);
        let all = knowledge::entries_after(kb, times, reference, summary);
        lemma_entries_after(front, before, reference, summary, label);
        if all.contains(label) {
            let i = choose|i: int| 0 <= i < all.len() && all[i] == label;
            if i < a.len() {
                assert(a[i] == label);
                let k = choose|k: int|
                    0 <= k < front.len() && changed_after(
                        #[trigger] front[k],
                        before[k],
                        reference,
                        summary,
                    ) && label == model::kind_name(front[k].kind) + "#"@ + text::decimal(
                        front[k].entry.id as int,
                    );
                assert(kb[k] == front[k] && times[k] == before[k]);
            } else {
                assert(kb[kb.len() - 1] == kb.last());
            }
        }
        if exists|k: int|
            0 <= k < kb.len() && changed_after(#[trigger] kb[k], times[k], reference, summary)
                && label == model::kind_name(kb[k].kind) + "#"@ + text::decimal(
                kb[k].entry.id as int,
            ) {
            let k = choose|k: int|
                0 <= k < kb.len() && changed_after(#[trigger] kb[k], times[k], reference, summary)
                    && label == model::kind_name(kb[k].kind) + "#"@ + text::decimal(
                    kb[k].entry.id as int,
                );
            if k < front.len() {
                assert(front[k] == kb[k] && before[k] == times[k]);
                let i = choose|i: int| 0 <= i < a.len() && a[i] == label;
                assert(all[i] == label);
            } else {
                assert(all[a.len() as int] == label);
            }
        }
    }
}

/// Whether the commit that a status records is known and HEAD is another one:
/// neither abbreviates the other.
pub open spec fn commit_differs(recorded: Option<Seq<char>>, head: Option<Seq<char>>) -> bool {
    recorded is Some && head is Some && !recorded->0.is_prefix_of(head->0) && !head->0.is_prefix_of(
        recorded->0,
    )
}

/// A status is measured against its designation, or else its entry's last change,
/// and may be stale exactly when a task or another entry changed after that, or
/// HEAD is not the commit that the designation, or else the entry, records. The
/// tasks that changed after it are listed, by id, and those only; so are the other
/// entries, by kind and id.
pub proof fn law_freshness(
    s: CurrentStatusView,
    reference: Option<Instant>,
    tasks: Seq<TaskView>,
    task_times: Seq<Option<Instant>>,
    kb: Seq<PlacedEntryView>,
    kb_times: Seq<Option<Instant>>,
    head: Option<Seq<char>>,
    id: i64,
    label: Seq<char>,
)
    requires
        task_times.len() == tasks.len(),
        kb_times.len() == kb.len(),
    ensures
        ({
            let f = knowledge::freshness(s, reference, tasks, task_times, kb, kb_times, head);
            let recorded = match s.designation {
                Some(d) => if d.commit is Some {
                    d.commit
                } else {
                    s.entry.commit
                },
                None => s.entry.commit,
            };
            &&& f.reference_time == Some(
                if s.designation is Some {
                    s.designation->0.set_at
                } else {
                    s.entry.updated_at
                },
            )
            &&& f.head_commit == head
            &&& f.commit_matches_head == if recorded is Some && head is Some {
                Some(!commit_differs(recorded, head))
            } else {
                None
            }
            &&& f.tasks_updated_after.contains(id) <==> reference is Some && exists|k: int|
                0 <= k < tasks.len() && (#[trigger] tasks[k]).id == id && lies_after(
                    task_times[k],
                    reference->0,
                )
            &&& f.kb_updated_after.contains(label) <==> reference is Some && exists|k: int|
                0 <= k < kb.len() && changed_after(
                    #[trigger] kb[k],
                    kb_times[k],
                    reference->0,
                    s.entry.id,
                ) && label == model::kind_name(kb[k].kind) + "#"@ + text::decimal(
                    kb[k].entry.id as int,
                )
            &&& f.possibly_stale <==> {
                ||| reference is Some && exists|k: int|
                    0 <= k < tasks.len() && lies_after(#[trigger] task_times[k], reference->0)
                ||| reference is Some && exists|k: int|
                    0 <= k < kb.len() && changed_after(
                        #[trigger] kb[k],
                        kb_times[k],
                        reference->0,
                        s.entry.id,
                    )
                ||| commit_differs(recorded, head)
            }
        }),
{
    let f = knowledge::freshness(s, reference, tasks, task_times, kb, kb_times, head);
    let recorded = knowledge::recorded_commit(s);
    if recorded is Some && head is Some {
        text::law_begins(head->0, recorded->0);
        text::law_begins(recorded->0, head->0);
    }
    if let Some(r) = reference {
        lemma_tasks_after(tasks, task_times, r, id);
        lemma_entries_after(kb, kb_times, r, s.entry.id, label);
        let later = f.kb_updated_after;
        if later.len() > 0 {
            lemma_entries_after(kb, kb_times, r, s.entry.id, later[0]);
            assert(later.contains(later[0]));
        }
        if exists|k: int|
            0 <= k < kb.len() && changed_after(#[trigger] kb[k], kb_times[k], r, s.entry.id) {
            let k = choose|k: int|
                0 <= k < kb.len() && changed_after(#[trigger] kb[k], kb_times[k], r, s.entry.id);
            let l = model::kind_name(kb[k].kind) + "#"@ + text::decimal(kb[k].entry.id as int);
            lemma_entries_after(kb, kb_times, r, s.entry.id, l);
            assert(later.contains(l));
        }
        let list = f.tasks_updated_after;
        if list.len() > 0 {
            lemma_tasks_after(tasks, task_times, r, list[0]);
            assert(list.contains(list[0]));
            let k = choose|k: int|
                0 <= k < tasks.len() && (#[trigger] tasks[k]).id == list[0] && lies_after(
                    task_times[k],
                    r,
                );
            assert(lies_after(task_times[k], r));
        }
        if exists|k: int| 0 <= k < tasks.len() && lies_after(#[trigger] task_times[k], r) {
            let k = choose|k: int| 0 <= k < tasks.len() && lies_after(#[trigger] task_times[k], r);
            lemma_tasks_after(tasks, task_times, r, tasks[k].id);
            assert(tasks[k].id == tasks[k].id);
            assert(list.contains(tasks[k].id));
        }
    }
}

/// A fresh entry has what it was given, and nothing else.
pub proof fn law_fresh_entry_is_bare(
    id: i64,
    kind: KnowledgeKind,
    title: Seq<char>,
    content: Seq<char>,
    now: Seq<char>,
)
    ensures
        ({
            let e = model::fresh_entry(id, kind, title, content, now);
            &&& e.id == id && e.kind == kind && e.title == title && e.content == content
            &&& e.tags.len() == 0 && e.supersedes.len() == 0
            &&& e.related_task is None && e.commit is None && e.actor is None
            &&& e.created_at == now && e.updated_at == now
        }),
{
}

} // verus!
