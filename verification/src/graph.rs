//! References between numbered records, and the cycles among them.
use vstd::prelude::*;

verus! {

/// A record's id and the ids it refers to.
#[derive(Debug)]
pub struct Node {
    pub id: i64,
    pub to: Vec<i64>,
}

/// What a [`Node`] holds.
#[verifier::ext_equal]
pub struct NodeView {
    pub id: i64,
    pub to: Seq<i64>,
}

impl View for Node {
    type V = NodeView;

    open spec fn view(&self) -> NodeView {
        NodeView { id: self.id, to: self.to@ }
    }
}

/// What a list of nodes holds.
pub open spec fn nodes(v: Seq<Node>) -> Seq<NodeView> {
    v.map_values(|n: Node| n@)
}

/// The ids that `id` refers to: those of the first node with that id.
pub open spec fn targets(g: Seq<NodeView>, id: i64) -> Seq<i64>
    decreases g.len(),
{
    if g.len() == 0 {
        Seq::empty()
    } else if g[0].id == id {
        g[0].to
    } else {
        targets(g.skip(1), id)
    }
}

/// Whether each id of `w` refers to the next one.
pub open spec fn walk(g: Seq<NodeView>, w: Seq<i64>) -> bool {
    forall|i: int| 0 <= i < w.len() - 1 ==> targets(g, #[trigger] w[i]).contains(w[i + 1])
}

/// Whether `c` walks from an id back to itself.
pub open spec fn cycle(g: Seq<NodeView>, c: Seq<i64>) -> bool {
    c.len() >= 2 && walk(g, c) && c[0] == c.last()
}

/// Whether no walk that starts at `id` meets an id twice.
pub open spec fn acyclic_from(g: Seq<NodeView>, id: i64) -> bool {
    forall|w: Seq<i64>| w.len() > 0 && w[0] == id && #[trigger] walk(g, w) ==> w.no_duplicates()
}

/// Whether no walk meets an id twice.
pub open spec fn acyclic(g: Seq<NodeView>) -> bool {
    forall|w: Seq<i64>| #[trigger] walk(g, w) ==> w.no_duplicates()
}

/// What a depth-first search found: a cycle, if any, and the visited ids.
pub struct Found {
    pub cycle: Option<Seq<i64>>,
    pub visited: Seq<i64>,
}

/// Depth-first search from `id`, at most `depth` levels deep, when `path` leads
/// to it and `visited` has been seen before.
pub open spec fn search(
    g: Seq<NodeView>,
    id: i64,
    visited: Seq<i64>,
    path: Seq<i64>,
    depth: nat,
) -> Found
    decreases depth, 0nat,
{
    if path.contains(id) {
        Found { cycle: Some(path.skip(path.index_of_first(id).unwrap()).push(id)), visited }
    } else if visited.contains(id) || depth == 0 {
        Found { cycle: None, visited }
    } else {
        search_all(g, targets(g, id), visited.push(id), path.push(id), (depth - 1) as nat)
    }
}

/// Depth-first search from each of `ids` in turn, until a cycle is found.
pub open spec fn search_all(
    g: Seq<NodeView>,
    ids: Seq<i64>,
    visited: Seq<i64>,
    path: Seq<i64>,
    depth: nat,
) -> Found
    decreases depth, ids.len(),
{
    if ids.len() == 0 {
        Found { cycle: None, visited }
    } else {
        let first = search(g, ids[0], visited, path, depth);
        if first.cycle is Some {
            first
        } else {
            search_all(g, ids.skip(1), first.visited, path, depth)
        }
    }
}

/// The depth that suffices for every search in `g`.
pub open spec fn enough(g: Seq<NodeView>) -> nat {
    g.len() + 1
}

/// The cycle that a depth-first search from `id` meets first.
pub open spec fn first_cycle_from(g: Seq<NodeView>, id: i64) -> Option<Seq<i64>> {
    search(g, id, Seq::empty(), Seq::empty(), enough(g)).cycle
}

/// The index of the first occurrence of `id` in `list`.
fn position(list: &Vec<i64>, id: i64) -> (r: Option<usize>)
    ensures
        match r {
            Some(i) => i < list.len() && list@.contains(id) && list@.index_of_first(id) == Some(
                i as int,
            ),
            None => !list@.contains(id),
        },
{
    let mut i: usize = 0;
    while i < list.len()
        invariant
            i <= list.len(),
            forall|j: int| 0 <= j < i ==> list@[j] != id,
        decreases list.len() - i,
    {
        if list[i] == id {
            proof {
                list@.index_of_first_ensures(id);
            }
            return Some(i);
        }
        i += 1;
    }
    None
}

/// Whether `list` holds `id`.
pub fn holds(list: &Vec<i64>, id: i64) -> (r: bool)
    ensures
        r == list@.contains(id),
{
    position(list, id).is_some()
}

/// The index of the first node with the given id.
fn find_node(g: &Vec<Node>, id: i64) -> (r: Option<usize>)
    ensures
        match r {
            Some(i) => i < g.len() && targets(nodes(g@), id) == g@[i as int].to@,
            None => targets(nodes(g@), id) == Seq::<i64>::empty(),
        },
{
    let mut i: usize = 0;
    assert(nodes(g@).skip(0) =~= nodes(g@));
    while i < g.len()
        invariant
            i <= g.len(),
            targets(nodes(g@), id) == targets(nodes(g@).skip(i as int), id),
        decreases g.len() - i,
    {
        assert(nodes(g@).skip(i as int)[0] == g@[i as int]@);
        if g[i].id == id {
            return Some(i);
        }
        assert(nodes(g@).skip(i as int).skip(1) =~= nodes(g@).skip(i + 1));
        i += 1;
    }
    None
}

fn search_exec(g: &Vec<Node>, id: i64, visited: &mut Vec<i64>, path: &mut Vec<i64>, depth: u128)
    -> (r: Option<Vec<i64>>)
    ensures
        ({
            let found = search(nodes(g@), id, old(visited)@, old(path)@, depth as nat);
            &&& final(visited)@ == found.visited
            &&& match r {
                Some(c) => found.cycle == Some(c@),
                None => found.cycle is None && final(path)@ == old(path)@,
            }
        }),
    decreases depth,
{
    if let Some(start) = position(path, id) {
        let mut found: Vec<i64> = Vec::new();
        let mut i: usize = start;
        while i < path.len()
            invariant
                start <= i <= path.len(),
                found@ == path@.subrange(start as int, i as int),
            decreases path.len() - i,
        {
            found.push(path[i]);
            assert(path@.subrange(start as int, i + 1) =~= path@.subrange(
                start as int,
                i as int,
            ).push(path@[i as int]));
            i += 1;
        }
        found.push(id);
        assert(path@.subrange(start as int, i as int) =~= path@.skip(start as int));
        return Some(found);
    }
    if holds(visited, id) || depth == 0 {
        return None;
    }
    visited.push(id);
    path.push(id);
    let ghost ids = targets(nodes(g@), id);
    let ghost whole = search_all(nodes(g@), ids, visited@, path@, (depth - 1) as nat);
    let ghost deeper = path@;
    if let Some(at) = find_node(g, id) {
        let mut i: usize = 0;
        assert(ids.skip(0) =~= ids);
        while i < g[at].to.len()
            invariant
                at < g.len(),
                depth > 0,
                i <= g@[at as int].to.len(),
                ids == g@[at as int].to@,
                path@ == deeper,
                whole == search(nodes(g@), id, old(visited)@, old(path)@, depth as nat),
                whole == search_all(
                    nodes(g@),
                    ids.skip(i as int),
                    visited@,
                    deeper,
                    (depth - 1) as nat,
                ),
            decreases g@[at as int].to.len() - i,
        {
            let next = g[at].to[i];
            assert(ids.skip(i as int)[0] == next);
            assert(ids.skip(i as int).skip(1) =~= ids.skip(i + 1));
            if let Some(c) = search_exec(g, next, visited, path, depth - 1) {
                return Some(c);
            }
            i += 1;
        }
        assert(ids.skip(i as int).len() == 0);
    }
    path.pop();
    assert(path@ =~= old(path)@);
    None
}

/// Searches depth-first from `id`, adding what it meets to `visited`.
pub fn search_from(g: &Vec<Node>, id: i64, visited: &mut Vec<i64>) -> (r: Option<Vec<i64>>)
    ensures
        ({
            let found = search(nodes(g@), id, old(visited)@, Seq::empty(), enough(nodes(g@)));
            &&& final(visited)@ == found.visited
            &&& match r {
                Some(c) => found.cycle == Some(c@),
                None => found.cycle is None,
            }
        }),
{
    let mut path: Vec<i64> = Vec::new();
    search_exec(g, id, visited, &mut path, g.len() as u128 + 1)
}

/// The cycle that a depth-first search from `id` meets first.
pub fn find_cycle(g: &Vec<Node>, id: i64) -> (r: Option<Vec<i64>>)
    ensures
        match r {
            Some(c) => first_cycle_from(nodes(g@), id) == Some(c@),
            None => first_cycle_from(nodes(g@), id) is None,
        },
{
    let mut visited: Vec<i64> = Vec::new();
    search_from(g, id, &mut visited)
}

/// The cycles that depth-first searches from each of `ids` in turn meet, when
/// `visited` has been seen before; each search ends at the first one it meets.
pub open spec fn cycles_from(g: Seq<NodeView>, ids: Seq<i64>, visited: Seq<i64>) -> Seq<Seq<i64>>
    decreases ids.len(),
{
    if ids.len() == 0 {
        Seq::empty()
    } else {
        let found = search(g, ids[0], visited, Seq::empty(), enough(g));
        let rest = cycles_from(g, ids.skip(1), found.visited);
        match found.cycle {
            Some(c) => seq![c] + rest,
            None => rest,
        }
    }
}

/// The ids of the nodes, in order.
pub open spec fn node_ids(g: Seq<NodeView>) -> Seq<i64> {
    g.map_values(|n: NodeView| n.id)
}

/// The cycles that depth-first searches from every node in turn meet.
pub open spec fn all_cycles(g: Seq<NodeView>) -> Seq<Seq<i64>> {
    cycles_from(g, node_ids(g), Seq::empty())
}

/// What a list of lists of ids holds.
pub open spec fn id_lists(v: Seq<Vec<i64>>) -> Seq<Seq<i64>> {
    v.map_values(|l: Vec<i64>| l@)
}

/// The cycles that depth-first searches from every node in turn meet.
pub fn find_cycles(g: &Vec<Node>) -> (r: Vec<Vec<i64>>)
    ensures
        id_lists(r@) == all_cycles(nodes(g@)),
{
    let mut out: Vec<Vec<i64>> = Vec::new();
    let mut visited: Vec<i64> = Vec::new();
    let ghost view = nodes(g@);
    let ghost ids = node_ids(view);
    let mut i: usize = 0;
    assert(ids.skip(0) =~= ids);
    assert(id_lists(out@) + all_cycles(view) =~= all_cycles(view));
    while i < g.len()
        invariant
            i <= g.len(),
            view == nodes(g@),
            ids == node_ids(view),
            id_lists(out@) + cycles_from(view, ids.skip(i as int), visited@) == all_cycles(view),
        decreases g.len() - i,
    {
        assert(ids.skip(i as int)[0] == g@[i as int].id);
        assert(ids.skip(i as int).skip(1) =~= ids.skip(i + 1));
        let ghost before = out@;
        let ghost seen = visited@;
        if let Some(c) = search_from(g, g[i].id, &mut visited) {
            out.push(c);
            assert(id_lists(out@) =~= id_lists(before).push(c@));
            assert(id_lists(out@) + cycles_from(view, ids.skip(i + 1), visited@)
                =~= id_lists(before) + cycles_from(view, ids.skip(i as int), seen));
        }
        i += 1;
    }
    assert(id_lists(out@) + cycles_from(view, ids.skip(i as int), visited@) =~= id_lists(out@));
    out
}

/// Whether each id of `order` refers only to ids before it, and none occurs
/// twice.
spec fn settled(g: Seq<NodeView>, order: Seq<i64>) -> bool {
    &&& order.no_duplicates()
    &&& forall|i: int, t: i64|
        0 <= i < order.len() && #[trigger] targets(g, order[i]).contains(t) ==> order.take(
            i,
        ).contains(t)
}

/// Whether `order` holds exactly the visited ids off the path.
spec fn finished(order: Seq<i64>, visited: Seq<i64>, path: Seq<i64>) -> bool {
    forall|x: i64| order.contains(x) <==> #[trigger] visited.contains(x) && !path.contains(x)
}

/// How many nodes have not been visited.
spec fn unseen(g: Seq<NodeView>, visited: Seq<i64>) -> nat
    decreases g.len(),
{
    if g.len() == 0 {
        0
    } else {
        unseen(g.skip(1), visited) + if visited.contains(g[0].id) {
            0nat
        } else {
            1nat
        }
    }
}

proof fn lemma_unseen_grows(g: Seq<NodeView>, visited: Seq<i64>, more: Seq<i64>)
    requires
        forall|x: i64| visited.contains(x) ==> more.contains(x),
    ensures
        unseen(g, more) <= unseen(g, visited) <= g.len(),
    decreases g.len(),
{
    if g.len() > 0 {
        lemma_unseen_grows(g.skip(1), visited, more);
    }
}

proof fn lemma_unseen_push(g: Seq<NodeView>, visited: Seq<i64>, id: i64)
    requires
        !visited.contains(id),
        targets(g, id).len() > 0,
    ensures
        unseen(g, visited.push(id)) < unseen(g, visited),
    decreases g.len(),
{
    let more = visited.push(id);
    assert forall|x: i64| visited.contains(x) implies more.contains(x) by {
        let i = choose|i: int| 0 <= i < visited.len() && visited[i] == x;
        assert(more[i] == x);
    }
    assert(more.last() == id);
    if g.len() > 0 {
        lemma_unseen_grows(g.skip(1), visited, more);
        if g[0].id != id {
            lemma_unseen_push(g.skip(1), visited, id);
            assert(more.contains(g[0].id) ==> visited.contains(g[0].id)) by {
                if more.contains(g[0].id) {
                    let i = choose|i: int| 0 <= i < more.len() && more[i] == g[0].id;
                    assert(visited[i] == g[0].id);
                }
            }
        }
    }
}

proof fn lemma_push_contains(s: Seq<i64>, id: i64)
    ensures
        forall|x: i64| #[trigger] s.push(id).contains(x) <==> s.contains(x) || x == id,
{
    assert forall|x: i64| #[trigger] s.push(id).contains(x) <==> s.contains(x) || x == id by {
        if s.push(id).contains(x) {
            let i = choose|i: int| 0 <= i < s.push(id).len() && s.push(id)[i] == x;
            if i < s.len() {
                assert(s[i] == x);
            }
        }
        if s.contains(x) {
            let i = choose|i: int| 0 <= i < s.len() && s[i] == x;
            assert(s.push(id)[i] == x);
        }
        assert(s.push(id)[s.len() as int] == id);
    }
}

/// A search that finds no cycle settles everything it visits.
proof fn lemma_search_settles(
    g: Seq<NodeView>,
    id: i64,
    visited: Seq<i64>,
    path: Seq<i64>,
    depth: nat,
    order: Seq<i64>,
) -> (r: Seq<i64>)
    requires
        depth > unseen(g, visited),
        settled(g, order),
        finished(order, visited, path),
        search(g, id, visited, path, depth).cycle is None,
    ensures
        settled(g, r),
        finished(r, search(g, id, visited, path, depth).visited, path),
        r.contains(id),
        forall|x: i64|
            visited.contains(x) ==> search(g, id, visited, path, depth).visited.contains(x),
    decreases depth, 0nat,
{
    if visited.contains(id) {
        order
    } else {
        let ids = targets(g, id);
        let seen = visited.push(id);
        let deeper = path.push(id);
        lemma_push_contains(visited, id);
        lemma_push_contains(path, id);
        assert(!order.contains(id));
        assert forall|x: i64| order.contains(x) <==> #[trigger] seen.contains(x)
            && !deeper.contains(x) by {
            assert(seen.contains(x) <==> visited.contains(x) || x == id);
            assert(deeper.contains(x) <==> path.contains(x) || x == id);
            assert(order.contains(x) <==> visited.contains(x) && !path.contains(x));
        }
        if ids.len() == 0 {
            let r = order.push(id);
            lemma_push_contains(order, id);
            assert(search(g, id, visited, path, depth).visited == seen);
            assert forall|x: i64| r.contains(x) <==> #[trigger] seen.contains(x)
                && !path.contains(x) by {
                assert(r.contains(x) <==> order.contains(x) || x == id);
                assert(seen.contains(x) <==> visited.contains(x) || x == id);
                assert(order.contains(x) ==> visited.contains(x) && !path.contains(x));
                assert(visited.contains(x) && !path.contains(x) ==> order.contains(x));
            }
            assert(finished(r, seen, path));
            assert(settled(g, r)) by {
                assert forall|i: int, t: i64|
                    0 <= i < r.len() && #[trigger] targets(g, r[i]).contains(t) implies r.take(
                    i,
                ).contains(t) by {
                    assert(r.take(i) =~= order.take(i));
                }
                assert(r.no_duplicates()) by {
                    assert(!order.contains(id));
                }
            }
            r
        } else {
            lemma_unseen_push(g, visited, id);
            let inner = lemma_search_all_settles(g, ids, seen, deeper, (depth - 1) as nat, order);
            let r = inner.push(id);
            lemma_push_contains(inner, id);
            let after = search(g, id, visited, path, depth).visited;
            assert(after == search_all(g, ids, seen, deeper, (depth - 1) as nat).visited);
            assert(finished(inner, after, deeper));
            assert(deeper.contains(id));
            assert(seen.contains(id));
            assert(after.contains(id));
            assert(!inner.contains(id));
            assert forall|x: i64| visited.contains(x) implies after.contains(x) by {
                assert(seen.contains(x));
            }
            assert forall|x: i64| r.contains(x) <==> #[trigger] after.contains(x)
                && !path.contains(x) by {
                assert(deeper.contains(x) <==> path.contains(x) || x == id);
                assert(r.contains(x) <==> inner.contains(x) || x == id);
                assert(inner.contains(x) ==> after.contains(x));
                assert(inner.contains(x) ==> !deeper.contains(x));
                assert(after.contains(x) && !deeper.contains(x) ==> inner.contains(x));
            }
            assert(finished(r, after, path));
            assert(settled(g, r)) by {
                assert forall|i: int, t: i64|
                    0 <= i < r.len() && #[trigger] targets(g, r[i]).contains(t) implies r.take(
                    i,
                ).contains(t) by {
                    if i < inner.len() {
                        assert(r.take(i) =~= inner.take(i));
                        assert(r[i] == inner[i]);
                    } else {
                        assert(r.take(i) =~= inner);
                        let j = choose|j: int| 0 <= j < ids.len() && ids[j] == t;
                        assert(inner.contains(ids[j]));
                    }
                }
            }
            r
        }
    }
}

proof fn lemma_search_all_settles(
    g: Seq<NodeView>,
    ids: Seq<i64>,
    visited: Seq<i64>,
    path: Seq<i64>,
    depth: nat,
    order: Seq<i64>,
) -> (r: Seq<i64>)
    requires
        depth > unseen(g, visited),
        settled(g, order),
        finished(order, visited, path),
        search_all(g, ids, visited, path, depth).cycle is None,
    ensures
        settled(g, r),
        finished(r, search_all(g, ids, visited, path, depth).visited, path),
        forall|j: int| 0 <= j < ids.len() ==> r.contains(#[trigger] ids[j]),
        forall|x: i64|
            visited.contains(x) ==> search_all(g, ids, visited, path, depth).visited.contains(x),
    decreases depth, ids.len(),
{
    if ids.len() == 0 {
        order
    } else {
        let first = search(g, ids[0], visited, path, depth);
        let mid = lemma_search_settles(g, ids[0], visited, path, depth, order);
        lemma_unseen_grows(g, visited, first.visited);
        let r = lemma_search_all_settles(g, ids.skip(1), first.visited, path, depth, mid);
        assert forall|j: int| 0 <= j < ids.len() implies r.contains(#[trigger] ids[j]) by {
            if j > 0 {
                assert(ids[j] == ids.skip(1)[j - 1]);
            } else {
                let after = search_all(g, ids, visited, path, depth).visited;
                assert(mid.contains(ids[0]));
                assert(first.visited.contains(ids[0]) && !path.contains(ids[0]));
                assert(after.contains(ids[0]));
            }
        }
        r
    }
}

/// A walk that starts at a settled id descends through settled ids.
proof fn lemma_walk_descends(g: Seq<NodeView>, order: Seq<i64>, w: Seq<i64>, k: int, at: int)
    requires
        settled(g, order),
        walk(g, w),
        0 <= k < w.len(),
        0 <= at < order.len(),
        w[0] == order[at],
    ensures
        exists|p: int| 0 <= p <= at - k && p < order.len() && #[trigger] order[p] == w[k],
    decreases k,
{
    if k == 0 {
        assert(order[at] == w[0]);
    } else {
        lemma_walk_descends(g, order, w, k - 1, at);
        let p = choose|p: int| 0 <= p <= at - (k - 1) && p < order.len() && #[trigger] order[p] == w[k - 1];
        assert(targets(g, w[k - 1]).contains(w[k - 1 + 1]));
        assert(targets(g, order[p]).contains(w[k]));
        assert(order.take(p).contains(w[k]));
        let q = choose|q: int| 0 <= q < order.take(p).len() && order.take(p)[q] == w[k];
        assert(order[q] == w[k]);
    }
}

/// From a settled id no walk meets an id twice.
proof fn lemma_settled_acyclic(g: Seq<NodeView>, order: Seq<i64>, id: i64)
    requires
        settled(g, order),
        order.contains(id),
    ensures
        acyclic_from(g, id),
{
    assert forall|w: Seq<i64>| w.len() > 0 && w[0] == id && #[trigger] walk(
        g,
        w,
    ) implies w.no_duplicates() by {
        let at = choose|at: int| 0 <= at < order.len() && order[at] == id;
        assert forall|i: int, j: int| 0 <= i < j < w.len() implies w[i] != w[j] by {
            lemma_walk_descends(g, order, w, i, at);
            let p = choose|p: int| 0 <= p <= at - i && p < order.len() && #[trigger] order[p] == w[i];
            let tail = w.skip(i);
            assert(walk(g, tail)) by {
                assert forall|m: int| 0 <= m < tail.len() - 1 implies targets(
                    g,
                    #[trigger] tail[m],
                ).contains(tail[m + 1]) by {
                    assert(targets(g, w[i + m]).contains(w[i + m + 1]));
                }
            }
            lemma_walk_descends(g, order, tail, j - i, p);
            let q = choose|q: int| 0 <= q <= p - (j - i) && q < order.len() && #[trigger] order[q] == tail[j - i];
            assert(order[q] == w[j]);
            assert(q < p);
        }
    }
}

/// A cycle that a search reports is one.
proof fn lemma_search_sound(
    g: Seq<NodeView>,
    id: i64,
    visited: Seq<i64>,
    path: Seq<i64>,
    depth: nat,
)
    requires
        walk(g, path),
        path.len() > 0 ==> targets(g, path.last()).contains(id),
    ensures
        search(g, id, visited, path, depth).cycle matches Some(c) ==> cycle(g, c),
    decreases depth, 0nat,
{
    if path.contains(id) {
        path.index_of_first_ensures(id);
        let start = path.index_of_first(id).unwrap();
        let c = path.skip(start).push(id);
        assert(c[0] == id);
        assert forall|i: int| 0 <= i < c.len() - 1 implies targets(g, #[trigger] c[i]).contains(
            c[i + 1],
        ) by {
            assert(c[i] == path[start + i]);
            if i + 1 < c.len() - 1 {
                assert(c[i + 1] == path[start + i + 1]);
            } else {
                assert(path[start + i] == path.last());
            }
        }
    } else if !visited.contains(id) && depth > 0 {
        let deeper = path.push(id);
        assert(walk(g, deeper)) by {
            assert forall|i: int| 0 <= i < deeper.len() - 1 implies targets(
                g,
                #[trigger] deeper[i],
            ).contains(deeper[i + 1]) by {
                assert(deeper[i] == path[i]);
                if i + 1 < path.len() {
                    assert(deeper[i + 1] == path[i + 1]);
                }
            }
        }
        lemma_search_all_sound(
            g,
            targets(g, id),
            visited.push(id),
            deeper,
            (depth - 1) as nat,
        );
    }
}

proof fn lemma_search_all_sound(
    g: Seq<NodeView>,
    ids: Seq<i64>,
    visited: Seq<i64>,
    path: Seq<i64>,
    depth: nat,
)
    requires
        walk(g, path),
        path.len() > 0,
        forall|j: int| 0 <= j < ids.len() ==> targets(g, path.last()).contains(#[trigger] ids[j]),
    ensures
        search_all(g, ids, visited, path, depth).cycle matches Some(c) ==> cycle(g, c),
    decreases depth, ids.len(),
{
    if ids.len() > 0 {
        lemma_search_sound(g, ids[0], visited, path, depth);
        let first = search(g, ids[0], visited, path, depth);
        assert forall|j: int| 0 <= j < ids.skip(1).len() implies targets(g, path.last()).contains(
            #[trigger] ids.skip(1)[j],
        ) by {
            assert(ids.skip(1)[j] == ids[j + 1]);
        }
        lemma_search_all_sound(g, ids.skip(1), first.visited, path, depth);
    }
}

/// A search from an id reports a cycle exactly when some walk from that id
/// meets an id twice, and what it reports is a cycle of the graph.
pub proof fn law_first_cycle_decides(g: Seq<NodeView>, id: i64)
    ensures
        first_cycle_from(g, id) is None <==> acyclic_from(g, id),
        first_cycle_from(g, id) matches Some(c) ==> cycle(g, c),
{
    lemma_search_sound(g, id, Seq::empty(), Seq::empty(), enough(g));
    lemma_unseen_grows(g, Seq::empty(), Seq::empty());
    if first_cycle_from(g, id) is None {
        let order = lemma_search_settles(
            g,
            id,
            Seq::empty(),
            Seq::empty(),
            enough(g),
            Seq::empty(),
        );
        lemma_settled_acyclic(g, order, id);
    } else {
        let w = lemma_search_reached(g, id, Seq::empty(), Seq::empty(), enough(g), id);
    }
}

/// A cycle that a search reports lies on a walk from the search's origin.
proof fn lemma_search_reached(
    g: Seq<NodeView>,
    id: i64,
    visited: Seq<i64>,
    path: Seq<i64>,
    depth: nat,
    origin: i64,
) -> (w: Seq<i64>)
    requires
        walk(g, path),
        path.len() > 0 ==> path[0] == origin && targets(g, path.last()).contains(id),
        path.len() == 0 ==> id == origin,
        search(g, id, visited, path, depth).cycle is Some,
    ensures
        w.len() > 0,
        w[0] == origin,
        walk(g, w),
        !w.no_duplicates(),
    decreases depth, 0nat,
{
    let deeper = path.push(id);
    assert(walk(g, deeper)) by {
        assert forall|i: int| 0 <= i < deeper.len() - 1 implies targets(
            g,
            #[trigger] deeper[i],
        ).contains(deeper[i + 1]) by {
            assert(deeper[i] == path[i]);
            if i + 1 < path.len() {
                assert(deeper[i + 1] == path[i + 1]);
            }
        }
    }
    if path.contains(id) {
        let i = choose|i: int| 0 <= i < path.len() && path[i] == id;
        assert(deeper[i] == deeper[path.len() as int]);
        deeper
    } else {
        lemma_search_all_reached(
            g,
            targets(g, id),
            visited.push(id),
            deeper,
            (depth - 1) as nat,
            origin,
        )
    }
}

proof fn lemma_search_all_reached(
    g: Seq<NodeView>,
    ids: Seq<i64>,
    visited: Seq<i64>,
    path: Seq<i64>,
    depth: nat,
    origin: i64,
) -> (w: Seq<i64>)
    requires
        walk(g, path),
        path.len() > 0,
        path[0] == origin,
        forall|j: int| 0 <= j < ids.len() ==> targets(g, path.last()).contains(#[trigger] ids[j]),
        search_all(g, ids, visited, path, depth).cycle is Some,
    ensures
        w.len() > 0,
        w[0] == origin,
        walk(g, w),
        !w.no_duplicates(),
    decreases depth, ids.len(),
{
    let first = search(g, ids[0], visited, path, depth);
    if first.cycle is Some {
        lemma_search_reached(g, ids[0], visited, path, depth, origin)
    } else {
        assert forall|j: int| 0 <= j < ids.skip(1).len() implies targets(g, path.last()).contains(
            #[trigger] ids.skip(1)[j],
        ) by {
            assert(ids.skip(1)[j] == ids[j + 1]);
        }
        lemma_search_all_reached(g, ids.skip(1), first.visited, path, depth, origin)
    }
}

/// Searching from every node reports a cycle exactly when some walk meets an
/// id twice, and everything it reports is a cycle of the graph.
pub proof fn law_all_cycles_decide(g: Seq<NodeView>)
    ensures
        all_cycles(g).len() == 0 <==> acyclic(g),
        forall|i: int| 0 <= i < all_cycles(g).len() ==> cycle(g, #[trigger] all_cycles(g)[i]),
{
    lemma_cycles_sound(g, node_ids(g), Seq::empty());
    if all_cycles(g).len() == 0 {
        let order = lemma_cycles_settle(g, node_ids(g), Seq::empty(), Seq::empty());
        assert forall|w: Seq<i64>| #[trigger] walk(g, w) implies w.no_duplicates() by {
            if w.len() > 1 {
                assert(targets(g, w[0]).contains(w[1]));
                lemma_source_is_node(g, w[0]);
                let k = choose|k: int| 0 <= k < node_ids(g).len() && node_ids(g)[k] == w[0];
                assert(order.contains(node_ids(g)[k]));
                lemma_settled_acyclic(g, order, w[0]);
            }
        }
    } else {
        let c = all_cycles(g)[0];
        assert(cycle(g, c));
        assert(walk(g, c));
        assert(c[0] == c[c.len() - 1]);
    }
}

proof fn lemma_source_is_node(g: Seq<NodeView>, id: i64)
    requires
        targets(g, id).len() > 0,
    ensures
        node_ids(g).contains(id),
    decreases g.len(),
{
    if g.len() > 0 {
        if g[0].id == id {
            assert(node_ids(g)[0] == id);
        } else {
            lemma_source_is_node(g.skip(1), id);
            let k = choose|k: int|
                0 <= k < node_ids(g.skip(1)).len() && node_ids(g.skip(1))[k] == id;
            assert(node_ids(g)[k + 1] == id);
        }
    }
}

proof fn lemma_cycles_sound(g: Seq<NodeView>, ids: Seq<i64>, visited: Seq<i64>)
    ensures
        forall|i: int|
            0 <= i < cycles_from(g, ids, visited).len() ==> cycle(
                g,
                #[trigger] cycles_from(g, ids, visited)[i],
            ),
    decreases ids.len(),
{
    if ids.len() > 0 {
        let found = search(g, ids[0], visited, Seq::empty(), enough(g));
        lemma_search_sound(g, ids[0], visited, Seq::empty(), enough(g));
        lemma_cycles_sound(g, ids.skip(1), found.visited);
        let rest = cycles_from(g, ids.skip(1), found.visited);
        let all = cycles_from(g, ids, visited);
        assert forall|i: int| 0 <= i < all.len() implies cycle(g, #[trigger] all[i]) by {
            if found.cycle is Some {
                if i > 0 {
                    assert(all[i] == rest[i - 1]);
                }
            } else {
                assert(all[i] == rest[i]);
            }
        }
    }
}

proof fn lemma_cycles_settle(
    g: Seq<NodeView>,
    ids: Seq<i64>,
    visited: Seq<i64>,
    order: Seq<i64>,
) -> (r: Seq<i64>)
    requires
        settled(g, order),
        finished(order, visited, Seq::empty()),
        cycles_from(g, ids, visited).len() == 0,
    ensures
        settled(g, r),
        forall|x: i64| order.contains(x) ==> r.contains(x),
        forall|j: int| 0 <= j < ids.len() ==> r.contains(#[trigger] ids[j]),
    decreases ids.len(),
{
    if ids.len() == 0 {
        order
    } else {
        let found = search(g, ids[0], visited, Seq::empty(), enough(g));
        lemma_unseen_grows(g, visited, visited);
        let mid = lemma_search_settles(g, ids[0], visited, Seq::empty(), enough(g), order);
        let r = lemma_cycles_settle(g, ids.skip(1), found.visited, mid);
        assert forall|x: i64| order.contains(x) implies r.contains(x) by {
            assert(visited.contains(x));
            assert(found.visited.contains(x));
            assert(mid.contains(x));
        }
        assert forall|j: int| 0 <= j < ids.len() implies r.contains(#[trigger] ids[j]) by {
            if j > 0 {
                assert(ids[j] == ids.skip(1)[j - 1]);
            } else {
                assert(mid.contains(ids[0]));
            }
        }
        r
    }
}

/// A graph without cycles stays without cycles when a node is put in front of
/// it from which none is reached.
pub proof fn law_extension_stays_acyclic(g: Seq<NodeView>, rest: Seq<NodeView>)
    requires
        g.len() > 0,
        g.skip(1) == rest,
        acyclic(rest),
        acyclic_from(g, g[0].id),
    ensures
        acyclic(g),
{
    assert forall|w: Seq<i64>| #[trigger] walk(g, w) implies w.no_duplicates() by {
        assert forall|i: int, j: int| 0 <= i < j < w.len() implies w[i] != w[j] by {
            lemma_no_repeat(g, rest, g[0].id, w, i, j);
        }
    }
}

/// A walk without the first node's id as a source is a walk among the rest.
proof fn lemma_walk_among_rest(g: Seq<NodeView>, rest: Seq<NodeView>, id: i64, w: Seq<i64>)
    requires
        g.len() > 0,
        g[0].id == id,
        g.skip(1) == rest,
        walk(g, w),
        forall|k: int| 0 <= k < w.len() - 1 ==> #[trigger] w[k] != id,
    ensures
        walk(rest, w),
{
    assert forall|k: int| 0 <= k < w.len() - 1 implies targets(
        rest,
        #[trigger] w[k],
    ).contains(w[k + 1]) by {
        assert(targets(g, w[k]).contains(w[k + 1]));
    }
}

proof fn lemma_walk_part(g: Seq<NodeView>, w: Seq<i64>, from: int, to: int)
    requires
        walk(g, w),
        0 <= from <= to <= w.len(),
    ensures
        walk(g, w.subrange(from, to)),
{
    let part = w.subrange(from, to);
    assert forall|k: int| 0 <= k < part.len() - 1 implies targets(
        g,
        #[trigger] part[k],
    ).contains(part[k + 1]) by {
        assert(part[k] == w[from + k]);
        assert(targets(g, w[from + k]).contains(w[from + k + 1]));
    }
}

proof fn lemma_no_repeat(
    g: Seq<NodeView>,
    rest: Seq<NodeView>,
    id: i64,
    w: Seq<i64>,
    i: int,
    j: int,
)
    requires
        g.len() > 0,
        g[0].id == id,
        g.skip(1) == rest,
        acyclic(rest),
        acyclic_from(g, id),
        walk(g, w),
        0 <= i < j < w.len(),
    ensures
        w[i] != w[j],
{
    let part = w.subrange(i, j + 1);
    lemma_walk_part(g, w, i, j + 1);
    if forall|k: int| 0 <= k < part.len() - 1 ==> #[trigger] part[k] != id {
        lemma_walk_among_rest(g, rest, id, part);
        assert(part.no_duplicates());
        assert(part[0] != part[part.len() - 1]);
    } else if part[0] == part[part.len() - 1] {
        let k = choose|k: int| 0 <= k < part.len() - 1 && part[k] == id;
        let tail = part.subrange(k, part.len() as int);
        let head = part.subrange(1, k + 1);
        let round = tail + head;
        lemma_walk_part(g, part, k, part.len() as int);
        lemma_walk_part(g, part, 1, k + 1);
        assert forall|m: int| 0 <= m < round.len() - 1 implies targets(
            g,
            #[trigger] round[m],
        ).contains(round[m + 1]) by {
            if m < tail.len() - 1 {
                assert(round[m] == tail[m] && round[m + 1] == tail[m + 1]);
                assert(targets(g, tail[m]).contains(tail[m + 1]));
            } else if m == tail.len() - 1 {
                assert(round[m] == part[part.len() - 1]);
                assert(round[m] == part[0]);
                assert(round[m + 1] == head[0]);
                assert(head[0] == part[1]);
                assert(targets(g, part[0]).contains(part[1]));
            } else {
                let n = m - tail.len();
                assert(round[m] == head[n] && round[m + 1] == head[n + 1]);
                assert(targets(g, head[n]).contains(head[n + 1]));
            }
        }
        assert(walk(g, round));
        assert(round[0] == id);
        assert(round.no_duplicates());
        if k == 0 {
            assert(round[0] == round[part.len() - 1]);
        } else {
            assert(round[round.len() - 1] == head[k - 1]);
            assert(head[k - 1] == part[k]);
            assert(round[0] == round[round.len() - 1]);
        }
    }
}

} // verus!
