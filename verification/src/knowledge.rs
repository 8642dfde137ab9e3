//! The knowledge base: one file of entries per kind inside `.nest/kb/`.
use vstd::prelude::*;

use crate::clock;
use crate::clock::{
    is_earlier, local_instant, now_ts, read_naive, read_rfc3339, Instant,
};
use crate::diag;
use crate::diag::hash_ids;
use crate::doc;
use crate::doc::{copy, overlay, put_field, read_doc, write_doc, Doc, DocView, Field, FieldView};
use crate::error::Error;
use crate::graph;
use crate::graph::{find_cycle, holds, search_from, Node};
use crate::json;
use crate::json::{
    add_member, from_integers, from_members, from_opt_bool, from_opt_integer, from_opt_text, from_text,
    from_texts, no_members, Json, JsonView,
};
use crate::model;
use crate::model::{
    ids_clone, KnowledgeEntry, KnowledgeEntryView, KnowledgeKind, Task, TaskView,
};
use crate::order;
use crate::order::sort_keyed;
use crate::project;
use crate::project::detect_git_repo;
use crate::text;
use crate::text::{
    cat, cat3, chars_of, contains_text, int_text, is_alphanumeric, is_blank, join, natural_text,
    opt_clone, owned, same, starts_with, string_of, to_lower,
};

verus! {

/// Explicit designation of the authoritative project summary. Historical
/// status entries are kept; designating never rewrites or promotes by tag.
#[derive(Debug)]
pub struct CurrentSummary {
    /// Id of the designated status entry.
    pub entry_id: i64,
    /// RFC 3339 (with offset) designation time.
    pub set_at: String,
    /// Who designated it ("human" or "agent:<name>").
    pub set_by: String,
    /// Optional Git commit the summary claims to describe.
    pub commit: Option<String>,
}

/// What a [`CurrentSummary`] holds.
#[verifier::ext_equal]
pub struct CurrentSummaryView {
    pub entry_id: i64,
    pub set_at: Seq<char>,
    pub set_by: Seq<char>,
    pub commit: Option<Seq<char>>,
}

impl View for CurrentSummary {
    type V = CurrentSummaryView;

    open spec fn view(&self) -> CurrentSummaryView {
        CurrentSummaryView {
            entry_id: self.entry_id,
            set_at: self.set_at@,
            set_by: self.set_by@,
            commit: text::opt_text(self.commit),
        }
    }
}

impl Clone for CurrentSummary {
    fn clone(&self) -> (r: CurrentSummary)
        ensures
            r@ == self@,
    {
        CurrentSummary {
            entry_id: self.entry_id,
            set_at: self.set_at.clone(),
            set_by: self.set_by.clone(),
            commit: opt_clone(&self.commit),
        }
    }
}

/// What an optional designation holds.
pub open spec fn opt_summary(o: Option<CurrentSummary>) -> Option<CurrentSummaryView> {
    match o {
        Some(s) => Some(s@),
        None => None,
    }
}

/// The entries of one kind. The status file also carries the explicit
/// current-summary reference, so that setting the reference and creating an
/// entry is one file update.
#[derive(Debug)]
pub struct EntriesFile {
    pub current_summary: Option<CurrentSummary>,
    pub entries: Vec<KnowledgeEntry>,
}

/// What an [`EntriesFile`] holds.
#[verifier::ext_equal]
pub struct EntriesFileView {
    pub current_summary: Option<CurrentSummaryView>,
    pub entries: Seq<KnowledgeEntryView>,
}

impl View for EntriesFile {
    type V = EntriesFileView;

    open spec fn view(&self) -> EntriesFileView {
        EntriesFileView {
            current_summary: opt_summary(self.current_summary),
            entries: model::entries(self.entries@),
        }
    }
}

/// The supersession references among entries.
pub open spec fn supersession_graph(entries: Seq<KnowledgeEntryView>) -> Seq<graph::NodeView> {
    entries.map_values(|e: KnowledgeEntryView| graph::NodeView { id: e.id, to: e.supersedes })
}

fn supersession_nodes(entries: &Vec<KnowledgeEntry>) -> (r: Vec<Node>)
    ensures
        graph::nodes(r@) == supersession_graph(model::entries(entries@)),
{
    let mut out: Vec<Node> = Vec::new();
    let ghost target = supersession_graph(model::entries(entries@));
    let mut i: usize = 0;
    while i < entries.len()
        invariant
            i <= entries.len(),
            target == supersession_graph(model::entries(entries@)),
            graph::nodes(out@) == target.take(i as int),
        decreases entries.len() - i,
    {
        let ghost before = graph::nodes(out@);
        out.push(Node { id: entries[i].id, to: ids_clone(&entries[i].supersedes) });
        assert(graph::nodes(out@) =~= before.push(target[i as int]));
        assert(target.take(i + 1) =~= target.take(i as int).push(target[i as int]));
        i += 1;
    }
    assert(target.take(i as int) =~= target);
    out
}

/// The first supersession cycle among entries (id -> ... -> id).
pub open spec fn first_supersession_cycle(entries: Seq<KnowledgeEntryView>) -> Option<Seq<i64>> {
    let all = graph::all_cycles(supersession_graph(entries));
    if all.len() > 0 {
        Some(all[0])
    } else {
        None
    }
}

/// Returns the first supersession cycle among `entries` (id -> ... -> id).
pub fn supersession_cycle(entries: &Vec<KnowledgeEntry>) -> (r: Option<Vec<i64>>)
    ensures
        match r {
            Some(c) => first_supersession_cycle(model::entries(entries@)) == Some(c@),
            None => first_supersession_cycle(model::entries(entries@)) is None,
        },
{
    let nodes = supersession_nodes(entries);
    let ghost g = graph::nodes(nodes@);
    let ghost ids = graph::node_ids(g);
    let mut visited: Vec<i64> = Vec::new();
    let mut i: usize = 0;
    assert(ids.skip(0) =~= ids);
    while i < nodes.len()
        invariant
            i <= nodes.len(),
            g == graph::nodes(nodes@),
            g == supersession_graph(model::entries(entries@)),
            ids == graph::node_ids(g),
            graph::cycles_from(g, ids.skip(i as int), visited@) == graph::all_cycles(g),
        decreases nodes.len() - i,
    {
        assert(ids.skip(i as int)[0] == nodes@[i as int].id);
        assert(ids.skip(i as int).skip(1) =~= ids.skip(i + 1));
        if let Some(c) = search_from(&nodes, nodes[i].id, &mut visited) {
            assert(graph::all_cycles(g)[0] == c@);
            return Some(c);
        }
        i += 1;
    }
    None
}

/// The first entry with the given id.
pub open spec fn find_entry(entries: Seq<KnowledgeEntryView>, id: i64) -> Option<KnowledgeEntryView>
    decreases entries.len(),
{
    if entries.len() == 0 {
        None
    } else if entries[0].id == id {
        Some(entries[0])
    } else {
        find_entry(entries.skip(1), id)
    }
}

/// The position of the first entry with the given id.
pub open spec fn entry_index(entries: Seq<KnowledgeEntryView>, id: i64) -> Option<int>
    decreases entries.len(),
{
    if entries.len() == 0 {
        None
    } else if entries[0].id == id {
        Some(0)
    } else {
        match entry_index(entries.skip(1), id) {
            Some(i) => Some(i + 1),
            None => None,
        }
    }
}

fn entry_position(entries: &Vec<KnowledgeEntry>, id: i64) -> (r: Option<usize>)
    ensures
        match r {
            Some(i) => i < entries.len() && entries@[i as int].id == id && entry_index(
                model::entries(entries@),
                id,
            ) == Some(i as int) && find_entry(model::entries(entries@), id) == Some(
                entries@[i as int]@,
            ),
            None => entry_index(model::entries(entries@), id) is None && find_entry(
                model::entries(entries@),
                id,
            ) is None,
        },
{
    let ghost all = model::entries(entries@);
    let mut i: usize = 0;
    assert(all.skip(0) =~= all);
    while i < entries.len()
        invariant
            i <= entries.len(),
            all == model::entries(entries@),
            find_entry(all, id) == find_entry(all.skip(i as int), id),
            entry_index(all, id) == (match entry_index(all.skip(i as int), id) {
                Some(k) => Some(k + i),
                None => None,
            }),
        decreases entries.len() - i,
    {
        assert(all.skip(i as int)[0] == entries@[i as int]@);
        if entries[i].id == id {
            return Some(i);
        }
        assert(all.skip(i as int).skip(1) =~= all.skip(i + 1));
        i += 1;
    }
    None
}

/// Gets a single entry by id.
pub fn get_entry(entries: &Vec<KnowledgeEntry>, id: i64) -> (r: Option<KnowledgeEntry>)
    ensures
        opt_entry(r) == find_entry(model::entries(entries@), id),
{
    match entry_position(entries, id) {
        Some(i) => Some(entries[i].clone()),
        None => None,
    }
}

/// What an optional entry holds.
pub open spec fn opt_entry(o: Option<KnowledgeEntry>) -> Option<KnowledgeEntryView> {
    match o {
        Some(e) => Some(e@),
        None => None,
    }
}

/// The entry with the highest id; of several, the last.
pub open spec fn latest(entries: Seq<KnowledgeEntryView>) -> Option<KnowledgeEntryView>
    decreases entries.len(),
{
    if entries.len() == 0 {
        None
    } else {
        match latest(entries.drop_last()) {
            Some(m) => if entries.last().id >= m.id {
                Some(entries.last())
            } else {
                Some(m)
            },
            None => Some(entries.last()),
        }
    }
}

/// The highest id among entries (0 where there is no entry).
pub open spec fn highest_id(entries: Seq<KnowledgeEntryView>) -> int {
    match latest(entries) {
        Some(e) => e.id as int,
        None => 0,
    }
}

fn latest_position(entries: &Vec<KnowledgeEntry>) -> (r: Option<usize>)
    ensures
        match r {
            Some(i) => i < entries.len() && latest(model::entries(entries@)) == Some(
                entries@[i as int]@,
            ),
            None => latest(model::entries(entries@)) is None && entries.len() == 0,
        },
{
    let ghost all = model::entries(entries@);
    let mut best: Option<usize> = None;
    let mut i: usize = 0;
    while i < entries.len()
        invariant
            i <= entries.len(),
            all == model::entries(entries@),
            match best {
                Some(b) => b < i && latest(all.take(i as int)) == Some(entries@[b as int]@),
                None => i == 0,
            },
        decreases entries.len() - i,
    {
        assert(all.take(i + 1).drop_last() =~= all.take(i as int));
        assert(all.take(i + 1).last() == entries@[i as int]@);
        match best {
            Some(b) => {
                if entries[i].id >= entries[b].id {
                    best = Some(i);
                }
            },
            None => {
                best = Some(i);
            },
        }
        i += 1;
    }
    assert(all.take(i as int) =~= all);
    best
}

/// Returns the latest status entry (highest id), or none if no status exists.
pub fn latest_status(entries: &Vec<KnowledgeEntry>) -> (r: Option<KnowledgeEntry>)
    ensures
        opt_entry(r) == latest(model::entries(entries@)),
{
    match latest_position(entries) {
        Some(i) => Some(entries[i].clone()),
        None => None,
    }
}

/// The highest id among entries (0 if there is none).
pub fn last_id(entries: &Vec<KnowledgeEntry>) -> (r: i64)
    ensures
        r == highest_id(model::entries(entries@)),
{
    match latest_position(entries) {
        Some(i) => entries[i].id,
        None => 0,
    }
}

/// Next available id for a kind: the highest existing id plus one (1 if none).
pub fn next_id(entries: &Vec<KnowledgeEntry>) -> (r: i64)
    requires
        highest_id(model::entries(entries@)) < i64::MAX,
    ensures
        r == highest_id(model::entries(entries@)) + 1,
{
    last_id(entries) + 1
}

/// No entry has an id above the highest one, so the next id is new.
pub proof fn law_next_id_is_new(entries: Seq<KnowledgeEntryView>)
    ensures
        forall|i: int| 0 <= i < entries.len() ==> (#[trigger] entries[i]).id <= highest_id(entries),
    decreases entries.len(),
{
    if entries.len() > 0 {
        law_next_id_is_new(entries.drop_last());
        assert forall|i: int| 0 <= i < entries.len() implies (#[trigger] entries[i]).id
            <= highest_id(entries) by {
            if i < entries.len() - 1 {
                assert(entries.drop_last()[i] == entries[i]);
                lemma_latest_exists(entries.drop_last());
            }
        }
    }
}

proof fn lemma_latest_exists(entries: Seq<KnowledgeEntryView>)
    requires
        entries.len() > 0,
    ensures
        latest(entries) is Some,
{
}

/// Why the `i`-th and later supersession references of an entry are refused,
/// if they are.
pub open spec fn reference_refusal(
    e: KnowledgeEntryView,
    others: Seq<KnowledgeEntryView>,
    i: int,
) -> Option<Seq<char>>
    decreases e.supersedes.len() - i,
{
    if i < 0 || i >= e.supersedes.len() {
        None
    } else {
        let s = e.supersedes[i];
        if s == e.id {
            Some("entry "@ + text::decimal(e.id as int) + " cannot supersede itself"@)
        } else if e.supersedes.take(i).contains(s) {
            Some(
                "duplicate supersedes reference #"@ + text::decimal(s as int) + " on entry "@
                    + text::decimal(e.id as int),
            )
        } else if find_entry(others, s) is None {
            Some(
                "entry "@ + text::decimal(e.id as int) + " supersedes #"@ + text::decimal(s as int)
                    + ", which does not exist among "@ + model::kind_name(e.kind) + " entries"@,
            )
        } else {
            reference_refusal(e, others, i + 1)
        }
    }
}

/// The supersession references among an entry and the others.
pub open spec fn projected_supersessions(
    e: KnowledgeEntryView,
    others: Seq<KnowledgeEntryView>,
) -> Seq<graph::NodeView> {
    seq![graph::NodeView { id: e.id, to: e.supersedes }] + supersession_graph(others)
}

/// Why the supersession references of an entry are refused, if they are.
pub open spec fn supersedes_refusal(
    e: KnowledgeEntryView,
    others: Seq<KnowledgeEntryView>,
) -> Option<Seq<char>> {
    match reference_refusal(e, others, 0) {
        Some(m) => Some(m),
        None => match graph::first_cycle_from(projected_supersessions(e, others), e.id) {
            Some(c) => Some("supersession cycle: "@ + text::joined(diag::hashed(c), " -> "@)),
            None => None,
        },
    }
}

proof fn lemma_no_references(e: KnowledgeEntryView, others: Seq<KnowledgeEntryView>)
    requires
        e.supersedes.len() == 0,
    ensures
        supersedes_refusal(e, others) is None,
{
    let g = projected_supersessions(e, others);
    assert(graph::targets(g, e.id) == e.supersedes);
    let none = Seq::<i64>::empty();
    assert(graph::search(g, e.id, none, none, graph::enough(g)).cycle is None);
}

/// Validates supersession references: no self-reference, targets must exist
/// in the same kind, and no cycles. Superseded text is never touched.
pub fn validate_supersedes(entry: &KnowledgeEntry, others: &Vec<KnowledgeEntry>) -> (r: Result<
    (),
    Error,
>)
    ensures
        match r {
            Ok(_) => supersedes_refusal(entry@, model::entries(others@)) is None,
            Err(e) => supersedes_refusal(entry@, model::entries(others@)) == Some(e@),
        },
{
    let ghost rest = model::entries(others@);
    let ghost ids = entry@.supersedes;
    if entry.supersedes.len() == 0 {
        proof {
            lemma_no_references(entry@, rest);
        }
        return Ok(());
    }
    let mut seen: Vec<i64> = Vec::new();
    let own = int_text(entry.id);
    let mut i: usize = 0;
    assert(ids.take(0) =~= seen@);
    while i < entry.supersedes.len()
        invariant
            i <= entry.supersedes.len(),
            rest == model::entries(others@),
            ids == entry@.supersedes,
            own@ == text::decimal(entry.id as int),
            seen@ == ids.take(i as int),
            reference_refusal(entry@, rest, 0) == reference_refusal(entry@, rest, i as int),
        decreases entry.supersedes.len() - i,
    {
        let s = entry.supersedes[i];
        let other = int_text(s);
        if s == entry.id {
            return Err(Error::new(cat3("entry ", own.as_str(), " cannot supersede itself")));
        }
        if holds(&seen, s) {
            let head = cat3("duplicate supersedes reference #", other.as_str(), " on entry ");
            return Err(Error::new(cat(head.as_str(), own.as_str())));
        }
        if entry_position(others, s).is_none() {
            let a = cat3("entry ", own.as_str(), " supersedes #");
            let b = cat3(a.as_str(), other.as_str(), ", which does not exist among ");
            return Err(Error::new(cat3(b.as_str(), entry.kind.as_str(), " entries")));
        }
        seen.push(s);
        assert(ids.take(i + 1) =~= ids.take(i as int).push(s));
        i += 1;
    }
    let mut nodes: Vec<Node> = Vec::new();
    nodes.push(Node { id: entry.id, to: ids_clone(&entry.supersedes) });
    let mut more = supersession_nodes(others);
    let ghost first = nodes@;
    let ghost tail = more@;
    nodes.append(&mut more);
    assert(graph::nodes(nodes@) =~= projected_supersessions(entry@, rest)) by {
        assert(graph::nodes(first + tail) =~= graph::nodes(first) + graph::nodes(tail));
    }
    if let Some(c) = find_cycle(&nodes, entry.id) {
        let hashes = hash_ids(&c);
        let desc = join(&hashes, " -> ");
        return Err(Error::new(cat("supersession cycle: ", desc.as_str())));
    }
    Ok(())
}

/// The entry that is added and the entries with it, or the message with which
/// it is refused: it takes the next id, and its references must hold.
pub open spec fn added(e: KnowledgeEntryView, entries: Seq<KnowledgeEntryView>) -> Result<
    KnowledgeEntryView,
    Seq<char>,
> {
    let n = KnowledgeEntryView { id: (highest_id(entries) + 1) as i64, ..e };
    match supersedes_refusal(n, entries) {
        Some(m) => Err(m),
        None => Ok(n),
    }
}

/// Appends an entry, which takes the next id. Supersession references are
/// validated before anything changes. Returns the entry and all entries.
pub fn add_entry(entry: KnowledgeEntry, entries: Vec<KnowledgeEntry>) -> (r: Result<
    (KnowledgeEntry, Vec<KnowledgeEntry>),
    Error,
>)
    requires
        highest_id(model::entries(entries@)) < i64::MAX,
    ensures
        match r {
            Ok((e, all)) => added(entry@, model::entries(entries@)) == Ok::<
                KnowledgeEntryView,
                Seq<char>,
            >(e@) && model::entries(all@) == model::entries(entries@).push(e@),
            Err(m) => added(entry@, model::entries(entries@)) == Err::<
                KnowledgeEntryView,
                Seq<char>,
            >(m@),
        },
{
    let id = next_id(&entries);
    let e = KnowledgeEntry { id, ..entry };
    if let Err(m) = validate_supersedes(&e, &entries) {
        return Err(m);
    }
    let mut all = entries;
    let copy = e.clone();
    all.push(copy);
    assert(model::entries(all@) =~= model::entries(entries@).push(e@));
    Ok((e, all))
}

/// A change to an entry: what is given replaces what the entry has.
#[derive(Debug)]
pub struct EntryChange {
    pub title: Option<String>,
    pub content: Option<String>,
    pub tags: Option<Vec<String>>,
    pub related_task: Option<i64>,
    pub supersedes: Option<Vec<i64>>,
    pub actor: Option<String>,
}

/// The given value, or the one that was there.
pub open spec fn given_or<T>(new: Option<T>, was: T) -> T {
    match new {
        Some(v) => v,
        None => was,
    }
}

/// An entry after a change.
pub open spec fn changed(e: KnowledgeEntryView, c: EntryChange) -> KnowledgeEntryView {
    KnowledgeEntryView {
        title: given_or(text::opt_text(c.title), e.title),
        content: given_or(text::opt_text(c.content), e.content),
        tags: given_or(json::opt_texts(c.tags), e.tags),
        related_task: if c.related_task is Some {
            c.related_task
        } else {
            e.related_task
        },
        supersedes: match c.supersedes {
            Some(s) => s@,
            None => e.supersedes,
        },
        actor: if c.actor is Some {
            text::opt_text(c.actor)
        } else {
            e.actor
        },
        ..e
    }
}

/// The entries with another id, in order.
pub open spec fn other_entries(entries: Seq<KnowledgeEntryView>, id: i64) -> Seq<
    KnowledgeEntryView,
> {
    entries.filter(|e: KnowledgeEntryView| e.id != id)
}

fn others_clone(entries: &Vec<KnowledgeEntry>, id: i64) -> (r: Vec<KnowledgeEntry>)
    ensures
        model::entries(r@) == other_entries(model::entries(entries@), id),
{
    let mut out: Vec<KnowledgeEntry> = Vec::new();
    let ghost all = model::entries(entries@);
    let ghost keep = |e: KnowledgeEntryView| e.id != id;
    let mut i: usize = 0;
    reveal(Seq::filter);
    assert(all.take(0) =~= Seq::empty());
    assert(model::entries(out@) =~= Seq::empty());
    while i < entries.len()
        invariant
            i <= entries.len(),
            all == model::entries(entries@),
            keep == (|e: KnowledgeEntryView| e.id != id),
            model::entries(out@) == all.take(i as int).filter(keep),
        decreases entries.len() - i,
    {
        proof {
            text::lemma_filter_take(all, keep, i as int);
        }
        assert(all[i as int] == entries@[i as int]@);
        let ghost before = out@;
        if entries[i].id != id {
            out.push(entries[i].clone());
            assert(model::entries(out@) =~= model::entries(before).push(all[i as int]));
        }
        i += 1;
    }
    assert(all.take(i as int) =~= all);
    out
}

/// The entries after a change to one of them, or the message with which it is
/// refused.
pub open spec fn update_outcome(
    entries: Seq<KnowledgeEntryView>,
    kind: KnowledgeKind,
    id: i64,
    c: EntryChange,
    now: Seq<char>,
) -> Result<Seq<KnowledgeEntryView>, Seq<char>> {
    match entry_index(entries, id) {
        None => Err(
            "knowledge entry "@ + text::decimal(id as int) + " ("@ + model::kind_name(kind)
                + ") not found"@,
        ),
        Some(i) => {
            let e = changed(entries[i], c);
            match supersedes_refusal(e, other_entries(entries, id)) {
                Some(m) => Err(m),
                None => Ok(entries.update(i, KnowledgeEntryView { updated_at: now, ..e })),
            }
        },
    }
}

/// The outcome of an operation on entries.
pub open spec fn entries_outcome(r: Result<Vec<KnowledgeEntry>, Error>) -> Result<
    Seq<KnowledgeEntryView>,
    Seq<char>,
> {
    match r {
        Ok(v) => Ok(model::entries(v@)),
        Err(e) => Err(e@),
    }
}

/// Changes an existing entry by id, at `now`.
pub fn update_entry_at(
    entries: Vec<KnowledgeEntry>,
    kind: KnowledgeKind,
    id: i64,
    change: EntryChange,
    now: &str,
) -> (r: Result<Vec<KnowledgeEntry>, Error>)
    ensures
        entries_outcome(r) == update_outcome(model::entries(entries@), kind, id, change, now@),
{
    let at = match entry_position(&entries, id) {
        Some(at) => at,
        None => {
            let n = int_text(id);
            let head = cat3("knowledge entry ", n.as_str(), " (");
            return Err(Error::new(cat3(head.as_str(), kind.as_str(), ") not found")));
        },
    };
    let others = others_clone(&entries, id);
    let was = entries[at].clone();
    let e = KnowledgeEntry {
        title: match change.title {
            Some(t) => t,
            None => was.title,
        },
        content: match change.content {
            Some(t) => t,
            None => was.content,
        },
        tags: match change.tags {
            Some(t) => t,
            None => was.tags,
        },
        related_task: if change.related_task.is_some() {
            change.related_task
        } else {
            was.related_task
        },
        supersedes: match change.supersedes {
            Some(s) => s,
            None => was.supersedes,
        },
        actor: if change.actor.is_some() {
            change.actor
        } else {
            was.actor
        },
        id: was.id,
        kind: was.kind,
        commit: was.commit,
        created_at: was.created_at,
        updated_at: was.updated_at,
    };
    assert(e@ == changed(entries@[at as int]@, change));
    if let Err(m) = validate_supersedes(&e, &others) {
        return Err(m);
    }
    let mut all = entries;
    let e = KnowledgeEntry { updated_at: owned(now), ..e };
    all.set(at, e);
    assert(model::entries(all@) =~= model::entries(entries@).update(at as int, e@));
    Ok(all)
}

/// Changes an existing entry by id, now.
pub fn update_entry(
    entries: Vec<KnowledgeEntry>,
    kind: KnowledgeKind,
    id: i64,
    change: EntryChange,
) -> (r: Result<Vec<KnowledgeEntry>, Error>)
    ensures
        exists|now: Seq<char>|
            clock::is_stamp(now) && entries_outcome(r) == #[trigger] update_outcome(
                model::entries(entries@),
                kind,
                id,
                change,
                now,
            ),
{
    let now = now_ts();
    update_entry_at(entries, kind, id, change, now.as_str())
}

/// What "current status" retrieval returns: the designated summary plus
/// provenance, or the highest-id fallback labeled as a historical update.
#[derive(Debug)]
pub struct CurrentStatus {
    pub entry: KnowledgeEntry,
    /// True when an explicit current-summary reference designates this entry.
    pub designated: bool,
    /// Provenance of the designation (none for the fallback).
    pub designation: Option<CurrentSummary>,
    /// Set for the fallback: never presented as authoritative.
    pub note: Option<String>,
}

/// What a [`CurrentStatus`] holds.
#[verifier::ext_equal]
pub struct CurrentStatusView {
    pub entry: KnowledgeEntryView,
    pub designated: bool,
    pub designation: Option<CurrentSummaryView>,
    pub note: Option<Seq<char>>,
}

impl View for CurrentStatus {
    type V = CurrentStatusView;

    open spec fn view(&self) -> CurrentStatusView {
        CurrentStatusView {
            entry: self.entry@,
            designated: self.designated,
            designation: opt_summary(self.designation),
            note: text::opt_text(self.note),
        }
    }
}

pub const FALLBACK_NOTE: &'static str =
    "latest historical update; no current summary designated (set one with `jay kb set-current <id>` or MCP set_current_summary)";

/// The designated entry, where the designation points to one.
pub open spec fn designated_entry(f: EntriesFileView) -> Option<KnowledgeEntryView> {
    match f.current_summary {
        Some(cs) => find_entry(f.entries, cs.entry_id),
        None => None,
    }
}

/// The current status of a project: the designated summary, or the
/// highest-id entry with a note.
pub open spec fn status_of(f: EntriesFileView) -> Option<CurrentStatusView> {
    match designated_entry(f) {
        Some(entry) => Some(
            CurrentStatusView {
                entry,
                designated: true,
                designation: f.current_summary,
                note: None,
            },
        ),
        None => match latest(f.entries) {
            Some(entry) => Some(
                CurrentStatusView {
                    entry,
                    designated: false,
                    designation: None,
                    note: Some(FALLBACK_NOTE@),
                },
            ),
            None => None,
        },
    }
}

/// What an optional status holds.
pub open spec fn opt_status(o: Option<CurrentStatus>) -> Option<CurrentStatusView> {
    match o {
        Some(s) => Some(s@),
        None => None,
    }
}

/// Current status retrieval: the designated summary plus provenance; when none
/// is designated, the highest-id historical entry with an explicit label. A
/// missing pointer target falls back the same way (doctor flags it).
pub fn current_status(file: &EntriesFile) -> (r: Option<CurrentStatus>)
    ensures
        opt_status(r) == status_of(file@),
{
    if let Some(cs) = &file.current_summary {
        if let Some(i) = entry_position(&file.entries, cs.entry_id) {
            return Some(
                CurrentStatus {
                    entry: file.entries[i].clone(),
                    designated: true,
                    designation: Some(cs.clone()),
                    note: None,
                },
            );
        }
    }
    match latest_position(&file.entries) {
        Some(i) => Some(
            CurrentStatus {
                entry: file.entries[i].clone(),
                designated: false,
                designation: None,
                note: Some(owned(FALLBACK_NOTE)),
            },
        ),
        None => None,
    }
}

/// The designated current-summary reference (none when never designated).
pub fn current_summary_ref(file: &EntriesFile) -> (r: Option<CurrentSummary>)
    ensures
        opt_summary(r) == file@.current_summary,
{
    match &file.current_summary {
        Some(cs) => Some(cs.clone()),
        None => None,
    }
}

/// A designation, or the message with which it is refused: the entry must
/// exist and have meaningful content.
pub open spec fn designated(
    f: EntriesFileView,
    entry_id: i64,
    actor: Seq<char>,
    commit: Option<Seq<char>>,
    now: Seq<char>,
) -> Result<CurrentSummaryView, Seq<char>> {
    match find_entry(f.entries, entry_id) {
        None => Err("status entry #"@ + text::decimal(entry_id as int) + " not found"@),
        Some(e) => if text::blank(e.content) {
            Err(
                "status entry #"@ + text::decimal(entry_id as int)
                    + " has blank content; a current summary must be meaningful"@,
            )
        } else {
            Ok(CurrentSummaryView { entry_id, set_at: now, set_by: actor, commit })
        },
    }
}

/// The outcome of a designation.
pub open spec fn summary_outcome(r: Result<CurrentSummary, Error>) -> Result<
    CurrentSummaryView,
    Seq<char>,
> {
    match r {
        Ok(s) => Ok(s@),
        Err(e) => Err(e@),
    }
}

/// The designation of an existing status entry as the authoritative current
/// summary, at `now`. Requires meaningful (nonblank) content; records actor and
/// time; accepts an optional Git commit reference. Historical entries are
/// never promoted automatically because they carry a `current` tag.
pub fn set_current_summary_at(
    file: &EntriesFile,
    entry_id: i64,
    actor: &str,
    commit: Option<String>,
    now: &str,
) -> (r: Result<CurrentSummary, Error>)
    ensures
        summary_outcome(r) == designated(file@, entry_id, actor@, text::opt_text(commit), now@),
{
    let n = int_text(entry_id);
    match entry_position(&file.entries, entry_id) {
        None => Err(Error::new(cat3("status entry #", n.as_str(), " not found"))),
        Some(i) => {
            if is_blank(file.entries[i].content.as_str()) {
                Err(
                    Error::new(
                        cat3(
                            "status entry #",
                            n.as_str(),
                            " has blank content; a current summary must be meaningful",
                        ),
                    ),
                )
            } else {
                Ok(CurrentSummary { entry_id, set_at: owned(now), set_by: owned(actor), commit })
            }
        },
    }
}

/// The designation of an existing status entry now.
pub fn set_current_summary(file: &EntriesFile, entry_id: i64, actor: &str, commit: Option<String>)
    -> (r: Result<CurrentSummary, Error>)
    ensures
        exists|now: Seq<char>|
            clock::is_stamp(now) && summary_outcome(r) == #[trigger] designated(
                file@,
                entry_id,
                actor@,
                text::opt_text(commit),
                now,
            ),
{
    let now = now_ts();
    set_current_summary_at(file, entry_id, actor, commit, now.as_str())
}

/// The status file after an entry is added and, on request, designated, or the
/// message with which it is refused.
pub open spec fn status_added(
    f: EntriesFileView,
    e: KnowledgeEntryView,
    set_current: bool,
    actor: Seq<char>,
    now: Seq<char>,
) -> Result<EntriesFileView, Seq<char>> {
    if set_current && text::blank(e.content) {
        Err("a current summary must have meaningful content"@)
    } else {
        match added(KnowledgeEntryView { kind: KnowledgeKind::Status, ..e }, f.entries) {
            Err(m) => Err(m),
            Ok(n) => Ok(
                EntriesFileView {
                    current_summary: if set_current {
                        Some(
                            CurrentSummaryView {
                                entry_id: n.id,
                                set_at: now,
                                set_by: actor,
                                commit: n.commit,
                            },
                        )
                    } else {
                        f.current_summary
                    },
                    entries: f.entries.push(n),
                },
            ),
        }
    }
}

/// The outcome of an operation on an entries file.
pub open spec fn file_outcome(r: Result<EntriesFile, Error>) -> Result<EntriesFileView, Seq<char>> {
    match r {
        Ok(f) => Ok(f@),
        Err(e) => Err(e@),
    }
}

/// Creates a status entry and (optionally) designates it as current in one
/// file update, at `now`. The new entry is the last of the file.
pub fn add_status_entry_at(
    file: EntriesFile,
    entry: KnowledgeEntry,
    set_current: bool,
    actor: &str,
    now: &str,
) -> (r: Result<EntriesFile, Error>)
    requires
        highest_id(model::entries(file.entries@)) < i64::MAX,
    ensures
        file_outcome(r) == status_added(file@, entry@, set_current, actor@, now@),
{
    if set_current && is_blank(entry.content.as_str()) {
        return Err(Error::fixed("a current summary must have meaningful content"));
    }
    let e = KnowledgeEntry { kind: KnowledgeKind::Status, ..entry };
    match add_entry(e, file.entries) {
        Err(m) => Err(m),
        Ok((n, all)) => {
            let current_summary = if set_current {
                Some(
                    CurrentSummary {
                        entry_id: n.id,
                        set_at: owned(now),
                        set_by: owned(actor),
                        commit: opt_clone(&n.commit),
                    },
                )
            } else {
                file.current_summary
            };
            Ok(EntriesFile { current_summary, entries: all })
        },
    }
}

/// Creates a status entry and (optionally) designates it as current in one
/// file update, now.
pub fn add_status_entry(file: EntriesFile, entry: KnowledgeEntry, set_current: bool, actor: &str)
    -> (r: Result<EntriesFile, Error>)
    requires
        highest_id(model::entries(file.entries@)) < i64::MAX,
    ensures
        exists|now: Seq<char>|
            clock::is_stamp(now) && file_outcome(r) == #[trigger] status_added(file@, entry@, set_current, actor@, now),
{
    let now = now_ts();
    add_status_entry_at(file, entry, set_current, actor, now.as_str())
}

/// A designated summary that exists is what is returned, with its provenance,
/// whatever entries come later; otherwise the newest entry is returned with a
/// label that it is not authoritative. Tags decide nothing.
pub proof fn law_designation_wins(f: EntriesFileView)
    ensures
        designated_entry(f) matches Some(entry) ==> status_of(f) == Some(
            CurrentStatusView {
                entry,
                designated: true,
                designation: f.current_summary,
                note: None,
            },
        ),
        designated_entry(f) is None && f.entries.len() > 0 ==> status_of(f) == Some(
            CurrentStatusView {
                entry: latest(f.entries)->0,
                designated: false,
                designation: None,
                note: Some(FALLBACK_NOTE@),
            },
        ),
        f.entries.len() == 0 ==> status_of(f) is None,
{
    if f.entries.len() > 0 {
        lemma_latest_exists(f.entries);
    }
}

/// Accepting the supersession references of an entry keeps those of its kind
/// free of cycles.
pub proof fn law_supersessions_stay_acyclic(
    e: KnowledgeEntryView,
    others: Seq<KnowledgeEntryView>,
)
    requires
        graph::acyclic(supersession_graph(others)),
        supersedes_refusal(e, others) is None,
    ensures
        graph::acyclic(projected_supersessions(e, others)),
{
    let g = projected_supersessions(e, others);
    let rest = supersession_graph(others);
    graph::law_first_cycle_decides(g, e.id);
    assert(g.skip(1) =~= rest);
    graph::law_extension_stays_acyclic(g, rest);
}

/// The known fields of a knowledge base file.
pub const KB_FILE_FIELDS: [&'static str; 2] = ["entries", "current_summary"];

/// The known fields of a current-summary reference.
pub const SUMMARY_FIELDS: [&'static str; 4] = ["entry_id", "set_at", "set_by", "commit"];

/// A table with the unknown fields of the one it replaces. Known nullable
/// fields are deliberately left out, so that clearing them still works.
pub open spec fn level_preserved(new: DocView, old: DocView, known: Seq<&str>) -> DocView {
    match (new, old) {
        (DocView::Table(n), DocView::Table(o)) => DocView::Table(doc::overlaid(n, o, known)),
        _ => new,
    }
}

/// Whether two tables have the same integer id.
pub open spec fn same_id(a: DocView, b: DocView) -> bool {
    doc::integer_of(doc::field_of(a, "id"@)) is Some && doc::integer_of(doc::field_of(a, "id"@))
        == doc::integer_of(doc::field_of(b, "id"@))
}

/// The first of `olds` with the id of `e`.
pub open spec fn first_same_id(e: DocView, olds: Seq<DocView>) -> Option<DocView>
    decreases olds.len(),
{
    if olds.len() == 0 {
        None
    } else if same_id(olds[0], e) {
        Some(olds[0])
    } else {
        first_same_id(e, olds.skip(1))
    }
}

/// An entry with the unknown fields of the one with its id.
pub open spec fn entry_preserved(e: DocView, olds: Seq<DocView>) -> DocView {
    match first_same_id(e, olds) {
        Some(o) => level_preserved(e, o, diag::KNOWN_KB_ENTRY_FIELDS@),
        None => e,
    }
}

/// Entries, each with the unknown fields of the one with its id.
pub open spec fn entries_preserved(new: Seq<DocView>, olds: Seq<DocView>) -> Seq<DocView> {
    new.map_values(|e: DocView| entry_preserved(e, olds))
}

/// A table with a field set.
pub open spec fn with_field(d: DocView, name: Seq<char>, value: DocView) -> DocView {
    match d {
        DocView::Table(f) => DocView::Table(doc::put(f, FieldView { name, value })),
        _ => d,
    }
}

/// A knowledge base document with its designation completed.
pub open spec fn summary_preserved(new: DocView, old: DocView) -> DocView {
    match (doc::field_of(old, "current_summary"@), doc::field_of(new, "current_summary"@)) {
        (Some(o), Some(n)) => with_field(
            new,
            "current_summary"@,
            level_preserved(n, o, SUMMARY_FIELDS@),
        ),
        _ => new,
    }
}

/// A knowledge base document with its entries completed.
pub open spec fn list_preserved(new: DocView, old: DocView) -> DocView {
    match (
        doc::array_of(doc::field_of(old, "entries"@)),
        doc::array_of(doc::field_of(new, "entries"@)),
    ) {
        (Some(o), Some(n)) => with_field(
            new,
            "entries"@,
            DocView::Array(entries_preserved(n, o)),
        ),
        _ => new,
    }
}

/// A knowledge base document with the unknown fields of the one it replaces,
/// at every level: the file, its designation and its entries.
pub open spec fn kb_preserved(new: DocView, old: DocView) -> DocView {
    list_preserved(
        summary_preserved(level_preserved(new, old, KB_FILE_FIELDS@), old),
        old,
    )
}

fn preserve_level(new: Doc, old: &Doc, known: &[&str]) -> (r: Doc)
    ensures
        r@ == level_preserved(new@, old@, known@),
        doc::well_formed(new@) && doc::well_formed(old@) ==> doc::well_formed(r@),
{
    proof {
        doc::lemma_doc_view(new);
        doc::lemma_doc_view(*old);
    }
    match (new, old) {
        (Doc::Table(n), Doc::Table(o)) => {
            let all = overlay(n, o, known);
            proof {
                doc::lemma_doc_view(Doc::Table(all));
                if doc::well_formed(new@) && doc::well_formed(old@) {
                    doc::lemma_merged_well_formed(doc::fields(n@), doc::fields(o@), known@);
                }
            }
            Doc::Table(all)
        },
        (n, _) => n,
    }
}

fn set_field(d: Doc, name: &str, value: Doc) -> (r: Doc)
    ensures
        r@ == with_field(d@, name@, value@),
        doc::well_formed(d@) && doc::well_formed(value@) ==> doc::well_formed(r@),
{
    proof {
        doc::lemma_doc_view(d);
    }
    match d {
        Doc::Table(f) => {
            let field = Field { name: owned(name), value };
            let ghost set = field@;
            let all = put_field(f, field);
            proof {
                doc::lemma_doc_view(Doc::Table(all));
                if doc::well_formed(d@) && doc::well_formed(value@) {
                    doc::lemma_put_well_formed(doc::fields(f@), set);
                }
            }
            Doc::Table(all)
        },
        other => other,
    }
}

fn integer_at(d: &Doc, name: &str) -> (r: Option<i64>)
    ensures
        r == doc::integer_of(doc::field_of(d@, name@)),
{
    match d.get(name) {
        Some(v) => v.as_integer(),
        None => None,
    }
}

fn find_same_id(e: &Doc, olds: &Vec<Doc>) -> (r: Option<usize>)
    ensures
        match r {
            Some(i) => i < olds.len() && first_same_id(e@, doc::docs(olds@)) == Some(
                olds@[i as int]@,
            ),
            None => first_same_id(e@, doc::docs(olds@)) is None,
        },
{
    let ghost all = doc::docs(olds@);
    let id = integer_at(e, "id");
    let mut i: usize = 0;
    assert(all.skip(0) =~= all);
    while i < olds.len()
        invariant
            i <= olds.len(),
            all == doc::docs(olds@),
            id == doc::integer_of(doc::field_of(e@, "id"@)),
            first_same_id(e@, all) == first_same_id(e@, all.skip(i as int)),
        decreases olds.len() - i,
    {
        assert(all.skip(i as int)[0] == olds@[i as int]@);
        let other = integer_at(&olds[i], "id");
        if other.is_some() && other == id {
            return Some(i);
        }
        assert(all.skip(i as int).skip(1) =~= all.skip(i + 1));
        i += 1;
    }
    None
}

fn preserve_entries(new: &Vec<Doc>, olds: &Vec<Doc>) -> (r: Vec<Doc>)
    ensures
        doc::docs(r@) == entries_preserved(doc::docs(new@), doc::docs(olds@)),
        doc::well_formed(DocView::Array(doc::docs(new@))) && doc::well_formed(
            DocView::Array(doc::docs(olds@)),
        ) ==> doc::well_formed(DocView::Array(doc::docs(r@))),
{
    let mut out: Vec<Doc> = Vec::new();
    let ghost news = doc::docs(new@);
    let ghost old_views = doc::docs(olds@);
    let ghost target = entries_preserved(news, old_views);
    let ghost good = doc::well_formed(DocView::Array(news)) && doc::well_formed(
        DocView::Array(old_views),
    );
    proof {
        if good {
            doc::lemma_elements_well_formed(news);
            doc::lemma_elements_well_formed(old_views);
        }
    }
    let mut i: usize = 0;
    while i < new.len()
        invariant
            i <= new.len(),
            news == doc::docs(new@),
            old_views == doc::docs(olds@),
            target == entries_preserved(news, old_views),
            good ==> forall|j: int| 0 <= j < news.len() ==> doc::well_formed(#[trigger] news[j]),
            good ==> forall|j: int|
                0 <= j < old_views.len() ==> doc::well_formed(#[trigger] old_views[j]),
            doc::docs(out@) == target.take(i as int),
            good ==> forall|j: int| 0 <= j < out.len() ==> doc::well_formed(#[trigger] out@[j]@),
        decreases new.len() - i,
    {
        let e = copy(&new[i]);
        assert(news[i as int] == new@[i as int]@);
        assert(good ==> doc::well_formed(news[i as int]));
        let done = match find_same_id(&e, olds) {
            Some(k) => {
                assert(old_views[k as int] == olds@[k as int]@);
                assert(good ==> doc::well_formed(old_views[k as int]));
                preserve_level(e, &olds[k], &diag::KNOWN_KB_ENTRY_FIELDS)
            },
            None => e,
        };
        let ghost before = doc::docs(out@);
        out.push(done);
        assert(doc::docs(out@) =~= before.push(target[i as int]));
        assert(target.take(i + 1) =~= target.take(i as int).push(target[i as int]));
        i += 1;
    }
    assert(target.take(i as int) =~= target);
    proof {
        if good {
            let all = doc::docs(out@);
            assert forall|j: int| 0 <= j < all.len() implies doc::well_formed(
                #[trigger] all[j],
            ) by {
                assert(doc::well_formed(out@[j]@));
            }
        }
    }
    out
}

/// Gives a knowledge base document the unknown fields of the one it replaces,
/// at every level: the file, its designation and its entries.
pub fn preserve_unknown(new: Doc, old: &Doc) -> (r: Doc)
    ensures
        r@ == kb_preserved(new@, old@),
        doc::well_formed(new@) && doc::well_formed(old@) ==> doc::well_formed(r@),
{
    let level = preserve_level(new, old, &KB_FILE_FIELDS);
    let old_summary = old.get("current_summary");
    let new_summary = match level.get("current_summary") {
        Some(n) => Some(copy(n)),
        None => None,
    };
    let summary = match (old_summary, new_summary) {
        (Some(o), Some(n)) => {
            let value = preserve_level(n, o, &SUMMARY_FIELDS);
            set_field(level, "current_summary", value)
        },
        _ => level,
    };
    let old_list = match old.get("entries") {
        Some(v) => v.as_array(),
        None => None,
    };
    let done = match (old_list, summary.get("entries")) {
        (Some(o), Some(v)) => match v.as_array() {
            Some(n) => Some(preserve_entries(n, o)),
            None => None,
        },
        _ => None,
    };
    match done {
        Some(all) => {
            proof {
                doc::lemma_doc_view(Doc::Array(all));
            }
            set_field(summary, "entries", Doc::Array(all))
        },
        None => summary,
    }
}

/// The text of a knowledge base file that is written in place of another.
pub open spec fn kb_text(new: Seq<char>, old: Seq<char>) -> Result<Seq<char>, Seq<char>> {
    match (doc::toml_reads(new), doc::toml_reads(old)) {
        (Ok(n), Ok(o)) => doc::toml_writes(kb_preserved(n, o)),
        (Err(e), _) => Err(e),
        (_, Err(e)) => Err(e),
    }
}

/// Whether a document is one of a knowledge base: a table with a list of entries
/// and, perhaps, a designation.
pub open spec fn is_kb(d: DocView) -> bool {
    &&& d is Table
    &&& doc::array_of(doc::field_of(d, "entries"@)) matches Some(n) && forall|i: int|
        0 <= i < n.len() ==> #[trigger] n[i] is Table
    &&& doc::field_of(d, "current_summary"@) matches Some(c) ==> c is Table
}

/// Whether two tables have the same known fields.
pub open spec fn same_known(a: DocView, b: DocView, known: Seq<&str>) -> bool {
    forall|name: Seq<char>|
        text::listed(name, known) ==> #[trigger] doc::field_of(a, name) == doc::field_of(b, name)
}

/// Whether two documents hold the same entries, in order, and the same
/// designation, as far as the known fields.
pub open spec fn same_entries(a: DocView, b: DocView) -> bool {
    &&& match (
        doc::array_of(doc::field_of(a, "entries"@)),
        doc::array_of(doc::field_of(b, "entries"@)),
    ) {
        (Some(x), Some(y)) => x.len() == y.len() && forall|i: int|
            0 <= i < x.len() ==> same_known(#[trigger] x[i], y[i], diag::KNOWN_KB_ENTRY_FIELDS@),
        _ => false,
    }
    &&& match (doc::field_of(a, "current_summary"@), doc::field_of(b, "current_summary"@)) {
        (Some(x), Some(y)) => same_known(x, y, SUMMARY_FIELDS@),
        (None, None) => true,
        _ => false,
    }
}

/// The text of a knowledge base file that is written in place of another,
/// preserving extensions of the old one at every level. Two documents that read
/// back give a text that is read as the one completed by the other, with the
/// entries and the designation of the new one.
pub fn save_text(new: &str, old: &str) -> (r: Result<String, Error>)
    ensures
        match r {
            Ok(s) => kb_text(new@, old@) == Ok::<Seq<char>, Seq<char>>(s@),
            Err(e) => kb_text(new@, old@) == Err::<Seq<char>, Seq<char>>(e@),
        },
        match (doc::toml_reads(new@), doc::toml_reads(old@)) {
            (Ok(n), Ok(o)) => doc::reads_back(n) && doc::reads_back(o) ==> r is Ok
                && doc::toml_reads(r->Ok_0@) == Ok::<DocView, Seq<char>>(kb_preserved(n, o)),
            _ => true,
        },
        match (doc::toml_reads(new@), doc::toml_reads(old@)) {
            (Ok(n), Ok(o)) => doc::reads_back(n) && doc::reads_back(o) && is_kb(n) ==> r is Ok && (
            doc::toml_reads(r->Ok_0@) matches Ok(d) && same_entries(d, n)),
            _ => true,
        },
{
    let n = match read_doc(new) {
        Ok(d) => d,
        Err(e) => {
            return Err(Error::new(e));
        },
    };
    let o = match read_doc(old) {
        Ok(d) => d,
        Err(e) => {
            return Err(Error::new(e));
        },
    };
    proof {
        if doc::reads_back(n@) && doc::reads_back(o@) {
            doc::lemma_read_is_sound(new@, n@);
            doc::lemma_read_is_sound(old@, o@);
            lemma_kb_is_sound(n@, o@);
            if is_kb(n@) {
                law_saving_keeps_what_it_replaces(n@, o@);
            }
        }
    }
    match write_doc(preserve_unknown(n, &o)) {
        Ok(s) => Ok(s),
        Err(e) => Err(Error::new(e)),
    }
}

proof fn lemma_level_plain(new: DocView, old: DocView, known: Seq<&str>, depth: nat)
    requires
        doc::plain(new, depth),
        doc::plain(old, depth),
    ensures
        doc::plain(level_preserved(new, old, known), depth),
{
    if let (DocView::Table(n), DocView::Table(o)) = (new, old) {
        doc::lemma_merged_plain(n, o, known, depth);
    }
}

proof fn lemma_with_field_plain(d: DocView, name: Seq<char>, value: DocView, depth: nat)
    requires
        doc::plain(d, depth),
        name != doc::DATE_MARK@,
        doc::plain(value, (depth - 1) as nat),
    ensures
        doc::plain(with_field(d, name, value), depth),
{
    if let DocView::Table(f) = d {
        doc::lemma_put_plain(f, FieldView { name, value }, depth);
    }
}

proof fn lemma_entries_plain(new: Seq<DocView>, olds: Seq<DocView>, depth: nat)
    requires
        doc::plain(DocView::Array(new), depth),
        doc::plain(DocView::Array(olds), depth),
    ensures
        doc::plain(DocView::Array(entries_preserved(new, olds)), depth),
{
    let all = entries_preserved(new, olds);
    let inner = (depth - 1) as nat;
    doc::lemma_elements_plain(new, depth);
    doc::lemma_elements_plain(olds, depth);
    assert forall|i: int| 0 <= i < all.len() implies doc::plain(#[trigger] all[i], inner) by {
        assert(doc::plain(new[i], inner));
        if first_same_id(new[i], olds) is Some {
            lemma_first_same_id_is_old(new[i], olds);
            let k = choose|k: int|
                0 <= k < olds.len() && #[trigger] olds[k] == first_same_id(new[i], olds)->0;
            assert(doc::plain(olds[k], inner));
            lemma_level_plain(new[i], olds[k], diag::KNOWN_KB_ENTRY_FIELDS@, inner);
        }
    }
}

/// A completed knowledge base document is sound where the two it is made of are.
proof fn lemma_kb_is_sound(new: DocView, old: DocView)
    requires
        doc::sound(new),
        doc::sound(old),
    ensures
        doc::sound(kb_preserved(new, old)),
{
    let depth = doc::NESTING as nat;
    let inner = (depth - 1) as nat;
    let level = level_preserved(new, old, KB_FILE_FIELDS@);
    lemma_level_plain(new, old, KB_FILE_FIELDS@, depth);
    assert("current_summary"@ != doc::DATE_MARK@ && "entries"@ != doc::DATE_MARK@) by {
        reveal_strlit("current_summary");
        reveal_strlit("entries");
        reveal_strlit("$__toml_private_datetime");
        assert("current_summary"@[0] != "$__toml_private_datetime"@[0]);
        assert("entries"@[0] != "$__toml_private_datetime"@[0]);
    }
    if let (Some(o), Some(n)) = (
        doc::field_of(old, "current_summary"@),
        doc::field_of(level, "current_summary"@),
    ) {
        doc::lemma_lookup_plain(old->Table_0, "current_summary"@, depth);
        doc::lemma_lookup_plain(level->Table_0, "current_summary"@, depth);
        lemma_level_plain(n, o, SUMMARY_FIELDS@, inner);
        lemma_with_field_plain(
            level,
            "current_summary"@,
            level_preserved(n, o, SUMMARY_FIELDS@),
            depth,
        );
    }
    let summary = summary_preserved(level, old);
    if let (Some(o), Some(n)) = (
        doc::array_of(doc::field_of(old, "entries"@)),
        doc::array_of(doc::field_of(summary, "entries"@)),
    ) {
        doc::lemma_lookup_plain(old->Table_0, "entries"@, depth);
        doc::lemma_lookup_plain(summary->Table_0, "entries"@, depth);
        lemma_entries_plain(n, o, inner);
        lemma_with_field_plain(
            summary,
            "entries"@,
            DocView::Array(entries_preserved(n, o)),
            depth,
        );
    }
}

proof fn lemma_level_keeps(new: DocView, old: DocView, known: Seq<&str>, name: Seq<char>)
    requires
        new is Table,
        doc::well_formed(old),
    ensures
        level_preserved(new, old, known) is Table,
        doc::field_of(level_preserved(new, old, known), name) == (if text::listed(name, known)
            || doc::field_of(old, name) is None {
            doc::field_of(new, name)
        } else {
            doc::field_of(old, name)
        }),
{
    if let (DocView::Table(n), DocView::Table(o)) = (new, old) {
        doc::law_overlaid(n, o, known, name);
    }
}

proof fn lemma_with_field(d: DocView, set: Seq<char>, value: DocView, name: Seq<char>)
    requires
        d is Table,
    ensures
        with_field(d, set, value) is Table,
        doc::field_of(with_field(d, set, value), name) == (if name == set {
            Some(value)
        } else {
            doc::field_of(d, name)
        }),
{
    doc::law_put(d->Table_0, FieldView { name: set, value }, name);
}

proof fn lemma_file_fields()
    ensures
        text::listed("entries"@, KB_FILE_FIELDS@),
        text::listed("current_summary"@, KB_FILE_FIELDS@),
        "entries"@ != "current_summary"@,
{
    assert(KB_FILE_FIELDS@[0]@ == "entries"@);
    assert(KB_FILE_FIELDS@[1]@ == "current_summary"@);
    reveal_strlit("entries");
    reveal_strlit("current_summary");
    assert("entries"@.len() == 7 && "current_summary"@.len() == 15);
}

/// Rewriting a knowledge base file keeps every unknown field of the file, and
/// leaves the known ones to the new document.
pub proof fn law_file_extensions_survive(new: DocView, old: DocView, name: Seq<char>)
    requires
        new is Table,
        doc::well_formed(old),
        name != "entries"@,
        name != "current_summary"@,
    ensures
        doc::field_of(kb_preserved(new, old), name) == (if text::listed(name, KB_FILE_FIELDS@)
            || doc::field_of(old, name) is None {
            doc::field_of(new, name)
        } else {
            doc::field_of(old, name)
        }),
{
    let level = level_preserved(new, old, KB_FILE_FIELDS@);
    lemma_level_keeps(new, old, KB_FILE_FIELDS@, name);
    let summary = summary_preserved(level, old);
    if let (Some(o), Some(n)) = (
        doc::field_of(old, "current_summary"@),
        doc::field_of(level, "current_summary"@),
    ) {
        lemma_with_field(
            level,
            "current_summary"@,
            level_preserved(n, o, SUMMARY_FIELDS@),
            name,
        );
    }
    if let (Some(o), Some(n)) = (
        doc::array_of(doc::field_of(old, "entries"@)),
        doc::array_of(doc::field_of(summary, "entries"@)),
    ) {
        lemma_with_field(summary, "entries"@, DocView::Array(entries_preserved(n, o)), name);
    }
}

/// Rewriting a knowledge base file keeps every unknown field of its entries:
/// each entry of the new document has the unknown fields of the old entry with
/// its id, and its own known fields.
pub proof fn law_entry_extensions_survive(
    new: DocView,
    old: DocView,
    i: int,
    name: Seq<char>,
)
    requires
        new is Table,
        doc::well_formed(old),
        doc::array_of(doc::field_of(new, "entries"@)) is Some,
        doc::array_of(doc::field_of(old, "entries"@)) is Some,
        0 <= i < doc::array_of(doc::field_of(new, "entries"@))->0.len(),
        doc::array_of(doc::field_of(new, "entries"@))->0[i] is Table,
    ensures
        ({
            let e = doc::array_of(doc::field_of(new, "entries"@))->0[i];
            let olds = doc::array_of(doc::field_of(old, "entries"@))->0;
            let all = doc::array_of(doc::field_of(kb_preserved(new, old), "entries"@));
            &&& all is Some
            &&& i < all->0.len()
            &&& doc::field_of(all->0[i], name) == (match first_same_id(e, olds) {
                Some(o) => if text::listed(name, diag::KNOWN_KB_ENTRY_FIELDS@) || doc::field_of(
                    o,
                    name,
                ) is None {
                    doc::field_of(e, name)
                } else {
                    doc::field_of(o, name)
                },
                None => doc::field_of(e, name),
            })
        }),
{
    lemma_file_fields();
    let level = level_preserved(new, old, KB_FILE_FIELDS@);
    lemma_level_keeps(new, old, KB_FILE_FIELDS@, "entries"@);
    let summary = summary_preserved(level, old);
    if let (Some(o), Some(n)) = (
        doc::field_of(old, "current_summary"@),
        doc::field_of(level, "current_summary"@),
    ) {
        lemma_with_field(
            level,
            "current_summary"@,
            level_preserved(n, o, SUMMARY_FIELDS@),
            "entries"@,
        );
    }
    let olds = doc::array_of(doc::field_of(old, "entries"@))->0;
    let news = doc::array_of(doc::field_of(new, "entries"@))->0;
    assert(doc::field_of(summary, "entries"@) == doc::field_of(new, "entries"@));
    lemma_with_field(
        summary,
        "entries"@,
        DocView::Array(entries_preserved(news, olds)),
        "entries"@,
    );
    let e = news[i];
    if let Some(o) = first_same_id(e, olds) {
        lemma_first_same_id_is_old(e, olds);
        let f = old->Table_0;
        lemma_lookup_member(f, "entries"@);
        let at = choose|at: int|
            0 <= at < f.len() && (#[trigger] f[at]).value == doc::lookup(f, "entries"@)->0;
        assert(doc::well_formed(f[at].value));
        assert(f[at].value == DocView::Array(olds));
        let k = choose|k: int| 0 <= k < olds.len() && olds[k] == o;
        assert(doc::well_formed(olds[k]));
        lemma_level_keeps(e, o, diag::KNOWN_KB_ENTRY_FIELDS@, name);
    }
}

/// Whether a table has every field of `old` that is not known.
pub open spec fn keeps_unknown(a: DocView, old: DocView, known: Seq<&str>) -> bool {
    forall|name: Seq<char>|
        !text::listed(name, known) && doc::field_of(old, name) is Some ==> #[trigger] doc::field_of(
            a,
            name,
        ) == doc::field_of(old, name)
}

/// Saving a knowledge base file writes the entries and the designation of the new
/// document, in order and with the known fields they have there, and loses no
/// unknown field: of the file, of the designation, or of an entry whose id is
/// kept.
pub proof fn law_saving_keeps_what_it_replaces(new: DocView, old: DocView)
    requires
        is_kb(new),
        doc::well_formed(old),
    ensures
        ({
            let saved = kb_preserved(new, old);
            let news = doc::array_of(doc::field_of(new, "entries"@))->0;
            let all = doc::array_of(doc::field_of(saved, "entries"@))->0;
            let summary = doc::field_of(saved, "current_summary"@);
            &&& same_entries(saved, new)
            &&& doc::array_of(doc::field_of(old, "entries"@)) matches Some(olds) ==> forall|i: int|
                0 <= i < news.len() ==> (first_same_id(news[i], olds) matches Some(o)
                    ==> keeps_unknown(#[trigger] all[i], o, diag::KNOWN_KB_ENTRY_FIELDS@))
            &&& doc::field_of(new, "current_summary"@) is Some ==> (doc::field_of(
                old,
                "current_summary"@,
            ) matches Some(o) ==> keeps_unknown(summary->0, o, SUMMARY_FIELDS@))
            &&& keeps_unknown(saved, old, KB_FILE_FIELDS@)
        }),
{
    lemma_file_fields();
    let saved = kb_preserved(new, old);
    let level = level_preserved(new, old, KB_FILE_FIELDS@);
    lemma_level_keeps(new, old, KB_FILE_FIELDS@, "entries"@);
    lemma_level_keeps(new, old, KB_FILE_FIELDS@, "current_summary"@);
    let middle = summary_preserved(level, old);
    let news = doc::array_of(doc::field_of(new, "entries"@))->0;
    if let (Some(o), Some(n)) = (
        doc::field_of(old, "current_summary"@),
        doc::field_of(level, "current_summary"@),
    ) {
        let done = level_preserved(n, o, SUMMARY_FIELDS@);
        lemma_with_field(level, "current_summary"@, done, "entries"@);
        lemma_with_field(level, "current_summary"@, done, "current_summary"@);
        let f = old->Table_0;
        lemma_lookup_member(f, "current_summary"@);
        let at = choose|at: int|
            0 <= at < f.len() && (#[trigger] f[at]).value == doc::lookup(
                f,
                "current_summary"@,
            )->0;
        assert(doc::well_formed(f[at].value));
        assert forall|name: Seq<char>| #[trigger] doc::field_of(done, name) == (if text::listed(
            name,
            SUMMARY_FIELDS@,
        ) || doc::field_of(o, name) is None {
            doc::field_of(n, name)
        } else {
            doc::field_of(o, name)
        }) by {
            lemma_level_keeps(n, o, SUMMARY_FIELDS@, name);
        }
    }
    assert(doc::field_of(middle, "entries"@) == doc::field_of(new, "entries"@));
    if let Some(olds) = doc::array_of(doc::field_of(old, "entries"@)) {
        let done = entries_preserved(news, olds);
        lemma_with_field(middle, "entries"@, DocView::Array(done), "entries"@);
        lemma_with_field(middle, "entries"@, DocView::Array(done), "current_summary"@);
        assert forall|i: int, name: Seq<char>| 0 <= i < news.len() implies #[trigger] doc::field_of(
            done[i],
            name,
        ) == (match first_same_id(news[i], olds) {
            Some(o) => if text::listed(name, diag::KNOWN_KB_ENTRY_FIELDS@) || doc::field_of(
                o,
                name,
            ) is None {
                doc::field_of(news[i], name)
            } else {
                doc::field_of(o, name)
            },
            None => doc::field_of(news[i], name),
        }) by {
            law_entry_extensions_survive(new, old, i, name);
        }
    }
    assert forall|name: Seq<char>|
        !text::listed(name, KB_FILE_FIELDS@) && doc::field_of(
            old,
            name,
        ) is Some implies #[trigger] doc::field_of(saved, name) == doc::field_of(old, name) by {
        assert(name != "entries"@ && name != "current_summary"@);
        law_file_extensions_survive(new, old, name);
    }
}

/// Whether what is read of a table depends on its known fields alone.
pub open spec fn reads_known<R>(read: spec_fn(DocView) -> R, known: Seq<&str>) -> bool {
    forall|a: DocView, b: DocView| #[trigger]
        same_known(a, b, known) ==> read(a) == read(b)
}

/// Saved entries are loaded as they were, in order, and so is the designation,
/// whatever a reader makes of the known fields.
pub proof fn law_saved_entries_are_loaded<E, C>(
    new: DocView,
    old: DocView,
    entry: spec_fn(DocView) -> E,
    designation: spec_fn(DocView) -> C,
)
    requires
        is_kb(new),
        doc::well_formed(old),
        reads_known(entry, diag::KNOWN_KB_ENTRY_FIELDS@),
        reads_known(designation, SUMMARY_FIELDS@),
    ensures
        ({
            let saved = kb_preserved(new, old);
            let all = doc::array_of(doc::field_of(saved, "entries"@));
            let news = doc::array_of(doc::field_of(new, "entries"@));
            let summary = doc::field_of(saved, "current_summary"@);
            &&& all is Some
            &&& all->0.map_values(entry) == news->0.map_values(entry)
            &&& match doc::field_of(new, "current_summary"@) {
                Some(c) => summary is Some && designation(summary->0) == designation(c),
                None => summary is None,
            }
        }),
{
    law_saving_keeps_what_it_replaces(new, old);
    let saved = kb_preserved(new, old);
    let all = doc::array_of(doc::field_of(saved, "entries"@))->0;
    let news = doc::array_of(doc::field_of(new, "entries"@))->0;
    assert forall|i: int| 0 <= i < all.len() implies entry(#[trigger] all[i]) == entry(news[i]) by {
        assert(same_known(all[i], news[i], diag::KNOWN_KB_ENTRY_FIELDS@));
    }
    assert(all.map_values(entry) =~= news.map_values(entry));
}

proof fn lemma_first_same_id_is_old(e: DocView, olds: Seq<DocView>)
    requires
        first_same_id(e, olds) is Some,
    ensures
        exists|k: int| 0 <= k < olds.len() && #[trigger] olds[k] == first_same_id(e, olds)->0,
    decreases olds.len(),
{
    if same_id(olds[0], e) {
        assert(olds[0] == first_same_id(e, olds)->0);
    } else {
        lemma_first_same_id_is_old(e, olds.skip(1));
        let k = choose|k: int|
            0 <= k < olds.skip(1).len() && #[trigger] olds.skip(1)[k] == first_same_id(
                e,
                olds.skip(1),
            )->0;
        assert(olds[k + 1] == first_same_id(e, olds)->0);
    }
}

proof fn lemma_lookup_member(f: Seq<FieldView>, name: Seq<char>)
    requires
        doc::lookup(f, name) is Some,
    ensures
        exists|k: int| 0 <= k < f.len() && (#[trigger] f[k]).value == doc::lookup(f, name)->0,
    decreases f.len(),
{
    if f[0].name == name {
        assert(f[0].value == doc::lookup(f, name)->0);
    } else {
        lemma_lookup_member(f.skip(1), name);
        let k = choose|k: int|
            0 <= k < f.skip(1).len() && (#[trigger] f.skip(1)[k]).value == doc::lookup(
                f.skip(1),
                name,
            )->0;
        assert(f[k + 1].value == doc::lookup(f, name)->0);
    }
}

/// Facts about a summary's freshness. Presents evidence, never an assertion
/// that the prose is wrong.
#[derive(Debug)]
pub struct Freshness {
    /// Timestamp the summary was designated (or last updated, for fallback).
    pub reference_time: Option<String>,
    /// Task ids whose `updated_at` postdates the reference time.
    pub tasks_updated_after: Vec<i64>,
    /// KB entries ("kind#id") whose `updated_at` postdates the reference time.
    pub kb_updated_after: Vec<String>,
    /// Local git HEAD, when available.
    pub head_commit: Option<String>,
    /// Whether the recorded commit matches local HEAD (none when not
    /// comparable: no commit recorded, no repo, or commit unavailable).
    pub commit_matches_head: Option<bool>,
    /// True when any freshness fact suggests reviewing the summary.
    pub possibly_stale: bool,
    /// Human-readable facts (never "the prose is wrong" claims).
    pub facts: Vec<String>,
}

/// What a [`Freshness`] holds.
#[verifier::ext_equal]
pub struct FreshnessView {
    pub reference_time: Option<Seq<char>>,
    pub tasks_updated_after: Seq<i64>,
    pub kb_updated_after: Seq<Seq<char>>,
    pub head_commit: Option<Seq<char>>,
    pub commit_matches_head: Option<bool>,
    pub possibly_stale: bool,
    pub facts: Seq<Seq<char>>,
}

impl View for Freshness {
    type V = FreshnessView;

    open spec fn view(&self) -> FreshnessView {
        FreshnessView {
            reference_time: text::opt_text(self.reference_time),
            tasks_updated_after: self.tasks_updated_after@,
            kb_updated_after: text::texts(self.kb_updated_after@),
            head_commit: text::opt_text(self.head_commit),
            commit_matches_head: self.commit_matches_head,
            possibly_stale: self.possibly_stale,
            facts: text::texts(self.facts@),
        }
    }
}

/// The local git HEAD commit that `git rev-parse HEAD` reported (none when
/// absent or unavailable).
pub fn head_commit(success: bool, out: &str) -> (r: Option<String>)
    ensures
        text::opt_text(r) == project::printed(success, out@),
{
    detect_git_repo(success, out)
}

/// An entry and the kind of the file it stands in.
#[derive(Debug)]
pub struct PlacedEntry {
    pub kind: KnowledgeKind,
    pub entry: KnowledgeEntry,
}

/// What a [`PlacedEntry`] holds.
#[verifier::ext_equal]
pub struct PlacedEntryView {
    pub kind: KnowledgeKind,
    pub entry: KnowledgeEntryView,
}

impl View for PlacedEntry {
    type V = PlacedEntryView;

    open spec fn view(&self) -> PlacedEntryView {
        PlacedEntryView { kind: self.kind, entry: self.entry@ }
    }
}

/// What a list of placed entries holds.
pub open spec fn placed(v: Seq<PlacedEntry>) -> Seq<PlacedEntryView> {
    v.map_values(|p: PlacedEntry| p@)
}

/// Whether an optional instant lies after the reference.
pub open spec fn later(t: Option<Instant>, reference: Instant) -> bool {
    match t {
        Some(i) => clock::earlier(reference, i),
        None => false,
    }
}

fn is_later(t: &Option<Instant>, reference: &Instant) -> (r: bool)
    ensures
        r == later(*t, *reference),
{
    match t {
        Some(i) => is_earlier(reference, i),
        None => false,
    }
}

/// The ids of the tasks whose last change, read as `times`, lies after the
/// reference, in order.
pub open spec fn tasks_after(
    tasks: Seq<TaskView>,
    times: Seq<Option<Instant>>,
    reference: Instant,
) -> Seq<i64>
    decreases tasks.len(),
{
    if tasks.len() == 0 || times.len() != tasks.len() {
        Seq::empty()
    } else {
        let front = tasks_after(tasks.drop_last(), times.drop_last(), reference);
        if later(times.last(), reference) {
            front.push(tasks.last().id)
        } else {
            front
        }
    }
}

/// How an entry is named.
pub open spec fn entry_label(p: PlacedEntryView) -> Seq<char> {
    model::kind_name(p.kind) + "#"@ + text::decimal(p.entry.id as int)
}

/// The names of the entries, other than the summary itself, whose last change,
/// read as `times`, lies after the reference, in order.
pub open spec fn entries_after(
    kb: Seq<PlacedEntryView>,
    times: Seq<Option<Instant>>,
    reference: Instant,
    summary: i64,
) -> Seq<Seq<char>>
    decreases kb.len(),
{
    if kb.len() == 0 || times.len() != kb.len() {
        Seq::empty()
    } else {
        let front = entries_after(kb.drop_last(), times.drop_last(), reference, summary);
        let p = kb.last();
        if !(p.kind == KnowledgeKind::Status && p.entry.id == summary) && later(
            times.last(),
            reference,
        ) {
            front.push(entry_label(p))
        } else {
            front
        }
    }
}

/// The timestamp that a status is measured against: its designation, or its
/// entry's last change.
pub open spec fn reference_of(s: CurrentStatusView) -> Seq<char> {
    match s.designation {
        Some(cs) => cs.set_at,
        None => s.entry.updated_at,
    }
}

/// The commit that a status records: that of its designation, or its entry's.
pub open spec fn recorded_commit(s: CurrentStatusView) -> Option<Seq<char>> {
    match s.designation {
        Some(cs) => if cs.commit is Some {
            cs.commit
        } else {
            s.entry.commit
        },
        None => s.entry.commit,
    }
}

/// Whether one of two commit references abbreviates the other.
pub open spec fn commits_match(recorded: Seq<char>, head: Seq<char>) -> bool {
    text::begins(head, recorded) || text::begins(recorded, head)
}

/// Whether a recorded commit matches HEAD, where both are known.
pub open spec fn commit_match(recorded: Option<Seq<char>>, head: Option<Seq<char>>) -> Option<
    bool,
> {
    match (recorded, head) {
        (Some(r), Some(h)) => Some(commits_match(r, h)),
        _ => None,
    }
}

/// The facts about a summary's freshness.
pub open spec fn facts(
    tasks: Seq<i64>,
    kb: Seq<Seq<char>>,
    recorded: Option<Seq<char>>,
    head: Option<Seq<char>>,
) -> Seq<Seq<char>> {
    let none = Seq::<Seq<char>>::empty();
    let a1 = if tasks.len() > 0 {
        none.push(
            text::decimal(tasks.len() as int) + " task(s) updated after this summary: "@
                + text::joined(diag::hashed(tasks), ", "@),
        )
    } else {
        none
    };
    let a2 = if kb.len() > 0 {
        a1.push(
            text::decimal(kb.len() as int) + " KB entry/entries updated after this summary: "@
                + text::joined(kb, ", "@),
        )
    } else {
        a1
    };
    let a3 = if commit_match(recorded, head) == Some(false) {
        a2.push(
            "summary records commit "@ + recorded->0 + " but local HEAD is "@ + head->0,
        )
    } else {
        a2
    };
    if head is None && recorded is Some {
        a3.push("summary records a commit but no local git repo/HEAD is available"@)
    } else {
        a3
    }
}

/// The freshness of a status, given when everything changed and what HEAD is.
pub open spec fn freshness(
    s: CurrentStatusView,
    reference: Option<Instant>,
    tasks: Seq<TaskView>,
    task_times: Seq<Option<Instant>>,
    kb: Seq<PlacedEntryView>,
    kb_times: Seq<Option<Instant>>,
    head: Option<Seq<char>>,
) -> FreshnessView {
    let later_tasks = match reference {
        Some(r) => tasks_after(tasks, task_times, r),
        None => Seq::empty(),
    };
    let later_kb = match reference {
        Some(r) => entries_after(kb, kb_times, r, s.entry.id),
        None => Seq::empty(),
    };
    let recorded = recorded_commit(s);
    let matches_head = commit_match(recorded, head);
    FreshnessView {
        reference_time: Some(reference_of(s)),
        tasks_updated_after: later_tasks,
        kb_updated_after: later_kb,
        head_commit: head,
        commit_matches_head: matches_head,
        possibly_stale: later_tasks.len() > 0 || later_kb.len() > 0 || matches_head == Some(false),
        facts: facts(later_tasks, later_kb, recorded, head),
    }
}

fn tasks_later(tasks: &Vec<Task>, times: &Vec<Option<Instant>>, reference: &Instant) -> (r: Vec<
    i64,
>)
    requires
        times.len() == tasks.len(),
    ensures
        r@ == tasks_after(model::tasks(tasks@), times@, *reference),
{
    let mut out: Vec<i64> = Vec::new();
    let ghost all = model::tasks(tasks@);
    let mut i: usize = 0;
    while i < tasks.len()
        invariant
            i <= tasks.len(),
            times.len() == tasks.len(),
            all == model::tasks(tasks@),
            out@ == tasks_after(all.take(i as int), times@.take(i as int), *reference),
        decreases tasks.len() - i,
    {
        assert(all.take(i + 1).drop_last() =~= all.take(i as int));
        assert(times@.take(i + 1).drop_last() =~= times@.take(i as int));
        assert(all.take(i + 1).last() == tasks@[i as int]@);
        if is_later(&times[i], reference) {
            out.push(tasks[i].id);
        }
        i += 1;
    }
    assert(all.take(i as int) =~= all);
    assert(times@.take(i as int) =~= times@);
    out
}

fn entries_later(
    kb: &Vec<PlacedEntry>,
    times: &Vec<Option<Instant>>,
    reference: &Instant,
    summary: i64,
) -> (r: Vec<String>)
    requires
        times.len() == kb.len(),
    ensures
        text::texts(r@) == entries_after(placed(kb@), times@, *reference, summary),
{
    let mut out: Vec<String> = Vec::new();
    let ghost all = placed(kb@);
    let mut i: usize = 0;
    assert(text::texts(out@) =~= Seq::empty());
    while i < kb.len()
        invariant
            i <= kb.len(),
            times.len() == kb.len(),
            all == placed(kb@),
            text::texts(out@) == entries_after(
                all.take(i as int),
                times@.take(i as int),
                *reference,
                summary,
            ),
        decreases kb.len() - i,
    {
        assert(all.take(i + 1).drop_last() =~= all.take(i as int));
        assert(times@.take(i + 1).drop_last() =~= times@.take(i as int));
        assert(all.take(i + 1).last() == kb@[i as int]@);
        let p = &kb[i];
        let ghost before = out@;
        if !(p.kind == KnowledgeKind::Status && p.entry.id == summary) && is_later(
            &times[i],
            reference,
        ) {
            let n = int_text(p.entry.id);
            out.push(cat3(p.kind.as_str(), "#", n.as_str()));
            assert(text::texts(out@) =~= text::texts(before).push(entry_label(p@)));
        }
        i += 1;
    }
    assert(all.take(i as int) =~= all);
    assert(times@.take(i as int) =~= times@);
    out
}

fn add_text(list: &mut Vec<String>, s: String)
    ensures
        text::texts(final(list)@) == text::texts(old(list)@).push(s@),
{
    let ghost before = list@;
    list.push(s);
    assert(text::texts(list@) =~= text::texts(before).push(s@));
}

/// Gathers freshness facts for a status, given when everything changed and what
/// HEAD is.
pub fn summary_freshness_at(
    status: &CurrentStatus,
    reference: Option<Instant>,
    tasks: &Vec<Task>,
    task_times: &Vec<Option<Instant>>,
    kb: &Vec<PlacedEntry>,
    kb_times: &Vec<Option<Instant>>,
    head: Option<String>,
) -> (r: Freshness)
    requires
        task_times.len() == tasks.len(),
        kb_times.len() == kb.len(),
    ensures
        r@ == freshness(
            status@,
            reference,
            model::tasks(tasks@),
            task_times@,
            placed(kb@),
            kb_times@,
            text::opt_text(head),
        ),
{
    let reference_text = match &status.designation {
        Some(cs) => cs.set_at.clone(),
        None => status.entry.updated_at.clone(),
    };
    let later_tasks: Vec<i64> = match &reference {
        Some(rt) => tasks_later(tasks, task_times, rt),
        None => Vec::new(),
    };
    let later_kb: Vec<String> = match &reference {
        Some(rt) => entries_later(kb, kb_times, rt, status.entry.id),
        None => Vec::new(),
    };
    assert(reference is None ==> text::texts(later_kb@) =~= Seq::empty());
    let mut facts_found: Vec<String> = Vec::new();
    assert(text::texts(facts_found@) =~= Seq::empty());
    if later_tasks.len() > 0 {
        let n = natural_text(later_tasks.len() as u128);
        let hashes = hash_ids(&later_tasks);
        let list = join(&hashes, ", ");
        add_text(
            &mut facts_found,
            cat3(n.as_str(), " task(s) updated after this summary: ", list.as_str()),
        );
    }
    if later_kb.len() > 0 {
        let n = natural_text(later_kb.len() as u128);
        let list = join(&later_kb, ", ");
        add_text(
            &mut facts_found,
            cat3(n.as_str(), " KB entry/entries updated after this summary: ", list.as_str()),
        );
    }
    let recorded = match &status.designation {
        Some(cs) => if cs.commit.is_some() {
            opt_clone(&cs.commit)
        } else {
            opt_clone(&status.entry.commit)
        },
        None => opt_clone(&status.entry.commit),
    };
    assert(text::opt_text(recorded) == recorded_commit(status@));
    let mut commit_matches_head: Option<bool> = None;
    if let (Some(rec), Some(h)) = (&recorded, &head) {
        let matches = starts_with(h.as_str(), rec.as_str()) || starts_with(
            rec.as_str(),
            h.as_str(),
        );
        if !matches {
            let a = cat3("summary records commit ", rec.as_str(), " but local HEAD is ");
            add_text(&mut facts_found, cat(a.as_str(), h.as_str()));
        }
        commit_matches_head = Some(matches);
    }
    if head.is_none() && recorded.is_some() {
        add_text(
            &mut facts_found,
            owned("summary records a commit but no local git repo/HEAD is available"),
        );
    }
    let mismatch = match commit_matches_head {
        Some(m) => !m,
        None => false,
    };
    let possibly_stale = later_tasks.len() > 0 || later_kb.len() > 0 || mismatch;
    Freshness {
        reference_time: Some(reference_text),
        tasks_updated_after: later_tasks,
        kb_updated_after: later_kb,
        head_commit: head,
        commit_matches_head,
        possibly_stale,
        facts: facts_found,
    }
}

/// Whether `t` is how a persisted timestamp reads on a machine: that of its
/// offset, where it has one; nothing, where it is no timestamp; and where it
/// is naive, whatever the machine's time zone makes of it, less than a day away.
pub open spec fn reads_as(ts: Seq<char>, t: Option<Instant>) -> bool {
    match clock::rfc3339(ts) {
        Some(i) => t == Some(i),
        None => match clock::naive_time(ts, diag::NAIVE_FORMAT@) {
            Some(n) => t matches Some(i) ==> clock::may_show(n, i),
            None => t is None,
        },
    }
}

/// The instant of a persisted timestamp; legacy naive timestamps are taken to
/// be local time.
fn to_local(ts: &str) -> (r: Option<Instant>)
    ensures
        reads_as(ts@, r),
{
    if let Some(i) = read_rfc3339(ts) {
        return Some(i);
    }
    match read_naive(ts, diag::NAIVE_FORMAT) {
        Some(n) => local_instant(n),
        None => None,
    }
}

/// Whether `times` are how the last changes of tasks read on a machine.
pub open spec fn task_times_read(tasks: Seq<TaskView>, times: Seq<Option<Instant>>) -> bool {
    times.len() == tasks.len() && forall|i: int|
        0 <= i < tasks.len() ==> reads_as((#[trigger] tasks[i]).updated_at, times[i])
}

/// Whether `times` are how the last changes of entries read on a machine.
pub open spec fn entry_times_read(kb: Seq<PlacedEntryView>, times: Seq<Option<Instant>>) -> bool {
    times.len() == kb.len() && forall|i: int|
        0 <= i < kb.len() ==> reads_as((#[trigger] kb[i]).entry.updated_at, times[i])
}

/// Whether `f` is the freshness of a status for some reading of all the
/// timestamps.
pub open spec fn fresh_for_some_reading(
    s: CurrentStatusView,
    tasks: Seq<TaskView>,
    kb: Seq<PlacedEntryView>,
    head: Option<Seq<char>>,
    f: FreshnessView,
) -> bool {
    exists|
        reference: Option<Instant>,
        task_times: Seq<Option<Instant>>,
        kb_times: Seq<Option<Instant>>,
    |
        reads_as(reference_of(s), reference) && task_times_read(tasks, task_times)
            && entry_times_read(kb, kb_times) && f == #[trigger] freshness(
            s,
            reference,
            tasks,
            task_times,
            kb,
            kb_times,
            head,
        )
}

/// Gathers freshness facts for a current status: tasks and entries changed
/// after it, and whether it describes HEAD. What a naive timestamp denotes
/// depends on the time zone of the machine.
pub fn summary_freshness(
    status: &CurrentStatus,
    tasks: &Vec<Task>,
    kb: &Vec<PlacedEntry>,
    head: Option<String>,
) -> (r: Freshness)
    ensures
        fresh_for_some_reading(
            status@,
            model::tasks(tasks@),
            placed(kb@),
            text::opt_text(head),
            r@,
        ),
{
    let reference = match &status.designation {
        Some(cs) => to_local(cs.set_at.as_str()),
        None => to_local(status.entry.updated_at.as_str()),
    };
    let mut task_times: Vec<Option<Instant>> = Vec::new();
    let ghost all = model::tasks(tasks@);
    let mut i: usize = 0;
    while i < tasks.len()
        invariant
            i <= tasks.len(),
            all == model::tasks(tasks@),
            task_times.len() == i,
            forall|j: int|
                0 <= j < i ==> reads_as((#[trigger] all[j]).updated_at, task_times@[j]),
        decreases tasks.len() - i,
    {
        task_times.push(to_local(tasks[i].updated_at.as_str()));
        i += 1;
    }
    let mut kb_times: Vec<Option<Instant>> = Vec::new();
    let ghost entries = placed(kb@);
    let mut k: usize = 0;
    while k < kb.len()
        invariant
            k <= kb.len(),
            entries == placed(kb@),
            kb_times.len() == k,
            forall|j: int|
                0 <= j < k ==> reads_as((#[trigger] entries[j]).entry.updated_at, kb_times@[j]),
        decreases kb.len() - k,
    {
        kb_times.push(to_local(kb[k].entry.updated_at.as_str()));
        k += 1;
    }
    summary_freshness_at(status, reference, tasks, &task_times, kb, &kb_times, head)
}

/// A status is possibly stale exactly when there is a fact against it: a later
/// task, a later entry, or another commit than the recorded one.
pub proof fn law_staleness_has_facts(
    s: CurrentStatusView,
    reference: Option<Instant>,
    tasks: Seq<TaskView>,
    task_times: Seq<Option<Instant>>,
    kb: Seq<PlacedEntryView>,
    kb_times: Seq<Option<Instant>>,
    head: Option<Seq<char>>,
)
    ensures
        ({
            let f = freshness(s, reference, tasks, task_times, kb, kb_times, head);
            &&& f.possibly_stale ==> f.facts.len() > 0
            &&& f.facts.len() > 0 && !(head is None && recorded_commit(s) is Some)
                ==> f.possibly_stale
        }),
{
}

/// Texts in lower case.
pub open spec fn lowered(v: Seq<Seq<char>>) -> Seq<Seq<char>> {
    v.map_values(|s: Seq<char>| text::lowercase(s))
}

/// Whether one of the texts contains the wanted one.
pub open spec fn some_contains(texts: Seq<Seq<char>>, wanted: Seq<char>) -> bool {
    exists|i: int| 0 <= i < texts.len() && text::has_text(#[trigger] texts[i], wanted)
}

/// Whether one of the texts, which are in lower case, contains the wanted one,
/// which is too.
pub fn tag_matches(tags: &Vec<String>, wanted: &str) -> (r: bool)
    ensures
        r == some_contains(text::texts(tags@), wanted@),
{
    let mut i: usize = 0;
    while i < tags.len()
        invariant
            i <= tags.len(),
            forall|j: int|
                0 <= j < i ==> !text::has_text(#[trigger] text::texts(tags@)[j], wanted@),
        decreases tags.len() - i,
    {
        if contains_text(tags[i].as_str(), wanted) {
            assert(text::has_text(text::texts(tags@)[i as int], wanted@));
            return true;
        }
        i += 1;
    }
    false
}

fn lower_all(v: &Vec<String>) -> (r: Vec<String>)
    ensures
        text::texts(r@) == lowered(text::texts(v@)),
{
    let mut out: Vec<String> = Vec::new();
    let ghost target = lowered(text::texts(v@));
    let mut i: usize = 0;
    while i < v.len()
        invariant
            i <= v.len(),
            target == lowered(text::texts(v@)),
            text::texts(out@) == target.take(i as int),
        decreases v.len() - i,
    {
        let ghost before = text::texts(out@);
        out.push(to_lower(v[i].as_str()));
        assert(text::texts(out@) =~= before.push(target[i as int]));
        assert(target.take(i + 1) =~= target.take(i as int).push(target[i as int]));
        i += 1;
    }
    assert(target.take(i as int) =~= target);
    out
}

/// Whether an entry is of the wanted kind, and one of its tags contains the
/// wanted one, capitals aside.
pub open spec fn wanted(
    p: PlacedEntryView,
    kind: Option<KnowledgeKind>,
    tag: Option<Seq<char>>,
) -> bool {
    &&& kind matches Some(k) ==> p.kind == k
    &&& tag matches Some(t) ==> some_contains(lowered(p.entry.tags), text::lowercase(t))
}

/// The entries that are wanted, in order.
pub open spec fn filtered(
    kb: Seq<PlacedEntryView>,
    kind: Option<KnowledgeKind>,
    tag: Option<Seq<char>>,
) -> Seq<KnowledgeEntryView> {
    kb.filter(|p: PlacedEntryView| wanted(p, kind, tag)).map_values(
        |p: PlacedEntryView| p.entry,
    )
}

/// The order of entries by id.
pub open spec fn by_id() -> spec_fn(KnowledgeEntryView, KnowledgeEntryView) -> bool {
    |a: KnowledgeEntryView, b: KnowledgeEntryView| a.id < b.id
}

fn sort_by_id(list: Vec<KnowledgeEntry>) -> (r: Vec<KnowledgeEntry>)
    ensures
        model::entries(r@) == order::sorted_by(model::entries(list@), by_id()),
{
    let mut keys: Vec<(i64, i64)> = Vec::new();
    let mut i: usize = 0;
    while i < list.len()
        invariant
            i <= list.len(),
            keys.len() == i,
            forall|j: int|
                0 <= j < i ==> (#[trigger] keys@[j]).0 == list@[j].id && keys@[j].1 == 0,
        decreases list.len() - i,
    {
        keys.push((list[i].id, 0));
        i += 1;
    }
    let ghost less = |a: KnowledgeEntry, b: KnowledgeEntry| a.id < b.id;
    let ghost view = |e: KnowledgeEntry| e@;
    let ghost all = list@;
    assert forall|a: int, b: int| 0 <= a < all.len() && 0 <= b < all.len() implies #[trigger] less(
        all[a],
        all[b],
    ) == order::pair_less(
        (keys@[a].0 as int, keys@[a].1 as int),
        (keys@[b].0 as int, keys@[b].1 as int),
    ) by {
        assert(keys@[a].0 == list@[a].id);
        assert(keys@[b].0 == list@[b].id);
    }
    proof {
        order::lemma_sorted_map(all, less, view, by_id());
    }
    sort_keyed(list, keys, Ghost(less))
}

/// Filters entries by kind and by tag (substring match on any tag, capitals
/// aside), and sorts them by id.
pub fn filter_entries(kb: &Vec<PlacedEntry>, kind: Option<KnowledgeKind>, tag: Option<&str>) -> (r:
    Vec<KnowledgeEntry>)
    ensures
        model::entries(r@) == order::sorted_by(
            filtered(placed(kb@), kind, text::given(tag)),
            by_id(),
        ),
{
    let mut out: Vec<KnowledgeEntry> = Vec::new();
    let ghost all = placed(kb@);
    let ghost keep = |p: PlacedEntryView| wanted(p, kind, text::given(tag));
    let ghost pick = |p: PlacedEntryView| p.entry;
    let lower_tag = match tag {
        Some(t) => Some(to_lower(t)),
        None => None,
    };
    let mut i: usize = 0;
    reveal(Seq::filter);
    assert(all.take(0) =~= Seq::empty());
    assert(model::entries(out@) =~= all.take(0).filter(keep).map_values(pick));
    while i < kb.len()
        invariant
            i <= kb.len(),
            all == placed(kb@),
            keep == (|p: PlacedEntryView| wanted(p, kind, text::given(tag))),
            pick == (|p: PlacedEntryView| p.entry),
            match (tag, lower_tag) {
                (Some(t), Some(l)) => l@ == text::lowercase(t@),
                (None, None) => true,
                _ => false,
            },
            model::entries(out@) == all.take(i as int).filter(keep).map_values(pick),
        decreases kb.len() - i,
    {
        proof {
            text::lemma_filter_take(all, keep, i as int);
        }
        let ghost kept = all.take(i as int).filter(keep);
        assert(all[i as int] == kb@[i as int]@);
        let p = &kb[i];
        let kind_fits = match kind {
            Some(k) => p.kind == k,
            None => true,
        };
        let tag_fits = match &lower_tag {
            Some(l) => {
                let tags = lower_all(&p.entry.tags);
                tag_matches(&tags, l.as_str())
            },
            None => true,
        };
        let ghost before = out@;
        if kind_fits && tag_fits {
            out.push(p.entry.clone());
            assert(model::entries(out@) =~= model::entries(before).push(all[i as int].entry));
            assert(kept.push(all[i as int]).map_values(pick) =~= kept.map_values(pick).push(
                all[i as int].entry,
            ));
        }
        i += 1;
    }
    assert(all.take(i as int) =~= all);
    sort_by_id(out)
}

/// Whether the `i`-th character belongs to a word: an underscore, or what
/// `word` says.
pub open spec fn in_word(s: Seq<char>, word: Seq<bool>, i: int) -> bool {
    word[i] || s[i] == '_'
}

/// A text without the underscores at its ends.
pub open spec fn bare(s: Seq<char>) -> Seq<char>
    decreases s.len(),
{
    if s.len() > 0 && s[0] == '_' {
        bare(s.skip(1))
    } else if s.len() > 0 && s.last() == '_' {
        bare(s.drop_last())
    } else {
        s
    }
}

/// The words found so far and, where it has two characters or more, the bare
/// word.
pub open spec fn word_added(acc: Seq<Seq<char>>, s: Seq<char>) -> Seq<Seq<char>> {
    if bare(s).len() >= 2 {
        acc.push(bare(s))
    } else {
        acc
    }
}

/// The words of a text from its `i`-th character on, when the current one
/// began at `start`.
pub open spec fn words_from(
    acc: Seq<Seq<char>>,
    s: Seq<char>,
    word: Seq<bool>,
    start: int,
    i: int,
) -> Seq<Seq<char>>
    decreases s.len() - i,
{
    if i >= s.len() {
        word_added(acc, s.subrange(start, s.len() as int))
    } else if in_word(s, word, i) {
        words_from(acc, s, word, start, i + 1)
    } else {
        words_from(word_added(acc, s.subrange(start, i)), s, word, i + 1, i + 1)
    }
}

/// The words of a text of two characters or more, when `word` tells which of
/// its characters are alphanumeric: runs of those and underscores, without
/// underscores at the ends.
pub open spec fn words(s: Seq<char>, word: Seq<bool>) -> Seq<Seq<char>> {
    words_from(Seq::empty(), s, word, 0, 0)
}

/// Which characters are alphanumeric.
pub open spec fn word_flags(s: Seq<char>) -> Seq<bool> {
    s.map_values(|c: char| text::alphanumeric(c))
}

/// The search terms of a text.
pub open spec fn terms(s: Seq<char>) -> Seq<Seq<char>> {
    words(text::lowercase(s), word_flags(text::lowercase(s)))
}

fn bare_word(chars: &Vec<char>, from: usize, to: usize) -> (r: String)
    requires
        from <= to <= chars.len(),
    ensures
        r@ == bare(chars@.subrange(from as int, to as int)),
{
    let mut a: usize = from;
    let mut b: usize = to;
    let ghost target = bare(chars@.subrange(from as int, to as int));
    while a < b && chars[a] == '_'
        invariant
            from <= a <= b <= to <= chars.len(),
            target == bare(chars@.subrange(a as int, b as int)),
        decreases b - a,
    {
        assert(chars@.subrange(a as int, b as int).skip(1) =~= chars@.subrange(a + 1, b as int));
        a += 1;
    }
    while a < b && chars[b - 1] == '_'
        invariant
            from <= a <= b <= to <= chars.len(),
            a < b ==> chars@[a as int] != '_',
            target == bare(chars@.subrange(a as int, b as int)),
        decreases b - a,
    {
        assert(chars@.subrange(a as int, b as int).drop_last() =~= chars@.subrange(
            a as int,
            b - 1,
        ));
        b -= 1;
    }
    string_of(chars, a, b)
}

fn add_word(acc: &mut Vec<String>, chars: &Vec<char>, from: usize, to: usize)
    requires
        from <= to <= chars.len(),
    ensures
        text::texts(final(acc)@) == word_added(
            text::texts(old(acc)@),
            chars@.subrange(from as int, to as int),
        ),
{
    let w = bare_word(chars, from, to);
    let length = chars_of(w.as_str()).len();
    if length >= 2 {
        add_text(acc, w);
    }
}

/// The words of a text of two characters or more, when `word` tells which of
/// its characters are alphanumeric.
pub fn words_of(chars: &Vec<char>, word: &Vec<bool>) -> (r: Vec<String>)
    requires
        word.len() == chars.len(),
    ensures
        text::texts(r@) == words(chars@, word@),
{
    let mut out: Vec<String> = Vec::new();
    let mut start: usize = 0;
    let mut i: usize = 0;
    assert(text::texts(out@) =~= Seq::empty());
    while i < chars.len()
        invariant
            start <= i <= chars.len(),
            word.len() == chars.len(),
            words(chars@, word@) == words_from(
                text::texts(out@),
                chars@,
                word@,
                start as int,
                i as int,
            ),
        decreases chars.len() - i,
    {
        if !(word[i] || chars[i] == '_') {
            add_word(&mut out, chars, start, i);
            start = i + 1;
        }
        i += 1;
    }
    add_word(&mut out, chars, start, i);
    out
}

/// Tokenizes text into lowercase alphanumeric words (min 2 chars).
/// Simple but effective for technical content: no stemming needed at this
/// scale.
pub fn tokenize(s: &str) -> (r: Vec<String>)
    ensures
        text::texts(r@) == terms(s@),
{
    let lower = to_lower(s);
    let chars = chars_of(lower.as_str());
    let mut word: Vec<bool> = Vec::new();
    let ghost target = word_flags(chars@);
    let mut i: usize = 0;
    while i < chars.len()
        invariant
            i <= chars.len(),
            target == word_flags(chars@),
            word@ == target.take(i as int),
        decreases chars.len() - i,
    {
        word.push(is_alphanumeric(chars[i]));
        assert(target.take(i + 1) =~= target.take(i as int).push(target[i as int]));
        i += 1;
    }
    assert(target.take(i as int) =~= target);
    words_of(&chars, &word)
}

/// The terms of an entry's fields.
#[derive(Debug)]
pub struct EntryTerms {
    pub title: Vec<String>,
    pub content: Vec<String>,
    pub tags: Vec<String>,
}

/// What [`EntryTerms`] holds.
#[verifier::ext_equal]
pub struct EntryTermsView {
    pub title: Seq<Seq<char>>,
    pub content: Seq<Seq<char>>,
    pub tags: Seq<Seq<char>>,
}

impl View for EntryTerms {
    type V = EntryTermsView;

    open spec fn view(&self) -> EntryTermsView {
        EntryTermsView {
            title: text::texts(self.title@),
            content: text::texts(self.content@),
            tags: text::texts(self.tags@),
        }
    }
}

/// What a list of entry terms holds.
pub open spec fn all_terms(v: Seq<EntryTerms>) -> Seq<EntryTermsView> {
    v.map_values(|t: EntryTerms| t@)
}

/// The terms of texts, one after the other.
pub open spec fn terms_of_all(v: Seq<Seq<char>>) -> Seq<Seq<char>>
    decreases v.len(),
{
    if v.len() == 0 {
        Seq::empty()
    } else {
        terms_of_all(v.drop_last()) + terms(v.last())
    }
}

/// The terms of an entry.
pub open spec fn entry_terms(e: KnowledgeEntryView) -> EntryTermsView {
    EntryTermsView {
        title: terms(e.title),
        content: terms(e.content),
        tags: terms_of_all(e.tags),
    }
}

fn append_texts(list: &mut Vec<String>, more: Vec<String>)
    ensures
        text::texts(final(list)@) == text::texts(old(list)@) + text::texts(more@),
{
    let mut more = more;
    let ghost before = list@;
    let ghost tail = more@;
    list.append(&mut more);
    assert(text::texts(list@) =~= text::texts(before) + text::texts(tail));
}

fn terms_of_entry(e: &KnowledgeEntry) -> (r: EntryTerms)
    ensures
        r@ == entry_terms(e@),
{
    let mut tags: Vec<String> = Vec::new();
    let ghost all = text::texts(e.tags@);
    let mut i: usize = 0;
    assert(text::texts(tags@) =~= terms_of_all(all.take(0)));
    while i < e.tags.len()
        invariant
            i <= e.tags.len(),
            all == text::texts(e.tags@),
            text::texts(tags@) == terms_of_all(all.take(i as int)),
        decreases e.tags.len() - i,
    {
        assert(all.take(i + 1).drop_last() =~= all.take(i as int));
        assert(all.take(i + 1).last() == e.tags@[i as int]@);
        append_texts(&mut tags, tokenize(e.tags[i].as_str()));
        i += 1;
    }
    assert(all.take(i as int) =~= all);
    EntryTerms {
        title: tokenize(e.title.as_str()),
        content: tokenize(e.content.as_str()),
        tags,
    }
}

/// How often a term occurs.
pub open spec fn occurrences(list: Seq<Seq<char>>, term: Seq<char>) -> nat
    decreases list.len(),
{
    if list.len() == 0 {
        0
    } else {
        occurrences(list.drop_last(), term) + if list.last() == term {
            1nat
        } else {
            0nat
        }
    }
}

fn count(list: &Vec<String>, term: &str) -> (r: usize)
    ensures
        r == occurrences(text::texts(list@), term@),
{
    let ghost all = text::texts(list@);
    let mut n: usize = 0;
    let mut i: usize = 0;
    while i < list.len()
        invariant
            i <= list.len(),
            n <= i,
            all == text::texts(list@),
            n == occurrences(all.take(i as int), term@),
        decreases list.len() - i,
    {
        assert(all.take(i + 1).drop_last() =~= all.take(i as int));
        assert(all.take(i + 1).last() == list@[i as int]@);
        if same(list[i].as_str(), term) {
            n += 1;
        }
        i += 1;
    }
    assert(all.take(i as int) =~= all);
    n
}

/// How often a term occurs in the fields of an entry.
#[derive(Debug, Clone, Copy, PartialEq, Eq, Structural)]
pub struct FieldCounts {
    pub title: usize,
    pub content: usize,
    pub tags: usize,
}

/// Whether the counts are those of a term in the fields of an entry.
pub open spec fn counted(c: FieldCounts, t: EntryTermsView, term: Seq<char>) -> bool {
    c.title == occurrences(t.title, term) && c.content == occurrences(t.content, term) && c.tags
        == occurrences(t.tags, term)
}

/// Whether a term occurs in some field of an entry.
pub open spec fn mentions(t: EntryTermsView, term: Seq<char>) -> bool {
    occurrences(t.title, term) > 0 || occurrences(t.content, term) > 0 || occurrences(
        t.tags,
        term,
    ) > 0
}

/// How many entries mention a term.
pub open spec fn mentioned_by(t: Seq<EntryTermsView>, term: Seq<char>) -> nat
    decreases t.len(),
{
    if t.len() == 0 {
        0
    } else {
        mentioned_by(t.drop_last(), term) + if mentions(t.last(), term) {
            1nat
        } else {
            0nat
        }
    }
}

/// The figures of one search term: in how many entries it occurs, and how often
/// in the fields of each.
#[derive(Debug)]
pub struct TermFigures {
    pub entries: usize,
    pub counts: Vec<FieldCounts>,
}

/// Whether the figures are those of a term among entries.
pub open spec fn figured(f: TermFigures, t: Seq<EntryTermsView>, term: Seq<char>) -> bool {
    &&& f.entries == mentioned_by(t, term)
    &&& f.counts.len() == t.len()
    &&& forall|i: int| 0 <= i < t.len() ==> counted(#[trigger] f.counts@[i], t[i], term)
}

fn figures_of(t: &Vec<EntryTerms>, term: &str) -> (r: TermFigures)
    ensures
        figured(r, all_terms(t@), term@),
{
    let ghost all = all_terms(t@);
    let mut counts: Vec<FieldCounts> = Vec::new();
    let mut n: usize = 0;
    let mut i: usize = 0;
    while i < t.len()
        invariant
            i <= t.len(),
            n <= i,
            all == all_terms(t@),
            n == mentioned_by(all.take(i as int), term@),
            counts.len() == i,
            forall|j: int| 0 <= j < i ==> counted(#[trigger] counts@[j], all[j], term@),
        decreases t.len() - i,
    {
        assert(all.take(i + 1).drop_last() =~= all.take(i as int));
        assert(all.take(i + 1).last() == t@[i as int]@);
        let c = FieldCounts {
            title: count(&t[i].title, term),
            content: count(&t[i].content, term),
            tags: count(&t[i].tags, term),
        };
        if c.title > 0 || c.content > 0 || c.tags > 0 {
            n += 1;
        }
        counts.push(c);
        i += 1;
    }
    assert(all.take(i as int) =~= all);
    TermFigures { entries: n, counts }
}

/// How many terms an entry has.
pub open spec fn length_of(t: EntryTermsView) -> nat {
    t.title.len() + t.content.len() + t.tags.len()
}

/// Everything that ranking a search needs: the candidate entries, the length of
/// each, and the figures of each search term.
#[derive(Debug)]
pub struct SearchFigures {
    pub entries: Vec<KnowledgeEntry>,
    pub lengths: Vec<u128>,
    pub terms: Vec<TermFigures>,
}

/// The entries of the wanted kind, in order.
pub open spec fn candidates(kb: Seq<PlacedEntryView>, kind: Option<KnowledgeKind>) -> Seq<
    KnowledgeEntryView,
> {
    filtered(kb, kind, None)
}

fn candidate_entries(kb: &Vec<PlacedEntry>, kind: Option<KnowledgeKind>) -> (r: Vec<
    KnowledgeEntry,
>)
    ensures
        model::entries(r@) == candidates(placed(kb@), kind),
{
    let mut out: Vec<KnowledgeEntry> = Vec::new();
    let ghost all = placed(kb@);
    let ghost keep = |p: PlacedEntryView| wanted(p, kind, None);
    let ghost pick = |p: PlacedEntryView| p.entry;
    let mut i: usize = 0;
    reveal(Seq::filter);
    assert(all.take(0) =~= Seq::empty());
    assert(model::entries(out@) =~= all.take(0).filter(keep).map_values(pick));
    while i < kb.len()
        invariant
            i <= kb.len(),
            all == placed(kb@),
            keep == (|p: PlacedEntryView| wanted(p, kind, None)),
            pick == (|p: PlacedEntryView| p.entry),
            model::entries(out@) == all.take(i as int).filter(keep).map_values(pick),
        decreases kb.len() - i,
    {
        proof {
            text::lemma_filter_take(all, keep, i as int);
        }
        let ghost kept = all.take(i as int).filter(keep);
        assert(all[i as int] == kb@[i as int]@);
        let fits = match kind {
            Some(k) => kb[i].kind == k,
            None => true,
        };
        let ghost before = out@;
        if fits {
            out.push(kb[i].entry.clone());
            assert(model::entries(out@) =~= model::entries(before).push(all[i as int].entry));
            assert(kept.push(all[i as int]).map_values(pick) =~= kept.map_values(pick).push(
                all[i as int].entry,
            ));
        }
        i += 1;
    }
    assert(all.take(i as int) =~= all);
    out
}

/// The terms of entries.
pub open spec fn terms_of_entries(e: Seq<KnowledgeEntryView>) -> Seq<EntryTermsView> {
    e.map_values(|x: KnowledgeEntryView| entry_terms(x))
}

/// Whether the figures are those of a query among entries.
pub open spec fn figures_for(
    f: SearchFigures,
    entries: Seq<KnowledgeEntryView>,
    query: Seq<Seq<char>>,
) -> bool {
    let t = terms_of_entries(entries);
    &&& model::entries(f.entries@) == entries
    &&& f.lengths.len() == entries.len()
    &&& forall|i: int| 0 <= i < t.len() ==> #[trigger] f.lengths@[i] == length_of(t[i])
    &&& f.terms.len() == query.len()
    &&& forall|k: int| 0 <= k < query.len() ==> figured(#[trigger] f.terms@[k], t, query[k])
}

/// Gathers what ranking a search needs, given the terms of the query. Nothing
/// where there are no entries or no terms.
pub fn search_figures(entries: Vec<KnowledgeEntry>, query: &Vec<String>) -> (r: Option<
    SearchFigures,
>)
    ensures
        match r {
            Some(f) => entries.len() > 0 && query.len() > 0 && figures_for(
                f,
                model::entries(entries@),
                text::texts(query@),
            ),
            None => entries.len() == 0 || query.len() == 0,
        },
{
    if entries.len() == 0 || query.len() == 0 {
        return None;
    }
    let ghost views = model::entries(entries@);
    let ghost target = terms_of_entries(views);
    let mut found: Vec<EntryTerms> = Vec::new();
    let mut lengths: Vec<u128> = Vec::new();
    let mut i: usize = 0;
    while i < entries.len()
        invariant
            i <= entries.len(),
            views == model::entries(entries@),
            target == terms_of_entries(views),
            all_terms(found@) == target.take(i as int),
            lengths.len() == i,
            forall|j: int| 0 <= j < i ==> #[trigger] lengths@[j] == length_of(target[j]),
        decreases entries.len() - i,
    {
        let t = terms_of_entry(&entries[i]);
        assert(target[i as int] == t@);
        lengths.push(t.title.len() as u128 + t.content.len() as u128 + t.tags.len() as u128);
        let ghost before = all_terms(found@);
        found.push(t);
        assert(all_terms(found@) =~= before.push(target[i as int]));
        assert(target.take(i + 1) =~= target.take(i as int).push(target[i as int]));
        i += 1;
    }
    assert(target.take(i as int) =~= target);
    let mut terms_found: Vec<TermFigures> = Vec::new();
    let mut k: usize = 0;
    while k < query.len()
        invariant
            k <= query.len(),
            all_terms(found@) == target,
            terms_found.len() == k,
            forall|j: int|
                0 <= j < k ==> figured(
                    #[trigger] terms_found@[j],
                    target,
                    text::texts(query@)[j],
                ),
        decreases query.len() - k,
    {
        terms_found.push(figures_of(&found, query[k].as_str()));
        k += 1;
    }
    Some(SearchFigures { entries, lengths, terms: terms_found })
}

/// Gathers what ranking a search over the knowledge base needs.
///
/// `kind`: if given, only that kind is searched, else all kinds. Nothing where
/// there are no entries, or the query is blank or has no terms.
pub fn search(kb: &Vec<PlacedEntry>, query: &str, kind: Option<KnowledgeKind>) -> (r: Option<
    SearchFigures,
>)
    ensures
        match r {
            Some(f) => !text::blank(query@) && candidates(placed(kb@), kind).len() > 0 && terms(
                query@,
            ).len() > 0 && figures_for(f, candidates(placed(kb@), kind), terms(query@)),
            None => text::blank(query@) || candidates(placed(kb@), kind).len() == 0 || terms(
                query@,
            ).len() == 0,
        },
{
    let entries = candidate_entries(kb, kind);
    assert(entries.len() == candidates(placed(kb@), kind).len());
    if entries.len() == 0 || is_blank(query) {
        return None;
    }
    let q = tokenize(query);
    assert(q.len() == terms(query@).len());
    search_figures(entries, &q)
}

/// Whether an entry mentions some term of a query, and so is found.
pub open spec fn found_by(e: KnowledgeEntryView, query: Seq<Seq<char>>) -> bool {
    exists|k: int| 0 <= k < query.len() && mentions(entry_terms(e), #[trigger] query[k])
}

/// Whether the `i`-th entry of a search mentions some of its terms.
pub fn is_found(f: &SearchFigures, i: usize) -> (r: bool)
    requires
        i < f.entries.len(),
        forall|k: int|
            0 <= k < f.terms.len() ==> (#[trigger] f.terms@[k]).counts.len() == f.entries.len(),
    ensures
        forall|entries: Seq<KnowledgeEntryView>, query: Seq<Seq<char>>| #[trigger]
            figures_for(*f, entries, query) ==> r == found_by(entries[i as int], query),
{
    let mut k: usize = 0;
    while k < f.terms.len()
        invariant
            k <= f.terms.len(),
            i < f.entries.len(),
            forall|m: int|
                0 <= m < f.terms.len() ==> (#[trigger] f.terms@[m]).counts.len() == f.entries.len(),
            forall|m: int| #![trigger f.terms@[m]]
                0 <= m < k ==> f.terms@[m].counts@[i as int] == (FieldCounts {
                    title: 0,
                    content: 0,
                    tags: 0,
                }),
        decreases f.terms.len() - k,
    {
        let c = &f.terms[k].counts[i];
        if c.title > 0 || c.content > 0 || c.tags > 0 {
            assert forall|entries: Seq<KnowledgeEntryView>, query: Seq<Seq<char>>| #[trigger]
                figures_for(*f, entries, query) implies found_by(entries[i as int], query) by {
                let t = terms_of_entries(entries);
                assert(model::entries(f.entries@).len() == f.entries.len());
                assert(figured(f.terms@[k as int], t, query[k as int]));
                assert(counted(f.terms@[k as int].counts@[i as int], t[i as int], query[k as int]));
                assert(mentions(entry_terms(entries[i as int]), query[k as int]));
            }
            return true;
        }
        k += 1;
    }
    assert forall|entries: Seq<KnowledgeEntryView>, query: Seq<Seq<char>>| #[trigger] figures_for(
        *f,
        entries,
        query,
    ) implies !found_by(entries[i as int], query) by {
        let t = terms_of_entries(entries);
        assert(model::entries(f.entries@).len() == f.entries.len());
        assert forall|m: int| 0 <= m < query.len() implies !mentions(
            entry_terms(entries[i as int]),
            #[trigger] query[m],
        ) by {
            assert(figured(f.terms@[m], t, query[m]));
            assert(counted(f.terms@[m].counts@[i as int], t[i as int], query[m]));
        }
    }
    false
}

// ===== as JSON =====

/// An entry as JSON.
pub open spec fn entry_value(e: KnowledgeEntryView) -> JsonView {
    JsonView::Object(
        seq![
            json::member("id"@, JsonView::Integer(e.id)),
            json::member("kind"@, JsonView::Text(model::kind_name(e.kind))),
            json::member("title"@, JsonView::Text(e.title)),
            json::member("content"@, JsonView::Text(e.content)),
            json::member("tags"@, json::text_array(e.tags)),
            json::member("related_task"@, json::integer_or_null(e.related_task)),
            json::member("supersedes"@, json::integer_array(e.supersedes)),
            json::member("commit"@, json::text_or_null(e.commit)),
            json::member("actor"@, json::text_or_null(e.actor)),
            json::member("created_at"@, JsonView::Text(e.created_at)),
            json::member("updated_at"@, JsonView::Text(e.updated_at)),
        ],
    )
}

/// An entry as JSON.
pub fn entry_json(e: &KnowledgeEntry) -> (r: Json)
    ensures
        r@ == entry_value(e@),
{
    let mut m = no_members();
    add_member(&mut m, "id", Json::Integer(e.id));
    add_member(&mut m, "kind", from_text(e.kind.as_str()));
    add_member(&mut m, "title", from_text(e.title.as_str()));
    add_member(&mut m, "content", from_text(e.content.as_str()));
    add_member(&mut m, "tags", from_texts(&e.tags));
    add_member(&mut m, "related_task", from_opt_integer(e.related_task));
    add_member(&mut m, "supersedes", from_integers(&e.supersedes));
    add_member(&mut m, "commit", from_opt_text(&e.commit));
    add_member(&mut m, "actor", from_opt_text(&e.actor));
    add_member(&mut m, "created_at", from_text(e.created_at.as_str()));
    add_member(&mut m, "updated_at", from_text(e.updated_at.as_str()));
    assert(json::members(m@) =~= entry_value(e@)->Object_0);
    from_members(m)
}

/// A designation as JSON, or null.
pub open spec fn designation_value(o: Option<CurrentSummaryView>) -> JsonView {
    match o {
        Some(c) => JsonView::Object(
            seq![
                json::member("entry_id"@, JsonView::Integer(c.entry_id)),
                json::member("set_at"@, JsonView::Text(c.set_at)),
                json::member("set_by"@, JsonView::Text(c.set_by)),
                json::member("commit"@, json::text_or_null(c.commit)),
            ],
        ),
        None => JsonView::Null,
    }
}

/// A designation as JSON, or null.
pub fn designation_json(o: &Option<CurrentSummary>) -> (r: Json)
    ensures
        r@ == designation_value(opt_summary(*o)),
{
    match o {
        Some(c) => {
            let mut m = no_members();
            add_member(&mut m, "entry_id", Json::Integer(c.entry_id));
            add_member(&mut m, "set_at", from_text(c.set_at.as_str()));
            add_member(&mut m, "set_by", from_text(c.set_by.as_str()));
            add_member(&mut m, "commit", from_opt_text(&c.commit));
            assert(json::members(m@) =~= designation_value(opt_summary(*o))->Object_0);
            from_members(m)
        },
        None => Json::Null,
    }
}

/// Freshness facts as JSON.
pub open spec fn freshness_value(f: FreshnessView) -> JsonView {
    JsonView::Object(
        seq![
            json::member("reference_time"@, json::text_or_null(f.reference_time)),
            json::member("tasks_updated_after"@, json::integer_array(f.tasks_updated_after)),
            json::member("kb_updated_after"@, json::text_array(f.kb_updated_after)),
            json::member("head_commit"@, json::text_or_null(f.head_commit)),
            json::member("commit_matches_head"@, json::bool_or_null(f.commit_matches_head)),
            json::member("possibly_stale"@, JsonView::Bool(f.possibly_stale)),
            json::member("facts"@, json::text_array(f.facts)),
        ],
    )
}

/// Freshness facts as JSON.
pub fn freshness_json(f: &Freshness) -> (r: Json)
    ensures
        r@ == freshness_value(f@),
{
    let mut m = no_members();
    add_member(&mut m, "reference_time", from_opt_text(&f.reference_time));
    add_member(&mut m, "tasks_updated_after", from_integers(&f.tasks_updated_after));
    add_member(&mut m, "kb_updated_after", from_texts(&f.kb_updated_after));
    add_member(&mut m, "head_commit", from_opt_text(&f.head_commit));
    add_member(&mut m, "commit_matches_head", from_opt_bool(f.commit_matches_head));
    add_member(&mut m, "possibly_stale", Json::Bool(f.possibly_stale));
    add_member(&mut m, "facts", from_texts(&f.facts));
    assert(json::members(m@) =~= freshness_value(f@)->Object_0);
    from_members(m)
}

/// The current status of a project, with its provenance and freshness, as
/// JSON.
pub open spec fn status_value(s: CurrentStatusView, f: FreshnessView) -> JsonView {
    JsonView::Object(
        seq![
            json::member("entry"@, entry_value(s.entry)),
            json::member("designated"@, JsonView::Bool(s.designated)),
            json::member("designation"@, designation_value(s.designation)),
            json::member("note"@, json::text_or_null(s.note)),
            json::member("freshness"@, freshness_value(f)),
        ],
    )
}

/// The current status of a project, with its provenance and freshness, as
/// JSON.
pub fn status_json(s: &CurrentStatus, f: &Freshness) -> (r: Json)
    ensures
        r@ == status_value(s@, f@),
{
    let mut m = no_members();
    add_member(&mut m, "entry", entry_json(&s.entry));
    add_member(&mut m, "designated", Json::Bool(s.designated));
    add_member(&mut m, "designation", designation_json(&s.designation));
    add_member(&mut m, "note", from_opt_text(&s.note));
    add_member(&mut m, "freshness", freshness_json(f));
    assert(json::members(m@) =~= status_value(s@, f@)->Object_0);
    from_members(m)
}

} // verus!
