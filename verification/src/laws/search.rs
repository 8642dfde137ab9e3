//! Searching the knowledge base: which entries a query finds, and what its terms
//! are.
use vstd::prelude::*;

use crate::knowledge;
use crate::knowledge::{EntryTermsView, PlacedEntryView, SearchFigures};
use crate::model;
use crate::model::{KnowledgeEntryView, KnowledgeKind};
use crate::order;
use crate::text;

verus! {

/// Whether a term is one of the terms of a text.
pub open spec fn term_of(s: Seq<char>, term: Seq<char>) -> bool {
    knowledge::terms(s).contains(term)
}

/// Whether a term is one of the terms of the title, the content or a tag.
pub open spec fn term_of_entry(e: KnowledgeEntryView, term: Seq<char>) -> bool {
    ||| term_of(e.title, term)
    ||| term_of(e.content, term)
    ||| exists|j: int| 0 <= j < e.tags.len() && term_of(#[trigger] e.tags[j], term)
}

proof fn lemma_occurs(list: Seq<Seq<char>>, term: Seq<char>)
    ensures
        knowledge::occurrences(list, term) > 0 <==> list.contains(term),
    decreases list.len(),
{
    if list.len() > 0 {
        let front = list.drop_last();
        lemma_occurs(front, term);
        if front.contains(term) {
            let i = choose|i: int| 0 <= i < front.len() && front[i] == term;
            assert(list[i] == term);
        }
        if list.contains(term) && list.last() != term {
            let i = choose|i: int| 0 <= i < list.len() && list[i] == term;
            assert(front[i] == term);
        }
        if list.last() == term {
            assert(list[list.len() - 1] == term);
        }
    }
}

proof fn lemma_tag_terms(tags: Seq<Seq<char>>, term: Seq<char>)
    ensures
        knowledge::terms_of_all(tags).contains(term) <==> exists|j: int|
            0 <= j < tags.len() && term_of(#[trigger] tags[j], term),
    decreases tags.len(),
{
    if tags.len() > 0 {
        let front = tags.drop_last();
        let a = knowledge::terms_of_all(front);
        let b = knowledge::terms(tags.last());
        lemma_tag_terms(front, term);
        if (a + b).contains(term) {
            let i = choose|i: int| 0 <= i < (a + b).len() && (a + b)[i] == term;
            if i < a.len() {
                assert(a[i] == term);
                let j = choose|j: int| 0 <= j < front.len() && term_of(#[trigger] front[j], term);
                assert(term_of(tags[j], term));
            } else {
                assert(b[i - a.len()] == term);
                assert(term_of(tags[tags.len() - 1], term));
            }
        }
        if exists|j: int| 0 <= j < tags.len() && term_of(#[trigger] tags[j], term) {
            let j = choose|j: int| 0 <= j < tags.len() && term_of(#[trigger] tags[j], term);
            if j < front.len() {
                assert(term_of(front[j], term));
                let i = choose|i: int| 0 <= i < a.len() && a[i] == term;
                assert((a + b)[i] == term);
            } else {
                let i = choose|i: int| 0 <= i < b.len() && b[i] == term;
                assert((a + b)[a.len() + i] == term);
            }
        }
    }
}

/// An entry mentions a term exactly when it is a term of its title, its content
/// or a tag.
pub proof fn law_terms_are_mentioned(e: KnowledgeEntryView, term: Seq<char>)
    ensures
        knowledge::mentions(knowledge::entry_terms(e), term) <==> term_of_entry(e, term),
{
    let t = knowledge::entry_terms(e);
    lemma_occurs(t.title, term);
    lemma_occurs(t.content, term);
    lemma_occurs(t.tags, term);
    lemma_tag_terms(e.tags, term);
}

/// A query finds an entry exactly when at least one of its terms is a term of the
/// entry's title, its content or a tag.
pub proof fn law_one_term_is_enough(e: KnowledgeEntryView, query: Seq<Seq<char>>)
    ensures
        knowledge::found_by(e, query) <==> exists|k: int|
            0 <= k < query.len() && term_of_entry(e, #[trigger] query[k]),
{
    let t = knowledge::entry_terms(e);
    if knowledge::found_by(e, query) {
        let k = choose|k: int|
            0 <= k < query.len() && knowledge::mentions(t, #[trigger] query[k]);
        law_terms_are_mentioned(e, query[k]);
        assert(term_of_entry(e, query[k]));
    }
    if exists|k: int| 0 <= k < query.len() && term_of_entry(e, #[trigger] query[k]) {
        let k = choose|k: int| 0 <= k < query.len() && term_of_entry(e, #[trigger] query[k]);
        law_terms_are_mentioned(e, query[k]);
        assert(knowledge::mentions(t, query[k]));
    }
}

/// A query with more terms finds every entry that each part of it finds, and none
/// that neither finds.
pub proof fn law_more_terms_find_more(
    e: KnowledgeEntryView,
    query: Seq<Seq<char>>,
    more: Seq<Seq<char>>,
)
    ensures
        knowledge::found_by(e, query + more) <==> knowledge::found_by(e, query)
            || knowledge::found_by(e, more),
{
    let both = query + more;
    law_one_term_is_enough(e, query);
    law_one_term_is_enough(e, more);
    law_one_term_is_enough(e, both);
    if knowledge::found_by(e, query) {
        let k = choose|k: int| 0 <= k < query.len() && term_of_entry(e, #[trigger] query[k]);
        assert(term_of_entry(e, both[k]));
    }
    if knowledge::found_by(e, more) {
        let k = choose|k: int| 0 <= k < more.len() && term_of_entry(e, #[trigger] more[k]);
        assert(term_of_entry(e, both[query.len() + k]));
    }
    if knowledge::found_by(e, both) {
        let k = choose|k: int| 0 <= k < both.len() && term_of_entry(e, #[trigger] both[k]);
        if k < query.len() {
            assert(term_of_entry(e, query[k]));
        } else {
            assert(term_of_entry(e, more[k - query.len()]));
        }
    }
}

/// The candidates of a search are the entries of the wanted kind, or all where
/// none is wanted, in the order in which they stand.
pub proof fn law_candidates_are_of_the_kind(kb: Seq<PlacedEntryView>, kind: Option<KnowledgeKind>)
    ensures
        knowledge::candidates(kb, kind) == kb.filter(
            |p: PlacedEntryView| kind is None || kind == Some(p.kind),
        ).map_values(|p: PlacedEntryView| p.entry),
{
    let f = |p: PlacedEntryView| kind is None || kind == Some(p.kind);
    let g = |p: PlacedEntryView| knowledge::wanted(p, kind, None);
    text::lemma_filter_same(kb, f, g);
    assert(kb.filter(f).map_values(|p: PlacedEntryView| p.entry) =~= kb.filter(g).map_values(
        |p: PlacedEntryView| p.entry,
    ));
}

/// Whether a text holds another, with anything before and after it.
pub open spec fn holds_text(s: Seq<char>, p: Seq<char>) -> bool {
    exists|a: Seq<char>, b: Seq<char>| s == #[trigger] (a + p + b)
}

/// Whether an entry is listed for a kind and a tag: it is of the kind, and one of
/// its tags holds the tag, both in lower case.
pub open spec fn is_listed(
    p: PlacedEntryView,
    kind: Option<KnowledgeKind>,
    tag: Option<Seq<char>>,
) -> bool {
    &&& kind is None || kind == Some(p.kind)
    &&& tag is None || exists|j: int|
        0 <= j < p.entry.tags.len() && holds_text(
            text::lowercase(#[trigger] p.entry.tags[j]),
            text::lowercase(tag->0),
        )
}

proof fn lemma_listed(p: PlacedEntryView, kind: Option<KnowledgeKind>, tag: Option<Seq<char>>)
    ensures
        knowledge::wanted(p, kind, tag) == is_listed(p, kind, tag),
{
    if let Some(t) = tag {
        let low = knowledge::lowered(p.entry.tags);
        let w = text::lowercase(t);
        if knowledge::some_contains(low, w) {
            let i = choose|i: int| 0 <= i < low.len() && text::has_text(#[trigger] low[i], w);
            text::law_has_text(low[i], w);
            assert(low[i] == text::lowercase(p.entry.tags[i]));
            assert(holds_text(text::lowercase(p.entry.tags[i]), w));
        }
        if exists|j: int|
            0 <= j < p.entry.tags.len() && holds_text(
                text::lowercase(#[trigger] p.entry.tags[j]),
                w,
            ) {
            let j = choose|j: int|
                0 <= j < p.entry.tags.len() && holds_text(
                    text::lowercase(#[trigger] p.entry.tags[j]),
                    w,
                );
            text::law_has_text(low[j], w);
            assert(text::has_text(low[j], w));
        }
    }
}

/// A listing holds the entries of the wanted kind with the wanted tag, each as
/// often as the knowledge base has it, by id from the lowest on.
pub proof fn law_listing_is_by_kind_and_tag(
    kb: Seq<PlacedEntryView>,
    kind: Option<KnowledgeKind>,
    tag: Option<Seq<char>>,
)
    ensures
        ({
            let list = order::sorted_by(knowledge::filtered(kb, kind, tag), knowledge::by_id());
            let right = kb.filter(|p: PlacedEntryView| is_listed(p, kind, tag)).map_values(
                |p: PlacedEntryView| p.entry,
            );
            &&& list.to_multiset() == right.to_multiset()
            &&& forall|i: int, j: int|
                0 <= i < j < list.len() ==> (#[trigger] list[i]).id <= (#[trigger] list[j]).id
        }),
{
    let f = |p: PlacedEntryView| is_listed(p, kind, tag);
    let g = |p: PlacedEntryView| knowledge::wanted(p, kind, tag);
    let less = knowledge::by_id();
    assert forall|p: PlacedEntryView| #[trigger] f(p) == g(p) by {
        lemma_listed(p, kind, tag);
    }
    text::lemma_filter_same(kb, f, g);
    assert forall|a: KnowledgeEntryView, b: KnowledgeEntryView| #[trigger] less(a, b) implies !less(
        b,
        a,
    ) by {}
    assert forall|a: KnowledgeEntryView, b: KnowledgeEntryView, c: KnowledgeEntryView|
        #![trigger less(b, a), less(c, b)]
        !less(b, a) && !less(c, b) implies !less(c, a) by {}
    let some = knowledge::filtered(kb, kind, tag);
    order::lemma_sorted(some, less);
    assert(some =~= kb.filter(f).map_values(|p: PlacedEntryView| p.entry));
    let list = order::sorted_by(some, less);
    assert forall|i: int, j: int| 0 <= i < j < list.len() implies (#[trigger] list[i]).id <= (
    #[trigger] list[j]).id by {
        assert(!less(list[j], list[i]));
    }
}

/// Whether a character belongs to a term: it is alphanumeric or an underscore.
pub open spec fn in_term(c: char) -> bool {
    text::alphanumeric(c) || c == '_'
}

proof fn lemma_words_found_first(
    acc: Seq<Seq<char>>,
    s: Seq<char>,
    w: Seq<bool>,
    start: int,
    i: int,
)
    ensures
        knowledge::words_from(acc, s, w, start, i) == acc + knowledge::words_from(
            Seq::empty(),
            s,
            w,
            start,
            i,
        ),
    decreases s.len() - i,
{
    let none = Seq::<Seq<char>>::empty();
    if i >= s.len() {
        let last = s.subrange(start, s.len() as int);
        assert(knowledge::word_added(acc, last) =~= acc + knowledge::word_added(none, last));
    } else if knowledge::in_word(s, w, i) {
        lemma_words_found_first(acc, s, w, start, i + 1);
    } else {
        let one = s.subrange(start, i);
        lemma_words_found_first(knowledge::word_added(acc, one), s, w, i + 1, i + 1);
        lemma_words_found_first(knowledge::word_added(none, one), s, w, i + 1, i + 1);
        assert(knowledge::word_added(acc, one) =~= acc + knowledge::word_added(none, one));
        let rest = knowledge::words_from(none, s, w, i + 1, i + 1);
        assert(acc + knowledge::word_added(none, one) + rest =~= acc + (knowledge::word_added(
            none,
            one,
        ) + rest));
    }
}

proof fn lemma_words_before(a: Seq<char>, c: char, b: Seq<char>, start: int, i: int)
    requires
        0 <= start <= i <= a.len(),
        !in_term(c),
    ensures
        ({
            let s = a + seq![c] + b;
            let none = Seq::<Seq<char>>::empty();
            let next = a.len() + 1;
            knowledge::words_from(none, s, knowledge::word_flags(s), start, i)
                == knowledge::words_from(none, a, knowledge::word_flags(a), start, i)
                + knowledge::words_from(none, s, knowledge::word_flags(s), next as int, next as int)
        }),
    decreases a.len() - i,
{
    let s = a + seq![c] + b;
    let none = Seq::<Seq<char>>::empty();
    let w = knowledge::word_flags(s);
    let v = knowledge::word_flags(a);
    let next = a.len() as int + 1;
    let rest = knowledge::words_from(none, s, w, next, next);
    if i == a.len() {
        assert(s[i] == c);
        assert(s.subrange(start, i) =~= a.subrange(start, a.len() as int));
        lemma_words_found_first(
            knowledge::word_added(none, s.subrange(start, i)),
            s,
            w,
            next,
            next,
        );
    } else {
        assert(s[i] == a[i]);
        assert(w[i] == v[i]);
        if knowledge::in_word(s, w, i) {
            lemma_words_before(a, c, b, start, i + 1);
        } else {
            let one = a.subrange(start, i);
            assert(s.subrange(start, i) =~= one);
            lemma_words_before(a, c, b, i + 1, i + 1);
            lemma_words_found_first(knowledge::word_added(none, one), s, w, i + 1, i + 1);
            lemma_words_found_first(knowledge::word_added(none, one), a, v, i + 1, i + 1);
            let mid = knowledge::words_from(none, a, v, i + 1, i + 1);
            assert(knowledge::word_added(none, one) + (mid + rest) =~= knowledge::word_added(
                none,
                one,
            ) + mid + rest);
        }
    }
}

proof fn lemma_words_after(
    acc: Seq<Seq<char>>,
    a: Seq<char>,
    b: Seq<char>,
    start: int,
    i: int,
)
    requires
        0 <= start <= i <= b.len(),
    ensures
        ({
            let s = a + b;
            let n = a.len() as int;
            knowledge::words_from(acc, s, knowledge::word_flags(s), n + start, n + i)
                == knowledge::words_from(acc, b, knowledge::word_flags(b), start, i)
        }),
    decreases b.len() - i,
{
    let s = a + b;
    let n = a.len() as int;
    assert(s.subrange(n + start, n + i) =~= b.subrange(start, i));
    if i < b.len() {
        assert(s[n + i] == b[i]);
        assert(knowledge::word_flags(s)[n + i] == knowledge::word_flags(b)[i]);
        if knowledge::in_word(b, knowledge::word_flags(b), i) {
            lemma_words_after(acc, a, b, start, i + 1);
        } else {
            lemma_words_after(
                knowledge::word_added(acc, b.subrange(start, i)),
                a,
                b,
                i + 1,
                i + 1,
            );
        }
    }
}

proof fn lemma_one_word(s: Seq<char>, i: int)
    requires
        0 <= i <= s.len(),
        forall|k: int| 0 <= k < s.len() ==> in_term(#[trigger] s[k]),
    ensures
        knowledge::words_from(Seq::empty(), s, knowledge::word_flags(s), 0, i)
            == knowledge::word_added(Seq::empty(), s),
    decreases s.len() - i,
{
    if i < s.len() {
        assert(in_term(s[i]));
        lemma_one_word(s, i + 1);
    } else {
        assert(s.subrange(0, s.len() as int) =~= s);
    }
}

/// Terms end at every character that is neither alphanumeric nor an underscore:
/// where the text in lower case is two parts around such a character, its terms
/// are those of the first part, followed by those of the second.
pub proof fn law_terms_are_separated(
    x: Seq<char>,
    y: Seq<char>,
    z: Seq<char>,
    c: char,
)
    requires
        text::lowercase(x) == text::lowercase(y) + seq![c] + text::lowercase(z),
        !in_term(c),
    ensures
        knowledge::terms(x) == knowledge::terms(y) + knowledge::terms(z),
{
    let a = text::lowercase(y);
    let b = text::lowercase(z);
    let none = Seq::<Seq<char>>::empty();
    lemma_words_before(a, c, b, 0, 0);
    lemma_words_after(none, a + seq![c], b, 0, 0);
}

/// Whether `p` to `q` is what remains of a text without the underscores at its
/// ends.
pub open spec fn is_core(s: Seq<char>, p: int, q: int) -> bool {
    &&& 0 <= p <= q <= s.len()
    &&& forall|i: int| 0 <= i < p ==> #[trigger] s[i] == '_'
    &&& forall|i: int| q <= i < s.len() ==> #[trigger] s[i] == '_'
    &&& p < q ==> s[p] != '_' && s[q - 1] != '_'
}

proof fn lemma_bare_is_core(s: Seq<char>) -> (r: (int, int))
    ensures
        is_core(s, r.0, r.1),
        knowledge::bare(s) == s.subrange(r.0, r.1),
    decreases s.len(),
{
    if s.len() > 0 && s[0] == '_' {
        let t = s.skip(1);
        let (p, q) = lemma_bare_is_core(t);
        assert(t.subrange(p, q) =~= s.subrange(p + 1, q + 1));
        assert forall|i: int| 0 <= i < p + 1 implies #[trigger] s[i] == '_' by {
            if i > 0 {
                assert(t[i - 1] == s[i]);
            }
        }
        assert forall|i: int| q + 1 <= i < s.len() implies #[trigger] s[i] == '_' by {
            assert(t[i - 1] == s[i]);
        }
        (p + 1, q + 1)
    } else if s.len() > 0 && s.last() == '_' {
        let t = s.drop_last();
        let (p, q) = lemma_bare_is_core(t);
        assert(t.subrange(p, q) =~= s.subrange(p, q));
        assert forall|i: int| 0 <= i < p implies #[trigger] s[i] == '_' by {
            assert(t[i] == s[i]);
        }
        assert forall|i: int| q <= i < s.len() implies #[trigger] s[i] == '_' by {
            if i < t.len() {
                assert(t[i] == s[i]);
            }
        }
        (p, q)
    } else {
        assert(s.subrange(0, s.len() as int) =~= s);
        (0int, s.len() as int)
    }
}

/// A text in which no term ends is one term, in lower case and without the
/// underscores at its ends, or none where less than two characters remain.
pub proof fn law_one_term(x: Seq<char>, p: int, q: int)
    requires
        forall|k: int|
            0 <= k < text::lowercase(x).len() ==> in_term(#[trigger] text::lowercase(x)[k]),
        is_core(text::lowercase(x), p, q),
    ensures
        q - p >= 2 ==> knowledge::terms(x) == seq![text::lowercase(x).subrange(p, q)],
        q - p < 2 ==> knowledge::terms(x).len() == 0,
{
    let s = text::lowercase(x);
    lemma_one_word(s, 0);
    let (a, b) = lemma_bare_is_core(s);
    if p < q {
        if a < p && a < b {
            assert(s[a] == '_');
        }
        if p < a {
            assert(s[p] == '_');
        }
        if a == b {
            if p < a {
                assert(s[p] == '_');
            } else {
                assert(s[p] == '_');
            }
        }
        if b < q {
            assert(s[q - 1] == '_');
        }
        if q < b {
            assert(s[b - 1] == '_');
        }
        assert(a == p && b == q);
    } else if a < b {
        if a < p {
            assert(s[a] == '_');
        } else {
            assert(s[a] == '_');
        }
    }
    if q - p >= 2 {
        assert(knowledge::terms(x) =~= seq![s.subrange(p, q)]);
    }
}

proof fn lemma_occurrences_count(list: Seq<Seq<char>>, term: Seq<char>)
    ensures
        knowledge::occurrences(list, term) == list.to_multiset().count(term),
    decreases list.len(),
{
    broadcast use vstd::seq_lib::group_to_multiset_ensures;

    if list.len() > 0 {
        lemma_occurrences_count(list.drop_last(), term);
        assert(list =~= list.drop_last().push(list.last()));
    }
}

proof fn lemma_mentioned(t: Seq<EntryTermsView>, term: Seq<char>)
    ensures
        knowledge::mentioned_by(t, term) == t.filter(
            |x: EntryTermsView|
                x.title.contains(term) || x.content.contains(term) || x.tags.contains(term),
        ).len(),
    decreases t.len(),
{
    reveal(Seq::filter);
    if t.len() > 0 {
        lemma_mentioned(t.drop_last(), term);
        lemma_occurs(t.last().title, term);
        lemma_occurs(t.last().content, term);
        lemma_occurs(t.last().tags, term);
    }
}

/// The figures of a search are what they are named after: of each entry, how many
/// terms it has, and how often its title, its content and its tags hold each term
/// of the query; of each term, how many entries hold it.
pub proof fn law_figures_count_terms(
    f: SearchFigures,
    entries: Seq<KnowledgeEntryView>,
    query: Seq<Seq<char>>,
    i: int,
    k: int,
)
    requires
        knowledge::figures_for(f, entries, query),
        0 <= i < entries.len(),
        0 <= k < query.len(),
    ensures
        ({
            let e = entries[i];
            let tags = knowledge::terms_of_all(e.tags);
            let c = f.terms@[k].counts@[i];
            &&& f.entries@[i]@ == e
            &&& f.lengths@[i] == knowledge::terms(e.title).len() + knowledge::terms(e.content).len()
                + tags.len()
            &&& c.title == knowledge::terms(e.title).to_multiset().count(query[k])
            &&& c.content == knowledge::terms(e.content).to_multiset().count(query[k])
            &&& c.tags == tags.to_multiset().count(query[k])
            &&& f.terms@[k].entries == entries.filter(
                |x: KnowledgeEntryView| term_of_entry(x, query[k]),
            ).len()
        }),
{
    let t = knowledge::terms_of_entries(entries);
    assert(knowledge::figured(f.terms@[k], t, query[k]));
    assert(knowledge::counted(f.terms@[k].counts@[i], t[i], query[k]));
    lemma_occurrences_count(t[i].title, query[k]);
    lemma_occurrences_count(t[i].content, query[k]);
    lemma_occurrences_count(t[i].tags, query[k]);
    assert(f.lengths@[i] == knowledge::length_of(t[i]));
    assert(model::entries(f.entries@)[i] == entries[i]);
    lemma_mentioned(t, query[k]);
    lemma_entries_counted(entries, query[k]);
}

proof fn lemma_entries_counted(entries: Seq<KnowledgeEntryView>, term: Seq<char>)
    ensures
        knowledge::terms_of_entries(entries).filter(
            |x: EntryTermsView|
                x.title.contains(term) || x.content.contains(term) || x.tags.contains(term),
        ).len() == entries.filter(|x: KnowledgeEntryView| term_of_entry(x, term)).len(),
    decreases entries.len(),
{
    reveal(Seq::filter);
    if entries.len() > 0 {
        let t = knowledge::terms_of_entries(entries);
        assert(t.drop_last() =~= knowledge::terms_of_entries(entries.drop_last()));
        lemma_entries_counted(entries.drop_last(), term);
        lemma_tag_terms(entries.last().tags, term);
    }
}

/// The terms of tags are those of each tag, one tag after the other.
pub proof fn law_tags_are_searched_in_turn(tags: Seq<Seq<char>>, more: Seq<Seq<char>>)
    ensures
        knowledge::terms_of_all(tags + more) == knowledge::terms_of_all(tags)
            + knowledge::terms_of_all(more),
        forall|s: Seq<char>| #[trigger] knowledge::terms_of_all(seq![s]) == knowledge::terms(s),
    decreases more.len(),
{
    if more.len() == 0 {
        assert(tags + more =~= tags);
        assert(knowledge::terms_of_all(more) =~= Seq::empty());
    } else {
        law_tags_are_searched_in_turn(tags, more.drop_last());
        assert((tags + more).drop_last() =~= tags + more.drop_last());
    }
    assert forall|s: Seq<char>| #[trigger]
        knowledge::terms_of_all(seq![s]) == knowledge::terms(s) by {
        assert(seq![s].drop_last() =~= Seq::empty());
        assert(knowledge::terms_of_all(Seq::empty()) =~= Seq::empty());
        reveal_with_fuel(knowledge::terms_of_all, 2);
    }
}

} // verus!
