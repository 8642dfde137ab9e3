//! Stable sorting.
use vstd::prelude::*;

use crate::text;
use crate::text::chars_of;

verus! {

/// `s` with `x` put behind everything that `x` does not go before, where `s` is
/// sorted.
pub open spec fn placed<T>(s: Seq<T>, x: T, less: spec_fn(T, T) -> bool) -> Seq<T>
    decreases s.len(),
{
    if s.len() > 0 && less(x, s.last()) {
        placed(s.drop_last(), x, less).push(s.last())
    } else {
        s.push(x)
    }
}

/// `s` sorted by `less`; what neither goes before the other keeps its order.
pub open spec fn sorted_by<T>(s: Seq<T>, less: spec_fn(T, T) -> bool) -> Seq<T>
    decreases s.len(),
{
    if s.len() == 0 {
        s
    } else {
        placed(sorted_by(s.drop_last(), less), s.last(), less)
    }
}

/// Whether `less` orders strictly, with ties being transitive.
pub open spec fn orders<T>(less: spec_fn(T, T) -> bool) -> bool {
    &&& forall|a: T, b: T| #[trigger] less(a, b) ==> !less(b, a)
    &&& forall|a: T, b: T, c: T|
        #![trigger less(b, a), less(c, b)]
        !less(b, a) && !less(c, b) ==> !less(c, a)
}

/// Whether nothing in `s` goes before something in front of it.
pub open spec fn in_order<T>(s: Seq<T>, less: spec_fn(T, T) -> bool) -> bool {
    forall|i: int, j: int| 0 <= i < j < s.len() ==> !less(#[trigger] s[j], #[trigger] s[i])
}

proof fn lemma_placed_insert<T>(s: Seq<T>, x: T, less: spec_fn(T, T) -> bool, p: int)
    requires
        0 <= p <= s.len(),
        forall|j: int| p <= j < s.len() ==> less(x, #[trigger] s[j]),
        p > 0 ==> !less(x, s[p - 1]),
    ensures
        placed(s, x, less) == s.insert(p, x),
    decreases s.len(),
{
    if p < s.len() {
        assert(less(x, s[s.len() - 1]));
        lemma_placed_insert(s.drop_last(), x, less, p);
        assert(s.drop_last().insert(p, x).push(s.last()) =~= s.insert(p, x));
    } else {
        assert(s.push(x) =~= s.insert(p, x));
    }
}

proof fn lemma_placed_in_order<T>(s: Seq<T>, x: T, less: spec_fn(T, T) -> bool)
    requires
        orders(less),
        in_order(s, less),
    ensures
        in_order(placed(s, x, less), less),
        placed(s, x, less).to_multiset() == s.to_multiset().insert(x),
        placed(s, x, less).len() == s.len() + 1,
    decreases s.len(),
{
    broadcast use vstd::seq_lib::group_to_multiset_ensures;

    if s.len() > 0 && less(x, s.last()) {
        let front = s.drop_last();
        lemma_placed_in_order(front, x, less);
        let inner = placed(front, x, less);
        let all = inner.push(s.last());
        assert(s =~= front.push(s.last()));
        assert(s.to_multiset() =~= front.to_multiset().insert(s.last()));
        assert(all.to_multiset() =~= s.to_multiset().insert(x));
        assert forall|i: int, j: int| 0 <= i < j < all.len() implies !less(
            #[trigger] all[j],
            #[trigger] all[i],
        ) by {
            if j == all.len() - 1 {
                lemma_placed_members(front, x, less, i);
                if all[i] != x {
                    let k = choose|k: int| 0 <= k < front.len() && front[k] == all[i];
                    assert(!less(s[s.len() - 1], s[k]));
                }
            } else {
                assert(!less(inner[j], inner[i]));
            }
        }
    } else {
        let all = s.push(x);
        assert forall|i: int, j: int| 0 <= i < j < all.len() implies !less(
            #[trigger] all[j],
            #[trigger] all[i],
        ) by {
            if j == all.len() - 1 {
                if i < s.len() - 1 {
                    assert(!less(s[s.len() - 1], s[i]));
                    assert(!less(x, s.last()));
                }
            } else {
                assert(!less(s[j], s[i]));
            }
        }
    }
}

proof fn lemma_placed_members<T>(s: Seq<T>, x: T, less: spec_fn(T, T) -> bool, i: int)
    requires
        0 <= i < placed(s, x, less).len(),
    ensures
        placed(s, x, less)[i] == x || s.contains(placed(s, x, less)[i]),
        placed(s, x, less).len() == s.len() + 1,
    decreases s.len(),
{
    if s.len() > 0 && less(x, s.last()) {
        let front = s.drop_last();
        let inner = placed(front, x, less);
        lemma_placed_len(front, x, less);
        if i < inner.len() {
            lemma_placed_members(front, x, less, i);
            if inner[i] != x {
                let k = choose|k: int| 0 <= k < front.len() && front[k] == inner[i];
                assert(s[k] == inner[i]);
            }
        } else {
            assert(s[s.len() - 1] == placed(s, x, less)[i]);
        }
    } else if i < s.len() {
        assert(s[i] == placed(s, x, less)[i]);
    }
}

proof fn lemma_placed_len<T>(s: Seq<T>, x: T, less: spec_fn(T, T) -> bool)
    ensures
        placed(s, x, less).len() == s.len() + 1,
    decreases s.len(),
{
    if s.len() > 0 && less(x, s.last()) {
        lemma_placed_len(s.drop_last(), x, less);
    }
}

/// Sorting orders a list and keeps exactly its elements.
pub proof fn lemma_sorted<T>(s: Seq<T>, less: spec_fn(T, T) -> bool)
    requires
        orders(less),
    ensures
        in_order(sorted_by(s, less), less),
        sorted_by(s, less).to_multiset() == s.to_multiset(),
        sorted_by(s, less).len() == s.len(),
    decreases s.len(),
{
    broadcast use vstd::seq_lib::group_to_multiset_ensures;

    if s.len() > 0 {
        lemma_sorted(s.drop_last(), less);
        lemma_placed_in_order(sorted_by(s.drop_last(), less), s.last(), less);
        assert(s =~= s.drop_last().push(s.last()));
        assert(s.to_multiset() =~= s.drop_last().to_multiset().insert(s.last()));
    }
}

/// Sorting by an order of the images sorts the images.
pub proof fn lemma_sorted_map<T, U>(
    s: Seq<T>,
    less: spec_fn(T, T) -> bool,
    f: spec_fn(T) -> U,
    less_image: spec_fn(U, U) -> bool,
)
    requires
        forall|a: T, b: T| #[trigger] less(a, b) == less_image(f(a), f(b)),
    ensures
        sorted_by(s, less).map_values(f) == sorted_by(s.map_values(f), less_image),
    decreases s.len(),
{
    let images = s.map_values(f);
    if s.len() > 0 {
        lemma_sorted_map(s.drop_last(), less, f, less_image);
        assert(images.drop_last() =~= s.drop_last().map_values(f));
        lemma_placed_map(sorted_by(s.drop_last(), less), s.last(), less, f, less_image);
        assert(images.last() == f(s.last()));
    } else {
        assert(sorted_by(s, less).map_values(f) =~= sorted_by(images, less_image));
    }
}

proof fn lemma_placed_map<T, U>(
    s: Seq<T>,
    x: T,
    less: spec_fn(T, T) -> bool,
    f: spec_fn(T) -> U,
    less_image: spec_fn(U, U) -> bool,
)
    requires
        forall|a: T, b: T| #[trigger] less(a, b) == less_image(f(a), f(b)),
    ensures
        placed(s, x, less).map_values(f) == placed(s.map_values(f), f(x), less_image),
    decreases s.len(),
{
    let images = s.map_values(f);
    if s.len() > 0 {
        assert(images.last() == f(s.last()));
        assert(less(x, s.last()) == less_image(f(x), f(s.last())));
        if less(x, s.last()) {
            lemma_placed_map(s.drop_last(), x, less, f, less_image);
            assert(images.drop_last() =~= s.drop_last().map_values(f));
            assert(placed(s, x, less).map_values(f) =~= placed(
                s.drop_last(),
                x,
                less,
            ).map_values(f).push(f(s.last())));
        } else {
            assert(s.push(x).map_values(f) =~= images.push(f(x)));
        }
    } else {
        assert(s.push(x).map_values(f) =~= images.push(f(x)));
    }
}

/// Whether the pair `a` goes before `b`: by the first component, then by the
/// second.
pub open spec fn pair_less(a: (int, int), b: (int, int)) -> bool {
    a.0 < b.0 || (a.0 == b.0 && a.1 < b.1)
}

/// Sorts items by their keys.
pub(crate) fn sort_keyed<T>(
    items: Vec<T>,
    keys: Vec<(i64, i64)>,
    less: Ghost<spec_fn(T, T) -> bool>,
) -> (r: Vec<T>)
    requires
        keys.len() == items.len(),
        forall|i: int, j: int|
            0 <= i < items.len() && 0 <= j < items.len() ==> #[trigger] less@(items@[i], items@[j])
                == pair_less(
                (keys@[i].0 as int, keys@[i].1 as int),
                (keys@[j].0 as int, keys@[j].1 as int),
            ),
    ensures
        r@ == sorted_by(items@, less@),
{
    let mut items = items;
    let ghost all = items@;
    let ghost all_keys = keys@;
    let mut out: Vec<T> = Vec::new();
    let mut out_keys: Vec<(i64, i64)> = Vec::new();
    // Where each sorted item stood.
    let ghost mut from: Seq<int> = Seq::empty();
    let mut i: usize = 0;
    assert(all.skip(0) =~= all);
    assert(all.take(0) =~= Seq::empty());
    while i < keys.len()
        invariant
            i <= keys.len(),
            keys@ == all_keys,
            keys.len() == all.len(),
            items@ == all.skip(i as int),
            out@ == sorted_by(all.take(i as int), less@),
            out.len() == out_keys.len(),
            from.len() == out.len(),
            forall|k: int|
                0 <= k < out.len() ==> 0 <= #[trigger] from[k] < i && out@[k] == all[from[k]]
                    && out_keys@[k] == all_keys[from[k]],
            forall|a: int, b: int|
                0 <= a < all.len() && 0 <= b < all.len() ==> #[trigger] less@(all[a], all[b])
                    == pair_less(
                    (all_keys[a].0 as int, all_keys[a].1 as int),
                    (all_keys[b].0 as int, all_keys[b].1 as int),
                ),
        decreases keys.len() - i,
    {
        let x = items.remove(0);
        assert(items@ =~= all.skip(i + 1));
        let key = keys[i];
        let mut p: usize = out.len();
        while p > 0 && (key.0 < out_keys[p - 1].0 || (key.0 == out_keys[p - 1].0 && key.1
            < out_keys[p - 1].1))
            invariant
                i < all.len(),
                x == all[i as int],
                key == all_keys[i as int],
                p <= out.len(),
                out.len() == out_keys.len(),
                from.len() == out.len(),
                forall|k: int|
                    0 <= k < out.len() ==> 0 <= #[trigger] from[k] < i && out@[k] == all[from[k]]
                        && out_keys@[k] == all_keys[from[k]],
                forall|a: int, b: int|
                    0 <= a < all.len() && 0 <= b < all.len() ==> #[trigger] less@(all[a], all[b])
                        == pair_less(
                        (all_keys[a].0 as int, all_keys[a].1 as int),
                        (all_keys[b].0 as int, all_keys[b].1 as int),
                    ),
                forall|j: int| p <= j < out.len() ==> less@(x, #[trigger] out@[j]),
            decreases p,
        {
            assert(less@(all[i as int], all[from[p - 1]]));
            p -= 1;
        }
        proof {
            if p > 0 {
                assert(!less@(all[i as int], all[from[p - 1]]));
            }
            lemma_placed_insert(out@, x, less@, p as int);
            assert(all.take(i + 1).drop_last() =~= all.take(i as int));
            assert(all.take(i + 1).last() == x);
            from = from.insert(p as int, i as int);
        }
        out.insert(p, x);
        out_keys.insert(p, key);
        i += 1;
    }
    assert(all.take(i as int) =~= all);
    out
}

/// Whether the text `a` goes before `b`, character by character.
pub open spec fn text_less(a: Seq<char>, b: Seq<char>) -> bool
    decreases a.len(),
{
    if b.len() == 0 {
        false
    } else if a.len() == 0 {
        true
    } else if a[0] == b[0] {
        text_less(a.skip(1), b.skip(1))
    } else {
        (a[0] as int) < (b[0] as int)
    }
}

fn before_char(x: char, y: char) -> (r: bool)
    ensures
        r == ((x as int) < (y as int)),
{
    (x as u32) < (y as u32)
}

/// Whether the text `a` goes before `b`, character by character.
pub fn is_text_less(a: &Vec<char>, b: &Vec<char>) -> (r: bool)
    ensures
        r == text_less(a@, b@),
{
    let mut i: usize = 0;
    assert(a@.skip(0) =~= a@);
    assert(b@.skip(0) =~= b@);
    loop
        invariant
            i <= a.len(),
            i <= b.len(),
            text_less(a@, b@) == text_less(a@.skip(i as int), b@.skip(i as int)),
        decreases a.len() - i,
    {
        if i == b.len() {
            return false;
        }
        if i == a.len() {
            return true;
        }
        assert(a@.skip(i as int)[0] == a@[i as int]);
        assert(b@.skip(i as int)[0] == b@[i as int]);
        let x: char = a[i];
        let y: char = b[i];
        if x != y {
            return before_char(x, y);
        }
        assert(a@.skip(i as int).skip(1) =~= a@.skip(i + 1));
        assert(b@.skip(i as int).skip(1) =~= b@.skip(i + 1));
        i += 1;
    }
}

/// The order of texts.
pub open spec fn text_order() -> spec_fn(Seq<char>, Seq<char>) -> bool {
    |a: Seq<char>, b: Seq<char>| text_less(a, b)
}

proof fn lemma_text_less_asymmetric(a: Seq<char>, b: Seq<char>)
    requires
        text_less(a, b),
    ensures
        !text_less(b, a),
    decreases a.len(),
{
    if a.len() > 0 && b.len() > 0 && a[0] == b[0] {
        lemma_text_less_asymmetric(a.skip(1), b.skip(1));
    }
}

proof fn lemma_text_ties(a: Seq<char>, b: Seq<char>, c: Seq<char>)
    requires
        !text_less(b, a),
        !text_less(c, b),
    ensures
        !text_less(c, a),
    decreases a.len(),
{
    if a.len() > 0 && b.len() > 0 && c.len() > 0 {
        if a[0] == b[0] && b[0] == c[0] {
            lemma_text_ties(a.skip(1), b.skip(1), c.skip(1));
        }
    }
}

/// Texts are ordered strictly, and no two different texts tie.
pub proof fn lemma_text_order()
    ensures
        orders(text_order()),
{
    assert forall|a: Seq<char>, b: Seq<char>| #[trigger] text_order()(a, b) implies !text_order()(
        b,
        a,
    ) by {
        lemma_text_less_asymmetric(a, b);
    }
    assert forall|a: Seq<char>, b: Seq<char>, c: Seq<char>|
        #![trigger text_order()(b, a), text_order()(c, b)]
        !text_order()(b, a) && !text_order()(c, b) implies !text_order()(c, a) by {
        lemma_text_ties(a, b, c);
    }
}

/// Sorts texts.
pub fn sort_texts(v: Vec<String>) -> (r: Vec<String>)
    ensures
        text::texts(r@) == sorted_by(text::texts(v@), text_order()),
{
    let mut out: Vec<String> = Vec::new();
    let mut i: usize = 0;
    let ghost all = text::texts(v@);
    assert(all.take(0) =~= Seq::empty());
    assert(text::texts(out@) =~= Seq::empty());
    while i < v.len()
        invariant
            i <= v.len(),
            all == text::texts(v@),
            text::texts(out@) == sorted_by(all.take(i as int), text_order()),
        decreases v.len() - i,
    {
        let x = chars_of(v[i].as_str());
        let ghost before = text::texts(out@);
        let mut p: usize = out.len();
        let mut moving = true;
        while p > 0 && moving
            invariant
                p <= out.len(),
                before == text::texts(out@),
                x@ == all[i as int],
                forall|j: int| p <= j < out.len() ==> text_less(x@, #[trigger] before[j]),
                !moving ==> p > 0 && !text_less(x@, before[p - 1]),
            decreases p + (if moving { 1int } else { 0int }),
        {
            let y = chars_of(out[p - 1].as_str());
            assert(before[p - 1] == y@);
            if is_text_less(&x, &y) {
                p -= 1;
            } else {
                moving = false;
            }
        }
        proof {
            lemma_placed_insert(before, x@, text_order(), p as int);
            assert(all.take(i + 1).drop_last() =~= all.take(i as int));
            assert(all.take(i + 1).last() == x@);
        }
        out.insert(p, v[i].clone());
        assert(text::texts(out@) =~= before.insert(p as int, x@));
        i += 1;
    }
    assert(all.take(i as int) =~= all);
    out
}

/// The order of texts is transitive.
pub proof fn lemma_text_less_chain(a: Seq<char>, b: Seq<char>, c: Seq<char>)
    requires
        text_less(a, b),
        text_less(b, c),
    ensures
        text_less(a, c),
    decreases a.len(),
{
    if a.len() > 0 && a[0] == b[0] && b[0] == c[0] {
        lemma_text_less_chain(a.skip(1), b.skip(1), c.skip(1));
    }
}

/// Of two different texts one goes before the other.
pub proof fn lemma_text_less_total(a: Seq<char>, b: Seq<char>)
    requires
        a != b,
    ensures
        text_less(a, b) || text_less(b, a),
    decreases a.len(),
{
    if a.len() > 0 && b.len() > 0 {
        if a[0] == b[0] {
            if a.skip(1) == b.skip(1) {
                assert(a =~= seq![a[0]] + a.skip(1));
                assert(b =~= seq![b[0]] + b.skip(1));
            }
            lemma_text_less_total(a.skip(1), b.skip(1));
        }
    } else if a.len() == 0 && b.len() == 0 {
        assert(a =~= b);
    }
}

/// No text goes before itself.
pub proof fn lemma_text_less_irreflexive(a: Seq<char>)
    ensures
        !text_less(a, a),
    decreases a.len(),
{
    if a.len() > 0 {
        lemma_text_less_irreflexive(a.skip(1));
    }
}

} // verus!
