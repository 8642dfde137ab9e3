//! Text primitives: whitespace, searching, splitting, joining and decimal numerals.
//!
//! Text is modelled as a sequence of characters (`Seq<char>`).
use vstd::prelude::*;
use vstd::string::*;

verus! {

/// `String::push` appends one character to the end of the string.
pub assume_specification[ String::push ](s: &mut String, c: char)
    ensures
        final(s)@ == old(s)@.push(c),
;

/// A sequence of texts, by their characters.
pub open spec fn texts(v: Seq<String>) -> Seq<Seq<char>> {
    v.map_values(|s: String| s@)
}

/// An optional text, by its characters.
pub open spec fn opt_text(o: Option<String>) -> Option<Seq<char>> {
    match o {
        Some(s) => Some(s@),
        None => None,
    }
}

/// The characters of `s`, in order.
pub fn chars_of(s: &str) -> (r: Vec<char>)
    ensures
        r@ == s@,
{
    let mut out: Vec<char> = Vec::new();
    for c in it: s.chars()
        invariant
            out@ == it.seq().take(it.index()),
            it.seq() == s@,
    {
        out.push(c);
        assert(out@ == it.seq().take(it.index() + 1));
    }
    assert(out@ == s@);
    out
}

/// The text made of `chars[from..to]`.
pub fn string_of(chars: &Vec<char>, from: usize, to: usize) -> (r: String)
    requires
        from <= to <= chars@.len(),
    ensures
        r@ == chars@.subrange(from as int, to as int),
{
    let mut out = String::new();
    let mut i: usize = from;
    while i < to
        invariant
            from <= i <= to <= chars@.len(),
            out@ == chars@.subrange(from as int, i as int),
        decreases to - i,
    {
        out.push(chars[i]);
        i += 1;
        assert(out@ == chars@.subrange(from as int, i as int));
    }
    out
}

/// An owned copy of `s`.
pub fn owned(s: &str) -> (r: String)
    ensures
        r@ == s@,
{
    s.to_owned()
}

/// Whether two texts are equal.
pub fn same(a: &str, b: &str) -> (r: bool)
    ensures
        r == (a@ == b@),
{
    let x = owned(a);
    let y = owned(b);
    x == y
}

/// `a` followed by `b`.
pub fn cat(a: &str, b: &str) -> (r: String)
    ensures
        r@ == a@ + b@,
{
    let mut out = owned(a);
    out.append(b);
    out
}

/// `a`, `b` and `c`, one after the other.
pub fn cat3(a: &str, b: &str, c: &str) -> (r: String)
    ensures
        r@ == a@ + b@ + c@,
{
    let mut out = owned(a);
    out.append(b);
    out.append(c);
    out
}

/// A copy of an optional text.
pub fn opt_clone(o: &Option<String>) -> (r: Option<String>)
    ensures
        opt_text(r) == opt_text(*o),
{
    match o {
        Some(s) => Some(s.clone()),
        None => None,
    }
}

/// What an optional text holds.
pub open spec fn given(o: Option<&str>) -> Option<Seq<char>> {
    match o {
        Some(s) => Some(s@),
        None => None,
    }
}

/// An owned copy of an optional text.
pub fn opt_owned(o: Option<&str>) -> (r: Option<String>)
    ensures
        opt_text(r) == given(o),
{
    match o {
        Some(s) => Some(owned(s)),
        None => None,
    }
}

/// A copy of a list of texts.
pub fn texts_clone(v: &Vec<String>) -> (r: Vec<String>)
    ensures
        texts(r@) == texts(v@),
{
    let r = v.clone();
    assert(texts(r@) =~= texts(v@));
    r
}

// ===== whitespace =====

/// The Unicode White_Space property.
pub open spec fn is_space(c: char) -> bool {
    let n = c as u32;
    ||| 0x9 <= n <= 0xd
    ||| n == 0x20
    ||| n == 0x85
    ||| n == 0xa0
    ||| n == 0x1680
    ||| 0x2000 <= n <= 0x200a
    ||| n == 0x2028
    ||| n == 0x2029
    ||| n == 0x202f
    ||| n == 0x205f
    ||| n == 0x3000
}

/// Whether `c` has the Unicode White_Space property.
pub fn white_space(c: char) -> (r: bool)
    ensures
        r == is_space(c),
{
    let n: u32 = c as u32;
    (0x9 <= n && n <= 0xd) || n == 0x20 || n == 0x85 || n == 0xa0 || n == 0x1680 || (0x2000 <= n
        && n <= 0x200a) || n == 0x2028 || n == 0x2029 || n == 0x202f || n == 0x205f || n == 0x3000
}

/// `s` without its leading whitespace.
pub open spec fn trim_start(s: Seq<char>) -> Seq<char>
    decreases s.len(),
{
    if s.len() > 0 && is_space(s[0]) {
        trim_start(s.skip(1))
    } else {
        s
    }
}

/// `s` without its trailing whitespace.
pub open spec fn trim_end(s: Seq<char>) -> Seq<char>
    decreases s.len(),
{
    if s.len() > 0 && is_space(s.last()) {
        trim_end(s.drop_last())
    } else {
        s
    }
}

/// `s` without its leading and trailing whitespace.
pub open spec fn trim(s: Seq<char>) -> Seq<char> {
    trim_end(trim_start(s))
}

/// Whether `s` holds nothing but whitespace.
pub open spec fn blank(s: Seq<char>) -> bool {
    forall|i: int| 0 <= i < s.len() ==> is_space(#[trigger] s[i])
}

/// Whether an optional text is missing or blank.
pub open spec fn opt_blank(o: Option<Seq<char>>) -> bool {
    match o {
        Some(s) => blank(s),
        None => true,
    }
}

/// Trimming keeps a text whose first and last characters are not whitespace.
pub proof fn lemma_trim_tight(s: Seq<char>)
    requires
        s.len() > 0 ==> !is_space(s[0]) && !is_space(s.last()),
    ensures
        trim(s) == s,
{
}

/// Whether `s` holds nothing but whitespace.
pub fn is_blank(s: &str) -> (r: bool)
    ensures
        r == blank(s@),
{
    let v = chars_of(s);
    let mut i: usize = 0;
    while i < v.len()
        invariant
            i <= v@.len(),
            v@ == s@,
            forall|j: int| 0 <= j < i ==> is_space(#[trigger] s@[j]),
        decreases v@.len() - i,
    {
        if !white_space(v[i]) {
            assert(!is_space(s@[i as int]));
            return false;
        }
        i += 1;
    }
    true
}

/// Whether an optional text is missing or blank.
pub fn is_opt_blank(o: &Option<String>) -> (r: bool)
    ensures
        r == opt_blank(opt_text(*o)),
{
    match o {
        Some(s) => is_blank(s.as_str()),
        None => true,
    }
}

/// `s` without its leading and trailing whitespace.
pub fn trimmed(s: &str) -> (r: String)
    ensures
        r@ == trim(s@),
{
    let v = chars_of(s);
    let mut from: usize = 0;
    assert(s@.skip(0) =~= s@);
    while from < v.len() && white_space(v[from])
        invariant
            from <= v@.len(),
            v@ == s@,
            trim_start(s@) == trim_start(s@.skip(from as int)),
        decreases v@.len() - from,
    {
        assert(s@.skip(from as int).skip(1) =~= s@.skip(from + 1));
        assert(s@.skip(from as int)[0] == s@[from as int]);
        from += 1;
    }
    proof {
        if from < v@.len() {
            assert(s@.skip(from as int)[0] == s@[from as int]);
        }
        assert(trim_start(s@) == s@.skip(from as int));
    }
    let mut to: usize = v.len();
    assert(s@.skip(from as int) =~= v@.subrange(from as int, to as int));
    while to > from && white_space(v[to - 1])
        invariant
            from <= to <= v@.len(),
            trim(s@) == trim_end(v@.subrange(from as int, to as int)),
        decreases to,
    {
        let ghost cur = v@.subrange(from as int, to as int);
        assert(cur.last() == v@[to - 1]);
        assert(cur.drop_last() =~= v@.subrange(from as int, to - 1));
        to -= 1;
    }
    proof {
        let cur = v@.subrange(from as int, to as int);
        if to > from {
            assert(cur.last() == v@[to - 1]);
        }
    }
    string_of(&v, from, to)
}

// ===== searching =====

/// Whether `needle` occurs in `s` at position `i`.
pub open spec fn occurs_at(s: Seq<char>, needle: Seq<char>, i: int) -> bool {
    0 <= i && i + needle.len() <= s.len() && s.subrange(i, i + needle.len()) == needle
}

/// Whether `needle` occurs somewhere in `s`.
pub open spec fn has_text(s: Seq<char>, needle: Seq<char>) -> bool {
    exists|i: int| occurs_at(s, needle, i)
}

/// What occurs in a text occurs in each text that begins with it.
pub proof fn lemma_has_text_front(a: Seq<char>, b: Seq<char>, p: Seq<char>)
    requires
        has_text(a, p),
    ensures
        has_text(a + b, p),
{
    let i = choose|i: int| occurs_at(a, p, i);
    assert((a + b).subrange(i, i + p.len()) =~= a.subrange(i, i + p.len()));
    assert(occurs_at(a + b, p, i));
}

/// What occurs in a text occurs in each text that ends with it.
pub proof fn lemma_has_text_back(a: Seq<char>, b: Seq<char>, p: Seq<char>)
    requires
        has_text(b, p),
    ensures
        has_text(a + b, p),
{
    let i = choose|i: int| occurs_at(b, p, i);
    let at = a.len() + i;
    assert((a + b).subrange(at, at + p.len()) =~= b.subrange(i, i + p.len()));
    assert(occurs_at(a + b, p, at));
}

/// A text occurs in itself.
pub proof fn lemma_has_itself(s: Seq<char>)
    ensures
        has_text(s, s),
{
    assert(s.subrange(0, s.len() as int) =~= s);
    assert(occurs_at(s, s, 0));
}

/// Whether `s` begins with `p`.
pub open spec fn begins(s: Seq<char>, p: Seq<char>) -> bool {
    occurs_at(s, p, 0)
}

/// Whether `s` ends with `p`.
pub open spec fn ends(s: Seq<char>, p: Seq<char>) -> bool {
    occurs_at(s, p, s.len() - p.len())
}

/// Whether the characters of `needle` stand in `v` at position `at`.
pub fn matches_at(v: &Vec<char>, needle: &Vec<char>, at: usize) -> (r: bool)
    ensures
        r == occurs_at(v@, needle@, at as int),
{
    if at > v.len() || needle.len() > v.len() - at {
        return false;
    }
    let mut i: usize = 0;
    while i < needle.len()
        invariant
            i <= needle@.len(),
            at + needle@.len() <= v.len(),
            forall|j: int| 0 <= j < i ==> v@[at + j] == needle@[j],
        decreases needle@.len() - i,
    {
        if v[at + i] != needle[i] {
            assert(v@.subrange(at as int, at + needle@.len())[i as int] == v@[at + i]);
            return false;
        }
        i += 1;
    }
    assert(v@.subrange(at as int, at + needle@.len()) =~= needle@);
    true
}

/// The first position at which `needle` occurs in `v`, looking from `from` on.
pub fn find_from(v: &Vec<char>, needle: &Vec<char>, from: usize) -> (r: Option<usize>)
    requires
        from <= v@.len(),
    ensures
        match r {
            Some(i) => {
                &&& from <= i
                &&& occurs_at(v@, needle@, i as int)
                &&& forall|j: int| from <= j < i ==> !#[trigger] occurs_at(v@, needle@, j)
            },
            None => forall|j: int| from <= j ==> !#[trigger] occurs_at(v@, needle@, j),
        },
{
    let mut i: usize = from;
    while i < v.len()
        invariant
            from <= i <= v@.len(),
            forall|j: int| from <= j < i ==> !#[trigger] occurs_at(v@, needle@, j),
        decreases v@.len() - i,
    {
        if matches_at(v, needle, i) {
            return Some(i);
        }
        i += 1;
    }
    if matches_at(v, needle, i) {
        return Some(i);
    }
    None
}

/// Whether `needle` occurs somewhere in `s`.
pub fn contains_text(s: &str, needle: &str) -> (r: bool)
    ensures
        r == has_text(s@, needle@),
{
    let v = chars_of(s);
    let n = chars_of(needle);
    match find_from(&v, &n, 0) {
        Some(i) => {
            assert(occurs_at(s@, needle@, i as int));
            true
        },
        None => false,
    }
}

/// Whether `s` begins with `p`.
pub fn starts_with(s: &str, p: &str) -> (r: bool)
    ensures
        r == begins(s@, p@),
{
    let v = chars_of(s);
    let n = chars_of(p);
    matches_at(&v, &n, 0)
}

/// What follows the prefix `p` of `s`, where `s` begins with `p`.
pub open spec fn after_prefix(s: Seq<char>, p: Seq<char>) -> Option<Seq<char>> {
    if begins(s, p) {
        Some(s.skip(p.len() as int))
    } else {
        None
    }
}

/// What precedes the suffix `p` of `s`, where `s` ends with `p`.
pub open spec fn before_suffix(s: Seq<char>, p: Seq<char>) -> Option<Seq<char>> {
    if ends(s, p) {
        Some(s.take(s.len() - p.len()))
    } else {
        None
    }
}

/// What follows the prefix `p` of `s`, where `s` begins with `p`.
pub fn strip_prefix(s: &str, p: &str) -> (r: Option<String>)
    ensures
        opt_text(r) == after_prefix(s@, p@),
{
    let v = chars_of(s);
    let n = chars_of(p);
    if matches_at(&v, &n, 0) {
        assert(v@.subrange(n@.len() as int, v@.len() as int) =~= s@.skip(p@.len() as int));
        Some(string_of(&v, n.len(), v.len()))
    } else {
        None
    }
}

/// What precedes the suffix `p` of `s`, where `s` ends with `p`.
pub fn strip_suffix(s: &str, p: &str) -> (r: Option<String>)
    ensures
        opt_text(r) == before_suffix(s@, p@),
{
    let v = chars_of(s);
    let n = chars_of(p);
    if n.len() <= v.len() && matches_at(&v, &n, v.len() - n.len()) {
        let to: usize = v.len() - n.len();
        assert(v@.subrange(0, to as int) =~= s@.take(s@.len() - p@.len()));
        Some(string_of(&v, 0, to))
    } else {
        None
    }
}

/// Whether `item` is one of `list`.
pub open spec fn among(item: Seq<char>, list: Seq<Seq<char>>) -> bool {
    list.contains(item)
}

/// Whether `item` is one of `list`.
pub fn is_among(item: &str, list: &Vec<String>) -> (r: bool)
    ensures
        r == among(item@, texts(list@)),
{
    let mut i: usize = 0;
    while i < list.len()
        invariant
            i <= list@.len(),
            forall|j: int| 0 <= j < i ==> #[trigger] texts(list@)[j] != item@,
        decreases list@.len() - i,
    {
        if same(list[i].as_str(), item) {
            assert(texts(list@)[i as int] == item@);
            return true;
        }
        i += 1;
    }
    false
}

// ===== splitting and joining =====

/// The pieces of `s` between the characters that satisfy `sep`.
pub open spec fn pieces(s: Seq<char>, sep: spec_fn(char) -> bool) -> Seq<Seq<char>>
    decreases s.len(),
{
    if s.len() == 0 {
        seq![Seq::<char>::empty()]
    } else {
        let p = pieces(s.drop_last(), sep);
        if sep(s.last()) {
            p.push(Seq::<char>::empty())
        } else {
            p.drop_last().push(p.last().push(s.last()))
        }
    }
}

pub proof fn lemma_pieces_nonempty(s: Seq<char>, sep: spec_fn(char) -> bool)
    ensures
        pieces(s, sep).len() > 0,
    decreases s.len(),
{
    if s.len() > 0 {
        lemma_pieces_nonempty(s.drop_last(), sep);
    }
}

/// The pieces of `s` between occurrences of the character `sep`.
pub open spec fn split_on(s: Seq<char>, sep: char) -> Seq<Seq<char>> {
    pieces(s, equals(sep))
}

/// The predicate that holds of `sep` alone.
pub open spec fn equals(sep: char) -> spec_fn(char) -> bool {
    |c: char| c == sep
}

/// The pieces of `v` between occurrences of the character `sep`.
pub fn split(v: &Vec<char>, sep: char) -> (r: Vec<String>)
    ensures
        texts(r@) == split_on(v@, sep),
        r@.len() > 0,
{
    let ghost f = equals(sep);
    let mut out: Vec<String> = Vec::new();
    let mut cur = String::new();
    let mut i: usize = 0;
    assert(v@.take(0) =~= Seq::<char>::empty());
    assert(texts(out@).push(cur@) =~= pieces(v@.take(0), f));
    while i < v.len()
        invariant
            i <= v@.len(),
            f == equals(sep),
            texts(out@).push(cur@) == pieces(v@.take(i as int), f),
        decreases v@.len() - i,
    {
        let ghost pre = v@.take(i as int);
        let ghost p = pieces(pre, f);
        assert(v@.take(i + 1).drop_last() =~= pre);
        assert(v@.take(i + 1).last() == v@[i as int]);
        if v[i] == sep {
            let ghost before = texts(out@);
            let ghost piece = cur@;
            out.push(cur);
            assert(texts(out@) =~= before.push(piece));
            cur = String::new();
        } else {
            assert(p.drop_last() =~= texts(out@));
            assert(p.last() == cur@);
            cur.push(v[i]);
        }
        i += 1;
    }
    assert(v@.take(v@.len() as int) =~= v@);
    let ghost before = texts(out@);
    let ghost piece = cur@;
    out.push(cur);
    assert(texts(out@) =~= before.push(piece));
    out
}

/// `parts` with `sep` between each two neighbours.
pub open spec fn joined(parts: Seq<Seq<char>>, sep: Seq<char>) -> Seq<char>
    decreases parts.len(),
{
    if parts.len() == 0 {
        Seq::empty()
    } else if parts.len() == 1 {
        parts[0]
    } else {
        joined(parts.drop_last(), sep) + sep + parts.last()
    }
}

/// `parts` with `sep` between each two neighbours.
pub fn join(parts: &Vec<String>, sep: &str) -> (r: String)
    ensures
        r@ == joined(texts(parts@), sep@),
{
    let mut out = String::new();
    let mut i: usize = 0;
    let ghost all = texts(parts@);
    assert(all.take(0) =~= Seq::<Seq<char>>::empty());
    while i < parts.len()
        invariant
            i <= parts@.len(),
            all == texts(parts@),
            out@ == joined(all.take(i as int), sep@),
        decreases parts@.len() - i,
    {
        assert(all.take(i + 1).drop_last() =~= all.take(i as int));
        assert(all.take(i + 1).last() == all[i as int]);
        if i > 0 {
            out.append(sep);
        } else {
            assert(out@ =~= Seq::<char>::empty());
        }
        out.append(parts[i].as_str());
        i += 1;
        if i == 1 {
            assert(out@ =~= all[0]);
        }
    }
    assert(all.take(parts@.len() as int) =~= all);
    out
}

/// The strings of `list` that are not empty.
pub open spec fn nonempty(list: Seq<Seq<char>>) -> Seq<Seq<char>> {
    list.filter(|p: Seq<char>| p.len() > 0)
}

/// The strings of `list` that are not empty, in order.
pub fn keep_nonempty(list: Vec<String>) -> (r: Vec<String>)
    ensures
        texts(r@) == nonempty(texts(list@)),
{
    let ghost all = texts(list@);
    let ghost f = |p: Seq<char>| p.len() > 0;
    let mut out: Vec<String> = Vec::new();
    let mut i: usize = 0;
    assert(all.take(0).filter(f) =~= Seq::<Seq<char>>::empty()) by {
        reveal(Seq::filter);
    }
    assert(texts(out@) =~= all.take(0).filter(f));
    while i < list.len()
        invariant
            i <= list@.len(),
            all == texts(list@),
            f == (|p: Seq<char>| p.len() > 0),
            texts(out@) == all.take(i as int).filter(f),
        decreases list@.len() - i,
    {
        proof {
            lemma_filter_take(all, f, i as int);
        }
        if !list[i].as_str().is_empty() {
            let ghost before = texts(out@);
            out.push(list[i].clone());
            assert(texts(out@) =~= before.push(list@[i as int]@));
        }
        i += 1;
    }
    assert(all.take(list@.len() as int) =~= all);
    out
}

/// Filtering one element more.
pub proof fn lemma_filter_take<T>(s: Seq<T>, f: spec_fn(T) -> bool, i: int)
    requires
        0 <= i < s.len(),
    ensures
        s.take(i + 1).filter(f) == (if f(s[i]) {
            s.take(i).filter(f).push(s[i])
        } else {
            s.take(i).filter(f)
        }),
{
    reveal(Seq::filter);
    assert(s.take(i + 1).drop_last() =~= s.take(i));
    assert(s.take(i + 1).last() == s[i]);
}

/// What a filter keeps satisfies it, and was there.
pub proof fn lemma_filter_keeps<T>(s: Seq<T>, f: spec_fn(T) -> bool, k: int)
    requires
        0 <= k < s.filter(f).len(),
    ensures
        f(s.filter(f)[k]),
        s.contains(s.filter(f)[k]),
    decreases s.len(),
{
    reveal(Seq::filter);
    if s.len() > 0 {
        let front = s.drop_last();
        if k < front.filter(f).len() {
            lemma_filter_keeps(front, f, k);
            let at = choose|at: int| 0 <= at < front.len() && front[at] == front.filter(f)[k];
            assert(s[at] == s.filter(f)[k]);
        } else {
            assert(s[s.len() - 1] == s.filter(f)[k]);
        }
    }
}

/// `s` with every occurrence of `from` replaced by `to`, scanning from the left.
pub open spec fn replaced(s: Seq<char>, from: Seq<char>, to: Seq<char>) -> Seq<char>
    decreases s.len(),
{
    if s.len() == 0 || from.len() == 0 {
        s
    } else if begins(s, from) {
        to + replaced(s.skip(from.len() as int), from, to)
    } else {
        seq![s[0]] + replaced(s.skip(1), from, to)
    }
}

/// `s` with every occurrence of `from` replaced by `to`, scanning from the left.
pub fn replace(s: &str, from: &str, to: &str) -> (r: String)
    requires
        from@.len() > 0,
    ensures
        r@ == replaced(s@, from@, to@),
{
    let v = chars_of(s);
    let n = chars_of(from);
    let mut out = String::new();
    let mut i: usize = 0;
    assert(s@.skip(0) =~= s@);
    assert(out@ + replaced(s@.skip(0), from@, to@) =~= replaced(s@, from@, to@));
    while i < v.len()
        invariant
            i <= v@.len(),
            v@ == s@,
            n@ == from@,
            n@.len() > 0,
            out@ + replaced(s@.skip(i as int), from@, to@) == replaced(s@, from@, to@),
        decreases v@.len() - i,
    {
        let ghost rest = s@.skip(i as int);
        let ghost before = out@;
        proof {
            lemma_occurs_skip(s@, from@, i as int);
        }
        if matches_at(&v, &n, i) {
            out.append(to);
            assert(rest.skip(from@.len() as int) =~= s@.skip(i + from@.len()));
            i += n.len();
            assert(out@ + replaced(s@.skip(i as int), from@, to@) =~= before + (to@ + replaced(
                s@.skip(i as int),
                from@,
                to@,
            )));
        } else {
            out.push(v[i]);
            assert(rest.skip(1) =~= s@.skip(i + 1));
            assert(rest[0] == s@[i as int]);
            i += 1;
            assert(out@ + replaced(s@.skip(i as int), from@, to@) =~= before + (seq![
                rest[0],
            ] + replaced(s@.skip(i as int), from@, to@)));
        }
    }
    assert(s@.skip(i as int) =~= Seq::<char>::empty());
    assert(out@ =~= replaced(s@, from@, to@));
    out
}

/// An occurrence at `i` is an occurrence at the start of what follows `i`.
pub proof fn lemma_occurs_skip(s: Seq<char>, p: Seq<char>, i: int)
    requires
        0 <= i <= s.len(),
    ensures
        occurs_at(s, p, i) == begins(s.skip(i), p),
{
    if i + p.len() <= s.len() {
        assert(s.skip(i).subrange(0, p.len() as int) =~= s.subrange(i, i + p.len()));
    }
}

// ===== decimal numerals =====

/// The decimal digit for `d`.
pub open spec fn digit(d: int) -> char {
    if d == 0 {
        '0'
    } else if d == 1 {
        '1'
    } else if d == 2 {
        '2'
    } else if d == 3 {
        '3'
    } else if d == 4 {
        '4'
    } else if d == 5 {
        '5'
    } else if d == 6 {
        '6'
    } else if d == 7 {
        '7'
    } else if d == 8 {
        '8'
    } else {
        '9'
    }
}

/// Whether `c` is a decimal digit.
pub open spec fn is_digit(c: char) -> bool {
    '0' <= c <= '9'
}

/// The decimal numeral of `n`.
pub open spec fn numeral(n: nat) -> Seq<char>
    decreases n,
{
    if n < 10 {
        seq![digit(n as int)]
    } else {
        numeral(n / 10).push(digit((n % 10) as int))
    }
}

/// The decimal numeral of `i`, with a leading minus sign where it is negative.
pub open spec fn decimal(i: int) -> Seq<char> {
    if i < 0 {
        seq!['-'] + numeral((-i) as nat)
    } else {
        numeral(i as nat)
    }
}

/// The number that a sequence of decimal digits denotes.
pub open spec fn value_of(s: Seq<char>) -> nat
    decreases s.len(),
{
    if s.len() == 0 {
        0
    } else {
        value_of(s.drop_last()) * 10 + (s.last() as nat - '0' as nat) as nat
    }
}

/// Whether `s` is made of decimal digits alone.
pub open spec fn all_digits(s: Seq<char>) -> bool {
    forall|i: int| 0 <= i < s.len() ==> is_digit(#[trigger] s[i])
}

/// The 64-bit integer that `s` denotes: an optional sign, then digits.
pub open spec fn integer(s: Seq<char>) -> Option<i64> {
    let signed = s.len() > 0 && (s[0] == '-' || s[0] == '+');
    let body = if signed {
        s.skip(1)
    } else {
        s
    };
    let v: int = if signed && s[0] == '-' {
        -(value_of(body) as int)
    } else {
        value_of(body) as int
    };
    if body.len() > 0 && all_digits(body) && i64::MIN <= v <= i64::MAX {
        Some(v as i64)
    } else {
        None
    }
}

fn digit_char(d: u128) -> (c: char)
    requires
        d < 10,
    ensures
        c == digit(d as int),
{
    if d == 0 {
        '0'
    } else if d == 1 {
        '1'
    } else if d == 2 {
        '2'
    } else if d == 3 {
        '3'
    } else if d == 4 {
        '4'
    } else if d == 5 {
        '5'
    } else if d == 6 {
        '6'
    } else if d == 7 {
        '7'
    } else if d == 8 {
        '8'
    } else {
        '9'
    }
}

/// The decimal numeral of `n`.
pub fn natural_text(n: u128) -> (r: String)
    ensures
        r@ == numeral(n as nat),
    decreases n,
{
    if n < 10 {
        let mut s = String::new();
        s.push(digit_char(n));
        assert(s@ =~= seq![digit(n as int)]);
        s
    } else {
        let mut s = natural_text(n / 10);
        s.push(digit_char(n % 10));
        s
    }
}

/// The decimal numeral of `i`.
pub fn int_text(i: i64) -> (r: String)
    ensures
        r@ == decimal(i as int),
{
    if i < 0 {
        let m: u64 = (-(i + 1)) as u64 + 1;
        let mut s = String::new();
        s.push('-');
        s.append(natural_text(m as u128).as_str());
        assert(s@ =~= seq!['-'] + numeral(m as nat));
        s
    } else {
        natural_text(i as u128)
    }
}

proof fn lemma_value_grows(s: Seq<char>, i: int)
    requires
        0 <= i <= s.len(),
        all_digits(s),
    ensures
        value_of(s.take(i)) <= value_of(s),
    decreases s.len() - i,
{
    if i < s.len() {
        lemma_value_grows(s, i + 1);
        assert(s.take(i + 1).drop_last() =~= s.take(i));
    } else {
        assert(s.take(i) =~= s);
    }
}

/// The 64-bit integer that `s` denotes.
pub fn parse_int(s: &str) -> (r: Option<i64>)
    ensures
        r == integer(s@),
{
    let v = chars_of(s);
    if v.len() == 0 {
        return None;
    }
    let signed: bool = v[0] == '-' || v[0] == '+';
    let negative: bool = v[0] == '-';
    let start: usize = if signed {
        1
    } else {
        0
    };
    let ghost body = s@.skip(start as int);
    assert(!signed ==> body =~= s@);
    if v.len() == start {
        return None;
    }
    let limit: u128 = 9_223_372_036_854_775_808;
    let mut acc: u128 = 0;
    let mut i: usize = start;
    assert(body.take(0) =~= Seq::<char>::empty());
    while i < v.len()
        invariant
            start <= i <= v@.len(),
            start <= 1,
            v@ == s@,
            body == s@.skip(start as int),
            limit == 9_223_372_036_854_775_808,
            acc <= limit,
            acc == value_of(body.take(i - start)),
            all_digits(body.take(i - start)),
            signed == (s@[0] == '-' || s@[0] == '+'),
            start == (if signed {
                1int
            } else {
                0int
            }),
            s@.len() > 0,
            body.len() > 0,
        decreases v@.len() - i,
    {
        let c = v[i];
        let ghost k = i - start;
        assert(body[k] == c);
        assert(body.take(k + 1).drop_last() =~= body.take(k));
        assert(body.take(k + 1).last() == c);
        if !('0' <= c && c <= '9') {
            assert(!is_digit(body[k]));
            assert(!signed ==> body =~= s@);
            return None;
        }
        let d: u128 = (c as u32 - '0' as u32) as u128;
        acc = acc * 10 + d;
        i += 1;
        assert(all_digits(body.take(k + 1))) by {
            assert forall|j: int| 0 <= j < k + 1 implies is_digit(
                #[trigger] body.take(k + 1)[j],
            ) by {
                if j < k {
                    assert(body.take(k)[j] == body.take(k + 1)[j]);
                }
            }
        }
        if acc > limit {
            proof {
                if all_digits(body) {
                    lemma_value_grows(body, k + 1);
                }
                assert(!signed ==> body =~= s@);
            }
            return None;
        }
    }
    assert(body.take(body.len() as int) =~= body);
    assert(!signed ==> body =~= s@);
    if negative {
        if acc == limit {
            Some(i64::MIN)
        } else {
            Some(-(acc as i64))
        }
    } else if acc == limit {
        None
    } else {
        Some(acc as i64)
    }
}

pub proof fn lemma_numeral_value(n: nat)
    ensures
        value_of(numeral(n)) == n,
        all_digits(numeral(n)),
        numeral(n).len() > 0,
    decreases n,
{
    if n < 10 {
        let one = seq![digit(n as int)];
        assert(one.drop_last() =~= Seq::<char>::empty());
        assert(value_of(Seq::<char>::empty()) == 0);
        assert(one.last() == digit(n as int));
    } else {
        lemma_numeral_value(n / 10);
        let head = numeral(n / 10);
        let d = digit((n % 10) as int);
        assert(head.push(d).drop_last() =~= head);
        assert(head.push(d).last() == d);
        assert forall|i: int| 0 <= i < head.push(d).len() implies is_digit(
            #[trigger] head.push(d)[i],
        ) by {
            if i < head.len() {
                assert(head.push(d)[i] == head[i]);
            }
        }
    }
}

pub proof fn lemma_decimal_chars(i: int)
    ensures
        forall|k: int|
            0 <= k < decimal(i).len() ==> is_digit(#[trigger] decimal(i)[k]) || decimal(i)[k] == '-',
{
    let n: nat = if i < 0 {
        (-i) as nat
    } else {
        i as nat
    };
    lemma_numeral_value(n);
    if i < 0 {
        assert forall|k: int| 0 <= k < decimal(i).len() implies is_digit(#[trigger] decimal(i)[k])
            || decimal(i)[k] == '-' by {
            if k > 0 {
                assert(decimal(i)[k] == numeral(n)[k - 1]);
            }
        }
    }
}

/// Reading back the numeral of a 64-bit integer gives the integer.
pub proof fn lemma_decimal_reads_back(i: i64)
    ensures
        integer(decimal(i as int)) == Some(i),
{
    if i < 0 {
        let body = numeral((-i) as nat);
        lemma_numeral_value((-i) as nat);
        assert(decimal(i as int).skip(1) =~= body);
    } else {
        let body = numeral(i as nat);
        lemma_numeral_value(i as nat);
        assert(is_digit(body[0]));
    }
}

/// Whether a text is one of a fixed list.
pub open spec fn listed(name: Seq<char>, list: Seq<&str>) -> bool {
    exists|i: int| 0 <= i < list.len() && (#[trigger] list[i])@ == name
}

/// Whether a text is one of a fixed list.
pub fn is_listed(name: &str, list: &[&str]) -> (r: bool)
    ensures
        r == listed(name@, list@),
{
    let mut i: usize = 0;
    while i < list.len()
        invariant
            i <= list.len(),
            forall|j: int| 0 <= j < i ==> (#[trigger] list@[j])@ != name@,
        decreases list.len() - i,
    {
        if same(list[i], name) {
            return true;
        }
        i += 1;
    }
    false
}

/// A character, with an ASCII capital made small.
pub open spec fn ascii_small(c: char) -> int {
    if 'A' <= c && c <= 'Z' {
        c as int + 32
    } else {
        c as int
    }
}

/// Whether two texts are the same but for ASCII capitals.
pub open spec fn same_but_case(a: Seq<char>, b: Seq<char>) -> bool {
    a.len() == b.len() && forall|i: int|
        0 <= i < a.len() ==> ascii_small(#[trigger] a[i]) == ascii_small(b[i])
}

fn small_code(c: char) -> (r: u32)
    ensures
        r == ascii_small(c),
{
    if 'A' <= c && c <= 'Z' {
        c as u32 + 32
    } else {
        c as u32
    }
}

/// Whether two texts are the same but for ASCII capitals.
pub fn equal_but_case(a: &str, b: &str) -> (r: bool)
    ensures
        r == same_but_case(a@, b@),
{
    let x = chars_of(a);
    let y = chars_of(b);
    if x.len() != y.len() {
        return false;
    }
    let mut i: usize = 0;
    while i < x.len()
        invariant
            i <= x.len(),
            x.len() == y.len(),
            x@ == a@,
            y@ == b@,
            forall|j: int| 0 <= j < i ==> ascii_small(#[trigger] x@[j]) == ascii_small(y@[j]),
        decreases x.len() - i,
    {
        if small_code(x[i]) != small_code(y[i]) {
            return false;
        }
        i += 1;
    }
    true
}

/// A text in lower case.
pub uninterp spec fn lowercase(s: Seq<char>) -> Seq<char>;

/// Whether a character is a capital letter of ASCII.
pub open spec fn is_ascii_capital(c: char) -> bool {
    'A' <= c <= 'Z'
}

/// Whether a text is made of characters of ASCII other than capital letters.
pub open spec fn is_ascii_small(s: Seq<char>) -> bool {
    forall|i: int| 0 <= i < s.len() ==> (#[trigger] s[i]) <= '\x7f' && !is_ascii_capital(s[i])
}

/// `str::to_lowercase`: the lower-case equivalent of a text, which depends on
/// the text alone and holds no capital letter of ASCII. A text of ASCII without
/// capital letters stays as it is.
#[verifier::external_body]
pub(crate) fn to_lower(s: &str) -> (r: String)
    ensures
        r@ == lowercase(s@),
        forall|i: int| 0 <= i < r@.len() ==> !is_ascii_capital(#[trigger] r@[i]),
        is_ascii_small(s@) ==> r@ == s@,
{
    s.to_lowercase()
}

/// Whether a character is alphabetic or numeric.
pub uninterp spec fn alphanumeric(c: char) -> bool;

/// `char::is_alphanumeric`: whether a character is alphabetic or numeric,
/// which depends on the character alone.
#[verifier::external_body]
pub(crate) fn is_alphanumeric(c: char) -> (r: bool)
    ensures
        r == alphanumeric(c),
{
    c.is_alphanumeric()
}

/// The pieces of `v` between the characters that `cut` marks.
pub(crate) fn split_where(v: &Vec<char>, cut: &Vec<bool>, sep: Ghost<spec_fn(char) -> bool>) -> (r:
    Vec<String>)
    requires
        cut.len() == v.len(),
        forall|i: int| 0 <= i < v.len() ==> #[trigger] cut@[i] == sep@(v@[i]),
    ensures
        texts(r@) == pieces(v@, sep@),
{
    let mut out: Vec<String> = Vec::new();
    let mut cur = String::new();
    let mut i: usize = 0;
    assert(v@.take(0) =~= Seq::<char>::empty());
    assert(texts(out@).push(cur@) =~= pieces(v@.take(0), sep@));
    while i < v.len()
        invariant
            i <= v.len(),
            cut.len() == v.len(),
            forall|j: int| 0 <= j < v.len() ==> #[trigger] cut@[j] == sep@(v@[j]),
            texts(out@).push(cur@) == pieces(v@.take(i as int), sep@),
        decreases v.len() - i,
    {
        let ghost pre = v@.take(i as int);
        let ghost p = pieces(pre, sep@);
        assert(v@.take(i + 1).drop_last() =~= pre);
        assert(v@.take(i + 1).last() == v@[i as int]);
        assert(cut@[i as int] == sep@(v@[i as int]));
        if cut[i] {
            let ghost before = texts(out@);
            let ghost piece = cur@;
            out.push(cur);
            assert(texts(out@) =~= before.push(piece));
            cur = String::new();
        } else {
            assert(p.drop_last() =~= texts(out@));
            assert(p.last() == cur@);
            cur.push(v[i]);
        }
        i += 1;
    }
    assert(v@.take(i as int) =~= v@);
    let ghost before = texts(out@);
    let ghost piece = cur@;
    out.push(cur);
    assert(texts(out@) =~= before.push(piece));
    out
}

/// `s` without the occurrences of `c` at its end.
pub open spec fn without_end(s: Seq<char>, c: char) -> Seq<char>
    decreases s.len(),
{
    if s.len() > 0 && s.last() == c {
        without_end(s.drop_last(), c)
    } else {
        s
    }
}

/// `s` without the occurrences of `c` at its end.
pub fn trim_end_char(s: &str, c: char) -> (r: String)
    ensures
        r@ == without_end(s@, c),
{
    let v = chars_of(s);
    let mut n: usize = v.len();
    assert(v@.take(n as int) =~= v@);
    while n > 0 && v[n - 1] == c
        invariant
            n <= v.len(),
            without_end(v@, c) == without_end(v@.take(n as int), c),
        decreases n,
    {
        assert(v@.take(n as int).drop_last() =~= v@.take(n - 1));
        n -= 1;
    }
    assert(v@.take(n as int) =~= v@.subrange(0, n as int));
    string_of(&v, 0, n)
}

/// What follows the first occurrence of `c`, where there is one.
pub open spec fn after_first(s: Seq<char>, c: char) -> Option<Seq<char>>
    decreases s.len(),
{
    if s.len() == 0 {
        None
    } else if s[0] == c {
        Some(s.skip(1))
    } else {
        after_first(s.skip(1), c)
    }
}

/// What follows the last occurrence of `c`, where there is one.
pub open spec fn after_last(s: Seq<char>, c: char) -> Option<Seq<char>>
    decreases s.len(),
{
    if s.len() == 0 {
        None
    } else if s.last() == c {
        Some(Seq::empty())
    } else {
        match after_last(s.drop_last(), c) {
            Some(t) => Some(t.push(s.last())),
            None => None,
        }
    }
}

/// What follows the first occurrence of `c`, where there is one.
pub fn tail_after_first(s: &str, c: char) -> (r: Option<String>)
    ensures
        opt_text(r) == after_first(s@, c),
{
    let v = chars_of(s);
    let mut i: usize = 0;
    assert(v@.skip(0) =~= v@);
    while i < v.len()
        invariant
            i <= v.len(),
            v@ == s@,
            after_first(v@, c) == after_first(v@.skip(i as int), c),
        decreases v.len() - i,
    {
        assert(v@.skip(i as int)[0] == v@[i as int]);
        assert(v@.skip(i as int).skip(1) =~= v@.skip(i + 1));
        if v[i] == c {
            assert(v@.skip(i + 1) =~= v@.subrange(i + 1, v@.len() as int));
            return Some(string_of(&v, i + 1, v.len()));
        }
        i += 1;
    }
    None
}

/// What follows the last occurrence of `c`, where there is one.
pub fn tail_after_last(s: &str, c: char) -> (r: Option<String>)
    ensures
        opt_text(r) == after_last(s@, c),
{
    let v = chars_of(s);
    let mut n: usize = v.len();
    assert(v@.take(n as int) =~= v@);
    proof {
        if let Some(t) = after_last(v@, c) {
            assert(t + v@.skip(n as int) =~= t);
        }
    }
    while n > 0
        invariant
            n <= v.len(),
            v@ == s@,
            after_last(v@, c) == (match after_last(v@.take(n as int), c) {
                Some(t) => Some(t + v@.skip(n as int)),
                None => None,
            }),
        decreases n,
    {
        let ghost front = v@.take(n as int);
        assert(front.last() == v@[n - 1]);
        assert(front.drop_last() =~= v@.take(n - 1));
        if v[n - 1] == c {
            assert(Seq::<char>::empty() + v@.skip(n as int) =~= v@.subrange(
                n as int,
                v@.len() as int,
            ));
            return Some(string_of(&v, n, v.len()));
        }
        proof {
            if let Some(t) = after_last(v@.take(n - 1), c) {
                assert(t.push(v@[n - 1]) + v@.skip(n as int) =~= t + v@.skip(n - 1));
            }
        }
        n -= 1;
    }
    assert(v@.take(0) =~= Seq::<char>::empty());
    None
}

/// What follows the first occurrence of `needle`, where there is one.
pub open spec fn after_text(s: Seq<char>, needle: Seq<char>) -> Option<Seq<char>>
    decreases s.len(),
{
    if begins(s, needle) {
        Some(s.skip(needle.len() as int))
    } else if s.len() == 0 {
        None
    } else {
        after_text(s.skip(1), needle)
    }
}

/// What follows the first occurrence of `needle`, where there is one.
pub fn tail_after(s: &str, needle: &str) -> (r: Option<String>)
    ensures
        opt_text(r) == after_text(s@, needle@),
{
    let v = chars_of(s);
    let n = chars_of(needle);
    let mut i: usize = 0;
    assert(v@.skip(0) =~= v@);
    loop
        invariant
            i <= v.len(),
            v@ == s@,
            n@ == needle@,
            after_text(v@, n@) == after_text(v@.skip(i as int), n@),
        decreases v.len() - i,
    {
        proof {
            lemma_occurs_skip(v@, n@, i as int);
        }
        if matches_at(&v, &n, i) {
            assert(v@.skip(i as int).skip(n@.len() as int) =~= v@.subrange(
                i + n@.len(),
                v@.len() as int,
            ));
            return Some(string_of(&v, i + n.len(), v.len()));
        }
        if i == v.len() {
            return None;
        }
        assert(v@.skip(i as int).skip(1) =~= v@.skip(i + 1));
        i += 1;
    }
}

// ===== layout =====

/// Each item behind `mark`, on a line of its own.
pub open spec fn lined(mark: Seq<char>, items: Seq<Seq<char>>) -> Seq<char>
    decreases items.len(),
{
    if items.len() == 0 {
        Seq::empty()
    } else {
        lined(mark, items.drop_last()) + mark + items.last() + "\n"@
    }
}

/// Each item has its line.
pub proof fn lemma_lined_has(mark: Seq<char>, items: Seq<Seq<char>>, k: int)
    requires
        0 <= k < items.len(),
    ensures
        has_text(lined(mark, items), mark + items[k] + "\n"@),
    decreases items.len(),
{
    let rest = lined(mark, items.drop_last());
    let last = mark + items.last() + "\n"@;
    assert(lined(mark, items) == rest + last) by {
        assert(rest + mark + items.last() + "\n"@ =~= rest + last);
    }
    if k < items.len() - 1 {
        assert(items.drop_last()[k] == items[k]);
        lemma_lined_has(mark, items.drop_last(), k);
        lemma_has_text_front(rest, last, mark + items[k] + "\n"@);
    } else {
        lemma_has_itself(last);
        lemma_has_text_back(rest, last, last);
    }
}

/// Each item behind `mark`, on a line of its own.
pub fn lines_of(mark: &str, items: &Vec<String>) -> (r: String)
    ensures
        r@ == lined(mark@, texts(items@)),
{
    let ghost all = texts(items@);
    let mut out = String::new();
    let mut i: usize = 0;
    assert(out@ =~= lined(mark@, all.take(0)));
    while i < items.len()
        invariant
            i <= items.len(),
            all == texts(items@),
            out@ == lined(mark@, all.take(i as int)),
        decreases items.len() - i,
    {
        assert(all.take(i + 1).drop_last() =~= all.take(i as int));
        assert(all.take(i + 1).last() == items@[i as int]@);
        out.append(mark);
        out.append(items[i].as_str());
        out.append("\n");
        i += 1;
    }
    assert(all.take(i as int) =~= all);
    out
}

/// A line that names a value, where there is one.
pub open spec fn named(label: Seq<char>, value: Option<Seq<char>>) -> Seq<char> {
    match value {
        Some(v) => label + v + "\n"@,
        None => Seq::empty(),
    }
}

/// A line that names a value, where there is one.
pub fn named_line(label: &str, value: &Option<String>) -> (r: String)
    ensures
        r@ == named(label@, opt_text(*value)),
{
    match value {
        Some(v) => cat3(label, v.as_str(), "\n"),
        None => {
            let r = String::new();
            assert(r@ =~= Seq::<char>::empty());
            r
        },
    }
}

/// `n` spaces.
pub open spec fn spaces(n: int) -> Seq<char> {
    Seq::new((if n > 0 { n } else { 0 }) as nat, |i: int| ' ')
}

fn add_spaces(out: &mut String, n: usize)
    ensures
        final(out)@ == old(out)@ + spaces(n as int),
{
    let mut i: usize = 0;
    assert(out@ =~= old(out)@ + spaces(0));
    while i < n
        invariant
            i <= n,
            out@ == old(out)@ + spaces(i as int),
        decreases n - i,
    {
        out.push(' ');
        i += 1;
        assert(out@ =~= old(out)@ + spaces(i as int));
    }
}

/// `s` with spaces behind it, up to `width` characters.
pub open spec fn left_aligned(s: Seq<char>, width: int) -> Seq<char> {
    s + spaces(width - s.len())
}

/// `s` with spaces before it, up to `width` characters.
pub open spec fn right_aligned(s: Seq<char>, width: int) -> Seq<char> {
    spaces(width - s.len()) + s
}

fn missing(s: &str, width: usize) -> (r: usize)
    ensures
        r == if width > s@.len() {
            width - s@.len()
        } else {
            0
        },
{
    let n = chars_of(s).len();
    if width > n {
        width - n
    } else {
        0
    }
}

/// `s` with spaces behind it, up to `width` characters.
pub fn align_left(s: &str, width: usize) -> (r: String)
    ensures
        r@ == left_aligned(s@, width as int),
{
    let mut out = owned(s);
    let n = missing(s, width);
    add_spaces(&mut out, n);
    assert(spaces(n as int) =~= spaces(width - s@.len()));
    out
}

/// `s` with spaces before it, up to `width` characters.
pub fn align_right(s: &str, width: usize) -> (r: String)
    ensures
        r@ == right_aligned(s@, width as int),
{
    let mut out = String::new();
    let n = missing(s, width);
    add_spaces(&mut out, n);
    out.append(s);
    assert(spaces(n as int) =~= spaces(width - s@.len()));
    assert(out@ =~= right_aligned(s@, width as int));
    out
}

/// A filter keeps no more than was there.
pub proof fn lemma_filter_len<T>(s: Seq<T>, f: spec_fn(T) -> bool)
    ensures
        s.filter(f).len() <= s.len(),
    decreases s.len(),
{
    reveal(Seq::filter);
    if s.len() > 0 {
        lemma_filter_len(s.drop_last(), f);
    }
}

/// A piece between separators does not hold the separator.
pub proof fn lemma_piece_is_free(s: Seq<char>, sep: char, k: int)
    requires
        0 <= k < split_on(s, sep).len(),
    ensures
        !split_on(s, sep)[k].contains(sep),
    decreases s.len(),
{
    if s.len() > 0 {
        let front = s.drop_last();
        let p = split_on(front, sep);
        lemma_pieces_nonempty(front, equals(sep));
        if s.last() == sep {
            if k < p.len() {
                lemma_piece_is_free(front, sep, k);
            }
        } else {
            if k < p.len() - 1 {
                lemma_piece_is_free(front, sep, k);
            } else {
                lemma_piece_is_free(front, sep, p.len() - 1);
                let last = p.last().push(s.last());
                assert(split_on(s, sep)[k] == last);
                if last.contains(sep) {
                    let i = choose|i: int| 0 <= i < last.len() && last[i] == sep;
                    assert(p.last()[i] == sep);
                    assert(p[p.len() - 1].contains(sep));
                }
            }
        }
    }
}

/// Trimming leaves what was there.
pub proof fn lemma_trim_members(s: Seq<char>, i: int)
    requires
        0 <= i < trim(s).len(),
    ensures
        s.contains(trim(s)[i]),
{
    lemma_trim_end_members(trim_start(s), i);
    let k = choose|k: int| 0 <= k < trim_start(s).len() && trim_start(s)[k] == trim(s)[i];
    lemma_trim_start_members(s, k);
}

proof fn lemma_trim_start_members(s: Seq<char>, i: int)
    requires
        0 <= i < trim_start(s).len(),
    ensures
        s.contains(trim_start(s)[i]),
    decreases s.len(),
{
    if s.len() > 0 && is_space(s[0]) {
        lemma_trim_start_members(s.skip(1), i);
        let k = choose|k: int| 0 <= k < s.skip(1).len() && s.skip(1)[k] == trim_start(s)[i];
        assert(s[k + 1] == trim_start(s)[i]);
    }
}

proof fn lemma_trim_end_members(s: Seq<char>, i: int)
    requires
        0 <= i < trim_end(s).len(),
    ensures
        s.contains(trim_end(s)[i]),
    decreases s.len(),
{
    if s.len() > 0 && is_space(s.last()) {
        lemma_trim_end_members(s.drop_last(), i);
        let k = choose|k: int| 0 <= k < s.drop_last().len() && s.drop_last()[k] == trim_end(s)[i];
        assert(s[k] == trim_end(s)[i]);
    }
}

/// A text begins with another exactly when that is a prefix of it.
pub proof fn law_begins(s: Seq<char>, p: Seq<char>)
    ensures
        begins(s, p) == p.is_prefix_of(s),
{
    if p.is_prefix_of(s) {
        assert(s.subrange(0, p.len() as int) =~= p);
    }
}

/// A text ends with another exactly when that is a suffix of it.
pub proof fn law_ends(s: Seq<char>, p: Seq<char>)
    ensures
        ends(s, p) == p.is_suffix_of(s),
{
}

/// A text occurs in another exactly when that is made of something, it, and
/// something.
pub proof fn law_has_text(s: Seq<char>, p: Seq<char>)
    ensures
        has_text(s, p) == (exists|a: Seq<char>, b: Seq<char>| s == #[trigger] (a + p + b)),
{
    if has_text(s, p) {
        let i = choose|i: int| occurs_at(s, p, i);
        let a = s.take(i);
        let b = s.skip(i + p.len());
        assert(s =~= a + p + b);
    }
    if exists|a: Seq<char>, b: Seq<char>| s == #[trigger] (a + p + b) {
        let (a, b) = choose|a: Seq<char>, b: Seq<char>| s == #[trigger] (a + p + b);
        assert(s.subrange(a.len() as int, (a.len() + p.len()) as int) =~= p);
        assert(occurs_at(s, p, a.len() as int));
    }
}

/// Equal predicates keep the same.
pub proof fn lemma_filter_same<T>(s: Seq<T>, f: spec_fn(T) -> bool, g: spec_fn(T) -> bool)
    requires
        forall|x: T| #[trigger] f(x) == g(x),
    ensures
        s.filter(f) == s.filter(g),
    decreases s.len(),
{
    reveal(Seq::filter);
    if s.len() > 0 {
        lemma_filter_same(s.drop_last(), f, g);
        assert(f(s.last()) == g(s.last()));
    }
}

/// White space among the characters of ASCII is the blank, the tab and the line
/// breaks.
pub proof fn law_white_space(c: char)
    requires
        c <= '\x7f',
    ensures
        is_space(c) <==> c == ' ' || '\x09' <= c <= '\x0d',
{
}

/// Trimming takes white space off both ends, all of it and nothing else.
pub proof fn law_trim(s: Seq<char>)
    ensures
        exists|a: Seq<char>, b: Seq<char>|
            s == #[trigger] (a + trim(s) + b) && (forall|i: int|
                0 <= i < a.len() ==> is_space(#[trigger] a[i])) && (forall|i: int|
                0 <= i < b.len() ==> is_space(#[trigger] b[i])),
        trim(s).len() > 0 ==> !is_space(trim(s)[0]) && !is_space(trim(s).last()),
        trim(s).len() == 0 <==> blank(s),
{
    let m = trim_start(s);
    let a = lemma_trim_start_parts(s);
    let b = lemma_trim_end_parts(m);
    assert(a + trim(s) + b =~= s);
    if trim(s).len() > 0 {
        assert(m[0] == trim(s)[0]);
    }
    if trim(s).len() == 0 {
        assert forall|i: int| 0 <= i < s.len() implies is_space(#[trigger] s[i]) by {
            if i < a.len() {
                assert(s[i] == a[i]);
            } else {
                assert(s[i] == b[i - a.len()]);
            }
        }
    } else {
        assert(s[a.len() as int] == trim(s)[0]);
    }
}

proof fn lemma_trim_start_parts(s: Seq<char>) -> (a: Seq<char>)
    ensures
        s == a + trim_start(s),
        forall|i: int| 0 <= i < a.len() ==> is_space(#[trigger] a[i]),
        trim_start(s).len() > 0 ==> !is_space(trim_start(s)[0]),
    decreases s.len(),
{
    if s.len() > 0 && is_space(s[0]) {
        let rest = lemma_trim_start_parts(s.skip(1));
        let a = seq![s[0]] + rest;
        assert(s =~= seq![s[0]] + s.skip(1));
        assert(a + trim_start(s) =~= s);
        a
    } else {
        assert(Seq::<char>::empty() + s =~= s);
        Seq::empty()
    }
}

proof fn lemma_trim_end_parts(s: Seq<char>) -> (b: Seq<char>)
    ensures
        s == trim_end(s) + b,
        forall|i: int| 0 <= i < b.len() ==> is_space(#[trigger] b[i]),
        trim_end(s).len() > 0 ==> !is_space(trim_end(s).last()),
    decreases s.len(),
{
    if s.len() > 0 && is_space(s.last()) {
        let rest = lemma_trim_end_parts(s.drop_last());
        let b = rest.push(s.last());
        assert(s =~= s.drop_last().push(s.last()));
        assert(trim_end(s) + b =~= s);
        b
    } else {
        assert(s + Seq::<char>::empty() =~= s);
        Seq::empty()
    }
}

} // verus!
