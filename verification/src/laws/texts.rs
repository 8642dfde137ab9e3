//! Texts: how they are joined, split, filled in and compared.
use vstd::prelude::*;

use crate::text;

verus! {

/// Nothing joined is nothing, one text joined is itself, and two lists are joined
/// with the separator between them.
pub proof fn law_joining(a: Seq<Seq<char>>, b: Seq<Seq<char>>, x: Seq<char>, sep: Seq<char>)
    ensures
        text::joined(Seq::empty(), sep) == Seq::<char>::empty(),
        text::joined(seq![x], sep) == x,
        a.len() > 0 && b.len() > 0 ==> text::joined(a + b, sep) == text::joined(a, sep) + sep
            + text::joined(b, sep),
    decreases b.len(),
{
    if a.len() > 0 && b.len() > 0 {
        let all = a + b;
        let front = b.drop_last();
        assert(all.drop_last() =~= a + front);
        assert(all.last() == b.last());
        if front.len() == 0 {
            assert(a + front =~= a);
            assert(b[0] == b.last());
        } else {
            law_joining(a, front, x, sep);
            assert(text::joined(a, sep) + sep + text::joined(front, sep) + sep + b.last()
                =~= text::joined(a, sep) + sep + (text::joined(front, sep) + sep + b.last()));
        }
    }
}

/// A text without separators is one piece, and a text around a separator has the
/// pieces of what stands before it, followed by those of what stands after it.
pub proof fn law_splitting(a: Seq<char>, c: char, b: Seq<char>, sep: spec_fn(char) -> bool)
    ensures
        (forall|i: int| 0 <= i < a.len() ==> !sep(#[trigger] a[i])) ==> text::pieces(a, sep) == seq![a],
        sep(c) ==> text::pieces(a + seq![c] + b, sep) == text::pieces(a, sep) + text::pieces(b, sep),
    decreases a.len(), b.len(),
{
    if forall|i: int| 0 <= i < a.len() ==> !sep(#[trigger] a[i]) {
        if a.len() > 0 {
            let front = a.drop_last();
            assert forall|i: int| 0 <= i < front.len() implies !sep(#[trigger] front[i]) by {
                assert(front[i] == a[i]);
            }
            law_splitting(front, c, b, sep);
            assert(!sep(a[a.len() - 1]));
            assert(front.push(a.last()) =~= a);
            assert(text::pieces(a, sep) =~= seq![a]);
        } else {
            assert(a =~= Seq::empty());
        }
    }
    if sep(c) {
        let s = a + seq![c] + b;
        let p = text::pieces(a, sep);
        if b.len() == 0 {
            assert(s.drop_last() =~= a);
            assert(s.last() == c);
            assert(text::pieces(s, sep) =~= p + text::pieces(b, sep));
        } else {
            let front = b.drop_last();
            let q = text::pieces(front, sep);
            law_splitting(a, c, front, sep);
            text::lemma_pieces_nonempty(front, sep);
            assert(s.drop_last() =~= a + seq![c] + front);
            assert(s.last() == b.last());
            assert(text::pieces(s, sep) =~= p + text::pieces(b, sep));
        }
    }
}

/// The pieces of a text between occurrences of a character.
pub proof fn law_splitting_on(a: Seq<char>, c: char, b: Seq<char>)
    ensures
        !a.contains(c) ==> text::split_on(a, c) == seq![a],
        text::split_on(a + seq![c] + b, c) == text::split_on(a, c) + text::split_on(b, c),
{
    let sep = text::equals(c);
    law_splitting(a, c, b, sep);
    if !a.contains(c) {
        assert forall|i: int| 0 <= i < a.len() implies !sep(#[trigger] a[i]) by {
            if a[i] == c {
                assert(a.contains(c));
            }
        }
    }
}

/// Replacing leaves a text that does not hold the first character of what is
/// replaced; and where such a text stands before an occurrence, it stays, the
/// occurrence is replaced, and the rest is done in the same way.
pub proof fn law_replacing(a: Seq<char>, from: Seq<char>, b: Seq<char>, to: Seq<char>)
    requires
        from.len() > 0,
        !a.contains(from[0]),
    ensures
        text::replaced(a, from, to) == a,
        text::replaced(a + from + b, from, to) == a + to + text::replaced(b, from, to),
        text::replaced(a + b, from, to) == a + text::replaced(b, from, to),
    decreases a.len(),
{
    if a.len() == 0 {
        let s = a + from + b;
        assert(a =~= Seq::empty());
        assert(s.subrange(0, from.len() as int) =~= from);
        assert(s.skip(from.len() as int) =~= b);
        assert(a + b =~= b);
        assert(a + to + text::replaced(b, from, to) =~= to + text::replaced(b, from, to));
        assert(a + text::replaced(b, from, to) =~= text::replaced(b, from, to));
    } else {
        let rest = a.skip(1);
        assert(a.contains(a[0]));
        if rest.contains(from[0]) {
            let i = choose|i: int| 0 <= i < rest.len() && rest[i] == from[0];
            assert(a[i + 1] == from[0]);
        }
        law_replacing(rest, from, b, to);
        lemma_not_at(a, from);
        lemma_not_at(a + from + b, from);
        lemma_not_at(a + b, from);
        assert((a + from + b).skip(1) =~= rest + from + b);
        assert((a + b).skip(1) =~= rest + b);
        assert(seq![a[0]] + rest =~= a);
        assert(seq![a[0]] + (rest + to + text::replaced(b, from, to)) =~= a + to + text::replaced(
            b,
            from,
            to,
        ));
        assert(seq![a[0]] + (rest + text::replaced(b, from, to)) =~= a + text::replaced(
            b,
            from,
            to,
        ));
    }
}

proof fn lemma_not_at(s: Seq<char>, p: Seq<char>)
    requires
        s.len() > 0,
        p.len() > 0,
        s[0] != p[0],
    ensures
        !text::begins(s, p),
{
    text::law_begins(s, p);
    if p.is_prefix_of(s) {
        assert(s.subrange(0, p.len() as int)[0] == s[0]);
    }
}

/// Another placeholder, which is no occurrence and within which none begins,
/// stays.
pub proof fn law_replacing_elsewhere(
    a: Seq<char>,
    other: Seq<char>,
    from: Seq<char>,
    b: Seq<char>,
    to: Seq<char>,
)
    requires
        from.len() > 0,
        other.len() > 0,
        !a.contains(from[0]),
        !other.skip(1).contains(from[0]),
        !text::begins(other + b, from),
    ensures
        text::replaced(a + other + b, from, to) == a + other + text::replaced(b, from, to),
{
    let s = other + b;
    let rest = other.skip(1);
    law_replacing(a, from, s, to);
    assert(a + s =~= a + other + b);
    law_replacing(rest, from, b, to);
    assert(s.skip(1) =~= rest + b);
    assert(seq![s[0]] + (rest + text::replaced(b, from, to)) =~= other + text::replaced(
        b,
        from,
        to,
    ));
    assert(a + (other + text::replaced(b, from, to)) =~= a + other + text::replaced(b, from, to));
}

/// Whether two characters are the same but for an ASCII capital.
pub open spec fn same_letter(a: char, b: char) -> bool {
    ||| a == b
    ||| 'A' <= a <= 'Z' && b as int == a as int + 32
    ||| 'A' <= b <= 'Z' && a as int == b as int + 32
}

/// Two texts are the same but for capitals exactly when their characters are,
/// one by one.
pub proof fn law_same_but_case(a: Seq<char>, b: Seq<char>)
    ensures
        text::same_but_case(a, b) <==> a.len() == b.len() && forall|i: int|
            0 <= i < a.len() ==> same_letter(#[trigger] a[i], b[i]),
{
    if text::same_but_case(a, b) {
        assert forall|i: int| 0 <= i < a.len() implies same_letter(#[trigger] a[i], b[i]) by {
            assert(text::ascii_small(a[i]) == text::ascii_small(b[i]));
        }
    }
}

/// Items are listed one to a line, each behind the mark.
pub proof fn law_lines(mark: Seq<char>, a: Seq<Seq<char>>, x: Seq<char>)
    ensures
        text::lined(mark, Seq::empty()) == Seq::<char>::empty(),
        text::lined(mark, a + seq![x]) == text::lined(mark, a) + mark + x + seq!['\n'],
{
    let all = a + seq![x];
    reveal_strlit("\n");
    assert("\n"@ =~= seq!['\n']);
    assert(all.drop_last() =~= a);
    assert(all.last() == x);
}

/// A text is among others exactly when it is one of them.
pub proof fn law_among(item: Seq<char>, list: Seq<Seq<char>>)
    ensures
        text::among(item, list) <==> list.contains(item),
{
}

/// What follows a prefix, and what precedes a suffix, is there exactly when the
/// text has it, and makes up the text with it.
pub proof fn law_affixes(s: Seq<char>, p: Seq<char>)
    ensures
        match text::after_prefix(s, p) {
            Some(r) => s == p + r,
            None => !p.is_prefix_of(s),
        },
        match text::before_suffix(s, p) {
            Some(r) => s == r + p,
            None => !p.is_suffix_of(s),
        },
        text::after_prefix(s, p) is Some <==> p.is_prefix_of(s),
        text::before_suffix(s, p) is Some <==> p.is_suffix_of(s),
{
    text::law_begins(s, p);
    text::law_ends(s, p);
    if let Some(r) = text::after_prefix(s, p) {
        assert(s =~= p + r);
    }
    if let Some(r) = text::before_suffix(s, p) {
        assert(s =~= r + p);
    }
}

/// Whether a text is one or more decimal digits.
pub open spec fn is_numeral(s: Seq<char>) -> bool {
    s.len() > 0 && forall|i: int| 0 <= i < s.len() ==> '0' <= #[trigger] s[i] <= '9'
}

/// Digits are read from left to right, each worth a tenth of the one before it; a sign
/// may stand before them; what does not fit, and any other text, is no integer.
pub proof fn law_integers_are_read_by_digits(s: Seq<char>, c: char)
    ensures
        text::integer(s) is Some ==> is_numeral(s) || s.len() > 1 && (s[0] == '-' || s[0] == '+')
            && is_numeral(s.skip(1)),
        '0' <= c <= '9' ==> text::integer(seq![c]) == Some((c as int - '0' as int) as i64),
        is_numeral(s) && '0' <= c <= '9' ==> match text::integer(s) {
            Some(v) => {
                let w = v * 10 + (c as int - '0' as int);
                &&& v >= 0
                &&& text::integer(s.push(c)) == if w <= i64::MAX {
                    Some(w as i64)
                } else {
                    None
                }
            },
            None => text::integer(s.push(c)) is None,
        },
        is_numeral(s) && text::integer(s) is Some ==> text::integer(seq!['+'] + s)
            == text::integer(s) && text::integer(seq!['-'] + s) == Some(
            (-(text::integer(s)->0 as int)) as i64,
        ),
{
    let signed = s.len() > 0 && (s[0] == '-' || s[0] == '+');
    if text::integer(s) is Some {
        let body = if signed {
            s.skip(1)
        } else {
            s
        };
        assert forall|i: int| 0 <= i < body.len() implies '0' <= #[trigger] body[i] <= '9' by {
            assert(text::is_digit(body[i]));
        }
    }
    if '0' <= c <= '9' {
        let one = seq![c];
        reveal_with_fuel(text::value_of, 2);
        assert(one.drop_last() =~= Seq::empty());
        assert(one.last() == c);
    }
    if is_numeral(s) {
        assert('0' <= s[0] <= '9');
        let more = s.push(c);
        assert(more.drop_last() =~= s);
        assert(more[0] == s[0]);
        if '0' <= c <= '9' {
            assert forall|i: int| 0 <= i < more.len() implies text::is_digit(#[trigger] more[i]) by {
                if i < s.len() {
                    assert('0' <= s[i] <= '9');
                }
            }
        }
        let plus = seq!['+'] + s;
        let minus = seq!['-'] + s;
        assert(plus.skip(1) =~= s);
        assert(minus.skip(1) =~= s);
    }
}

} // verus!
