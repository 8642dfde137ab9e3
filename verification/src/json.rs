//! JSON values: patches, reports and replies that are read, contexts that are
//! built.
use vstd::prelude::*;

use crate::text;
use crate::text::{natural_text, owned, same};

verus! {

/// A value of the `serde_json` crate.
#[verifier::external_type_specification]
#[verifier::external_body]
pub struct ExJsonValue(serde_json::Value);

/// A JSON value.
#[derive(Debug)]
pub enum Json {
    Null,
    Bool(bool),
    /// A number that is an integer of 64 bits.
    Integer(i64),
    /// Any other number, as its JSON text.
    Real(String),
    Text(String),
    Array(Vec<Json>),
    Object(Vec<Member>),
}

/// A key of an object and its value.
#[derive(Debug)]
pub struct Member {
    pub name: String,
    pub value: Json,
}

/// What a [`Json`] holds.
pub enum JsonView {
    Null,
    Bool(bool),
    Integer(i64),
    Real(Seq<char>),
    Text(Seq<char>),
    Array(Seq<JsonView>),
    Object(Seq<MemberView>),
}

/// What a [`Member`] holds.
pub struct MemberView {
    pub name: Seq<char>,
    pub value: JsonView,
}

/// What a JSON value holds.
pub open spec fn json_view(j: Json) -> JsonView
    decreases j,
{
    match j {
        Json::Null => JsonView::Null,
        Json::Bool(b) => JsonView::Bool(b),
        Json::Integer(i) => JsonView::Integer(i),
        Json::Real(s) => JsonView::Real(s@),
        Json::Text(s) => JsonView::Text(s@),
        Json::Array(v) => JsonView::Array(
            Seq::new(
                v@.len(),
                |i: int|
                    if 0 <= i < v@.len() {
                        json_view(v@[i])
                    } else {
                        arbitrary()
                    },
            ),
        ),
        Json::Object(v) => JsonView::Object(
            Seq::new(
                v@.len(),
                |i: int|
                    if 0 <= i < v@.len() {
                        MemberView { name: v@[i].name@, value: json_view(v@[i].value) }
                    } else {
                        arbitrary()
                    },
            ),
        ),
    }
}

impl View for Json {
    type V = JsonView;

    open spec fn view(&self) -> JsonView {
        json_view(*self)
    }
}

impl View for Member {
    type V = MemberView;

    open spec fn view(&self) -> MemberView {
        MemberView { name: self.name@, value: self.value@ }
    }
}

/// What a list of values holds.
pub open spec fn jsons(v: Seq<Json>) -> Seq<JsonView> {
    v.map_values(|j: Json| j@)
}

/// What a list of members holds.
pub open spec fn members(v: Seq<Member>) -> Seq<MemberView> {
    v.map_values(|m: Member| m@)
}

/// What an array and an object hold, element by element.
pub proof fn lemma_json_view(j: Json)
    ensures
        j matches Json::Array(v) ==> j@ == JsonView::Array(jsons(v@)),
        j matches Json::Object(v) ==> j@ == JsonView::Object(members(v@)),
{
    match j {
        Json::Array(v) => {
            assert(j@->Array_0 =~= jsons(v@));
        },
        Json::Object(v) => {
            assert(j@->Object_0 =~= members(v@));
        },
        _ => {},
    }
}

/// What a value of the `serde_json` crate holds.
pub uninterp spec fn json_holds(v: serde_json::Value) -> JsonView;

/// What a JSON text holds, or the message with which it is refused.
pub uninterp spec fn json_reads(text: Seq<char>) -> Result<JsonView, Seq<char>>;

/// `serde_json::from_str::<serde_json::Value>`: the value that a text denotes,
/// or the error as text. What it is depends on the text alone.
#[verifier::external_body]
fn parse_value(text: &str) -> (r: Result<serde_json::Value, String>)
    ensures
        match r {
            Ok(v) => json_reads(text@) == Ok::<JsonView, Seq<char>>(json_holds(v)),
            Err(e) => json_reads(text@) == Err::<JsonView, Seq<char>>(e@),
        },
{
    serde_json::from_str::<serde_json::Value>(text).map_err(|e| e.to_string())
}

/// A [`serde_json::Value`] taken apart, variant by variant; of a number, what
/// `serde_json::Number::as_i64` gives, or else its text.
#[verifier::external_body]
fn json_of(v: serde_json::Value) -> (r: Json)
    ensures
        r@ == json_holds(v),
{
    match v {
        serde_json::Value::Null => Json::Null,
        serde_json::Value::Bool(b) => Json::Bool(b),
        serde_json::Value::Number(n) => n.as_i64().map(Json::Integer).unwrap_or_else(
            || Json::Real(n.to_string()),
        ),
        serde_json::Value::String(s) => Json::Text(s),
        serde_json::Value::Array(a) => Json::Array(a.into_iter().map(json_of).collect()),
        serde_json::Value::Object(o) => Json::Object(
            o.into_iter().map(|(name, v)| Member { name, value: json_of(v) }).collect(),
        ),
    }
}

/// The decimal text of a number, as a floating-point number of 64 bits.
pub uninterp spec fn float_text(number: Seq<char>) -> Seq<char>;

/// `serde_json::Number::from_str` and `as_f64`: the floating-point value of the
/// number that a text denotes (zero where it denotes none), as decimal text. It
/// depends on the text alone.
#[verifier::external_body]
pub(crate) fn to_float_text(number: &str) -> (r: String)
    ensures
        r@ == float_text(number@),
{
    number.parse::<serde_json::Number>().ok().and_then(|n| n.as_f64()).unwrap_or_default().to_string()
}

/// Reads a JSON text.
pub fn read_json(text: &str) -> (r: Result<Json, String>)
    ensures
        match r {
            Ok(j) => json_reads(text@) == Ok::<JsonView, Seq<char>>(j@),
            Err(e) => json_reads(text@) == Err::<JsonView, Seq<char>>(e@),
        },
{
    match parse_value(text) {
        Ok(v) => Ok(json_of(v)),
        Err(e) => Err(e),
    }
}

/// The value of the member with the given name.
pub open spec fn lookup(m: Seq<MemberView>, name: Seq<char>) -> Option<JsonView>
    decreases m.len(),
{
    if m.len() == 0 {
        None
    } else if m[0].name == name {
        Some(m[0].value)
    } else {
        lookup(m.skip(1), name)
    }
}

/// The value of the member with the given name, where the value is an object.
pub open spec fn member_of(j: JsonView, name: Seq<char>) -> Option<JsonView> {
    match j {
        JsonView::Object(m) => lookup(m, name),
        _ => None,
    }
}

/// The text of an optional value, where it is one.
pub open spec fn text_of(j: Option<JsonView>) -> Option<Seq<char>> {
    match j {
        Some(JsonView::Text(s)) => Some(s),
        _ => None,
    }
}

/// What an optional value holds.
pub open spec fn opt_json(o: Option<&Json>) -> Option<JsonView> {
    match o {
        Some(j) => Some(j@),
        None => None,
    }
}

impl Json {
    /// The value of the member with the given name, where this is an object.
    pub fn get(&self, name: &str) -> (r: Option<&Json>)
        ensures
            opt_json(r) == member_of(self@, name@),
    {
        proof {
            lemma_json_view(*self);
        }
        match self {
            Json::Object(v) => {
                let ghost all = members(v@);
                let mut i: usize = 0;
                assert(all.skip(0) =~= all);
                while i < v.len()
                    invariant
                        i <= v.len(),
                        all == members(v@),
                        self@ == JsonView::Object(all),
                        lookup(all, name@) == lookup(all.skip(i as int), name@),
                    decreases v.len() - i,
                {
                    assert(all.skip(i as int)[0] == v@[i as int]@);
                    if same(v[i].name.as_str(), name) {
                        return Some(&v[i].value);
                    }
                    assert(all.skip(i as int).skip(1) =~= all.skip(i + 1));
                    i += 1;
                }
                None
            },
            _ => None,
        }
    }

    /// The text of this value, where it is one.
    pub fn as_text(&self) -> (r: Option<&str>)
        ensures
            match r {
                Some(s) => text_of(Some(self@)) == Some(s@),
                None => text_of(Some(self@)) is None,
            },
    {
        match self {
            Json::Text(s) => Some(s.as_str()),
            _ => None,
        }
    }
}

/// The texts of values, where each of them is a text.
pub open spec fn all_texts(v: Seq<JsonView>) -> Option<Seq<Seq<char>>>
    decreases v.len(),
{
    if v.len() == 0 {
        Some(Seq::empty())
    } else {
        match (all_texts(v.drop_last()), v.last()) {
            (Some(front), JsonView::Text(s)) => Some(front.push(s)),
            _ => None,
        }
    }
}

/// The integers of values, where each of them is an integer.
pub open spec fn all_integers(v: Seq<JsonView>) -> Option<Seq<i64>>
    decreases v.len(),
{
    if v.len() == 0 {
        Some(Seq::empty())
    } else {
        match (all_integers(v.drop_last()), v.last()) {
            (Some(front), JsonView::Integer(i)) => Some(front.push(i)),
            _ => None,
        }
    }
}

/// What an optional list of texts holds.
pub open spec fn opt_texts(o: Option<Vec<String>>) -> Option<Seq<Seq<char>>> {
    match o {
        Some(v) => Some(text::texts(v@)),
        None => None,
    }
}

/// The texts of a list, where it is an array of texts.
pub open spec fn texts_of(j: JsonView) -> Option<Seq<Seq<char>>> {
    match j {
        JsonView::Array(v) => all_texts(v),
        _ => None,
    }
}

/// The integers of a list, where it is an array of integers.
pub open spec fn integers_of(j: JsonView) -> Option<Seq<i64>> {
    match j {
        JsonView::Array(v) => all_integers(v),
        _ => None,
    }
}

proof fn lemma_no_texts(v: Seq<JsonView>, i: int)
    requires
        0 <= i < v.len(),
        !(v[i] is Text),
    ensures
        all_texts(v) is None,
    decreases v.len(),
{
    if i < v.len() - 1 {
        lemma_no_texts(v.drop_last(), i);
    }
}

proof fn lemma_no_integers(v: Seq<JsonView>, i: int)
    requires
        0 <= i < v.len(),
        !(v[i] is Integer),
    ensures
        all_integers(v) is None,
    decreases v.len(),
{
    if i < v.len() - 1 {
        lemma_no_integers(v.drop_last(), i);
    }
}

/// The texts of a value, where it is an array of texts.
pub fn as_texts(j: &Json) -> (r: Option<Vec<String>>)
    ensures
        opt_texts(r) == texts_of(j@),
{
    proof {
        lemma_json_view(*j);
    }
    match j {
        Json::Array(v) => {
            let ghost all = jsons(v@);
            let mut out: Vec<String> = Vec::new();
            let mut i: usize = 0;
            assert(all.take(0) =~= Seq::empty());
            assert(text::texts(out@) =~= Seq::empty());
            while i < v.len()
                invariant
                    i <= v.len(),
                    all == jsons(v@),
                    j@ == JsonView::Array(all),
                    all_texts(all.take(i as int)) == Some(text::texts(out@)),
                decreases v.len() - i,
            {
                assert(all[i as int] == v@[i as int]@);
                assert(all.take(i + 1).drop_last() =~= all.take(i as int));
                match &v[i] {
                    Json::Text(s) => {
                        let ghost before = out@;
                        out.push(s.clone());
                        assert(text::texts(out@) =~= text::texts(before).push(s@));
                    },
                    _ => {
                        proof {
                            lemma_no_texts(all, i as int);
                        }
                        return None;
                    },
                }
                i += 1;
            }
            assert(all.take(i as int) =~= all);
            Some(out)
        },
        _ => None,
    }
}

/// The integers of a value, where it is an array of integers.
pub fn as_integers(j: &Json) -> (r: Option<Vec<i64>>)
    ensures
        match r {
            Some(v) => integers_of(j@) == Some(v@),
            None => integers_of(j@) is None,
        },
{
    proof {
        lemma_json_view(*j);
    }
    match j {
        Json::Array(v) => {
            let ghost all = jsons(v@);
            let mut out: Vec<i64> = Vec::new();
            let mut i: usize = 0;
            assert(all.take(0) =~= Seq::empty());
            while i < v.len()
                invariant
                    i <= v.len(),
                    all == jsons(v@),
                    j@ == JsonView::Array(all),
                    all_integers(all.take(i as int)) == Some(out@),
                decreases v.len() - i,
            {
                assert(all[i as int] == v@[i as int]@);
                assert(all.take(i + 1).drop_last() =~= all.take(i as int));
                match &v[i] {
                    Json::Integer(n) => {
                        out.push(*n);
                    },
                    _ => {
                        proof {
                            lemma_no_integers(all, i as int);
                        }
                        return None;
                    },
                }
                i += 1;
            }
            assert(all.take(i as int) =~= all);
            Some(out)
        },
        _ => None,
    }
}

/// A JSON value on one line, as the `serde_json` crate writes it.
pub uninterp spec fn json_shows(j: JsonView) -> Seq<char>;

/// `serde_json::Value::to_string`: the value on one line, which depends on what
/// it holds alone.
#[verifier::external_body]
fn show_value(v: &serde_json::Value) -> (r: String)
    ensures
        r@ == json_shows(json_holds(*v)),
{
    v.to_string()
}

/// Reads a JSON text, and gives its value on one line too.
pub fn read_shown(text: &str) -> (r: Result<(Json, String), String>)
    ensures
        match r {
            Ok((j, s)) => json_reads(text@) == Ok::<JsonView, Seq<char>>(j@) && s@ == json_shows(
                j@,
            ),
            Err(e) => json_reads(text@) == Err::<JsonView, Seq<char>>(e@),
        },
{
    match parse_value(text) {
        Ok(v) => {
            let shown = show_value(&v);
            Ok((json_of(v), shown))
        },
        Err(e) => Err(e),
    }
}

// ===== building values =====

/// A text, or null.
pub open spec fn text_or_null(o: Option<Seq<char>>) -> JsonView {
    match o {
        Some(s) => JsonView::Text(s),
        None => JsonView::Null,
    }
}

/// An integer, or null.
pub open spec fn integer_or_null(o: Option<i64>) -> JsonView {
    match o {
        Some(i) => JsonView::Integer(i),
        None => JsonView::Null,
    }
}

/// A truth value, or null.
pub open spec fn bool_or_null(o: Option<bool>) -> JsonView {
    match o {
        Some(b) => JsonView::Bool(b),
        None => JsonView::Null,
    }
}

/// A natural number.
pub open spec fn natural(n: nat) -> JsonView {
    if n <= i64::MAX {
        JsonView::Integer(n as i64)
    } else {
        JsonView::Real(text::numeral(n))
    }
}

/// An array of texts.
pub open spec fn text_array(v: Seq<Seq<char>>) -> JsonView {
    JsonView::Array(v.map_values(|s: Seq<char>| JsonView::Text(s)))
}

/// An array of integers.
pub open spec fn integer_array(v: Seq<i64>) -> JsonView {
    JsonView::Array(v.map_values(|i: i64| JsonView::Integer(i)))
}

/// A member of an object.
pub open spec fn member(name: Seq<char>, value: JsonView) -> MemberView {
    MemberView { name, value }
}

/// A text, or null.
pub fn from_opt_text(o: &Option<String>) -> (r: Json)
    ensures
        r@ == text_or_null(text::opt_text(*o)),
{
    match o {
        Some(s) => Json::Text(s.clone()),
        None => Json::Null,
    }
}

/// An integer, or null.
pub fn from_opt_integer(o: Option<i64>) -> (r: Json)
    ensures
        r@ == integer_or_null(o),
{
    match o {
        Some(i) => Json::Integer(i),
        None => Json::Null,
    }
}

/// A truth value, or null.
pub fn from_opt_bool(o: Option<bool>) -> (r: Json)
    ensures
        r@ == bool_or_null(o),
{
    match o {
        Some(b) => Json::Bool(b),
        None => Json::Null,
    }
}

/// A natural number.
pub fn from_natural(n: usize) -> (r: Json)
    ensures
        r@ == natural(n as nat),
{
    if n as u128 <= i64::MAX as u128 {
        Json::Integer(n as i64)
    } else {
        Json::Real(natural_text(n as u128))
    }
}

/// A text.
pub fn from_text(s: &str) -> (r: Json)
    ensures
        r@ == JsonView::Text(s@),
{
    Json::Text(owned(s))
}

/// An array.
pub fn from_values(v: Vec<Json>) -> (r: Json)
    ensures
        r@ == JsonView::Array(jsons(v@)),
{
    let r = Json::Array(v);
    proof {
        lemma_json_view(r);
    }
    r
}

/// An object.
pub fn from_members(v: Vec<Member>) -> (r: Json)
    ensures
        r@ == JsonView::Object(members(v@)),
{
    let r = Json::Object(v);
    proof {
        lemma_json_view(r);
    }
    r
}

/// Adds a value to a list.
pub fn add_value(list: &mut Vec<Json>, value: Json)
    ensures
        jsons(final(list)@) == jsons(old(list)@).push(value@),
{
    list.push(value);
    assert(jsons(list@) =~= jsons(old(list)@).push(value@));
}

/// Adds a member to a list.
pub fn add_member(list: &mut Vec<Member>, name: &str, value: Json)
    ensures
        members(final(list)@) == members(old(list)@).push(member(name@, value@)),
{
    let m = Member { name: owned(name), value };
    list.push(m);
    assert(members(list@) =~= members(old(list)@).push(m@));
}

/// An empty list of members.
pub fn no_members() -> (r: Vec<Member>)
    ensures
        members(r@) == Seq::<MemberView>::empty(),
{
    let r: Vec<Member> = Vec::new();
    assert(members(r@) =~= Seq::empty());
    r
}

/// An empty list of values.
pub fn no_values() -> (r: Vec<Json>)
    ensures
        jsons(r@) == Seq::<JsonView>::empty(),
{
    let r: Vec<Json> = Vec::new();
    assert(jsons(r@) =~= Seq::empty());
    r
}

/// An array of texts.
pub fn from_texts(v: &Vec<String>) -> (r: Json)
    ensures
        r@ == text_array(text::texts(v@)),
{
    let ghost all = text::texts(v@).map_values(|s: Seq<char>| JsonView::Text(s));
    let mut list = no_values();
    let mut i: usize = 0;
    assert(all.take(0) =~= Seq::empty());
    while i < v.len()
        invariant
            i <= v.len(),
            all == text::texts(v@).map_values(|s: Seq<char>| JsonView::Text(s)),
            jsons(list@) == all.take(i as int),
        decreases v.len() - i,
    {
        assert(all.take(i + 1) =~= all.take(i as int).push(all[i as int]));
        add_value(&mut list, from_text(v[i].as_str()));
        i += 1;
    }
    assert(all.take(i as int) =~= all);
    from_values(list)
}

/// An array of integers.
pub fn from_integers(v: &Vec<i64>) -> (r: Json)
    ensures
        r@ == integer_array(v@),
{
    let ghost all = v@.map_values(|i: i64| JsonView::Integer(i));
    let mut list = no_values();
    let mut i: usize = 0;
    assert(all.take(0) =~= Seq::empty());
    while i < v.len()
        invariant
            i <= v.len(),
            all == v@.map_values(|i: i64| JsonView::Integer(i)),
            jsons(list@) == all.take(i as int),
        decreases v.len() - i,
    {
        assert(all.take(i + 1) =~= all.take(i as int).push(all[i as int]));
        add_value(&mut list, Json::Integer(v[i]));
        i += 1;
    }
    assert(all.take(i as int) =~= all);
    from_values(list)
}

/// Whether the `k`-th member is the first with the given name.
pub open spec fn first_named(m: Seq<MemberView>, name: Seq<char>, k: int) -> bool {
    0 <= k < m.len() && m[k].name == name && forall|j: int|
        0 <= j < k ==> (#[trigger] m[j]).name != name
}

/// Looking up a member gives the value of the first with its name, and nothing
/// exactly when there is none.
pub proof fn law_members_are_found_by_name(m: Seq<MemberView>, name: Seq<char>)
    ensures
        match lookup(m, name) {
            Some(v) => exists|k: int| #[trigger] first_named(m, name, k) && m[k].value == v,
            None => forall|k: int| 0 <= k < m.len() ==> (#[trigger] m[k]).name != name,
        },
    decreases m.len(),
{
    if m.len() > 0 {
        if m[0].name == name {
            assert(first_named(m, name, 0));
        } else {
            let rest = m.skip(1);
            law_members_are_found_by_name(rest, name);
            match lookup(rest, name) {
                Some(v) => {
                    let k = choose|k: int| #[trigger]
                        first_named(rest, name, k) && rest[k].value == v;
                    assert(m[k + 1] == rest[k]);
                    assert forall|j: int| 0 <= j < k + 1 implies (#[trigger] m[j]).name != name by {
                        if j > 0 {
                            assert(rest[j - 1] == m[j]);
                        }
                    }
                    assert(first_named(m, name, k + 1));
                },
                None => {
                    assert forall|k: int| 0 <= k < m.len() implies (#[trigger] m[k]).name != name by {
                        if k > 0 {
                            assert(rest[k - 1] == m[k]);
                        }
                    }
                },
            }
        }
    }
}

/// A value is a list of texts exactly when it is an array whose elements are
/// these texts, in order.
pub proof fn law_texts_are_read(j: JsonView, l: Seq<Seq<char>>)
    ensures
        texts_of(j) == Some(l) <==> (j matches JsonView::Array(v) && v.len() == l.len() && forall|
            i: int,
        |
            0 <= i < v.len() ==> #[trigger] v[i] == JsonView::Text(l[i])),
        texts_of(j) is None <==> !(j matches JsonView::Array(v) && forall|i: int|
            0 <= i < v.len() ==> #[trigger] v[i] is Text),
{
    if let JsonView::Array(v) = j {
        lemma_all_texts(v, l);
        lemma_some_texts(v);
    }
}

proof fn lemma_some_texts(v: Seq<JsonView>)
    ensures
        all_texts(v) is Some <==> forall|i: int| 0 <= i < v.len() ==> #[trigger] v[i] is Text,
    decreases v.len(),
{
    if v.len() > 0 {
        let front = v.drop_last();
        lemma_some_texts(front);
        if all_texts(v) is Some {
            assert forall|i: int| 0 <= i < v.len() implies #[trigger] v[i] is Text by {
                if i < front.len() {
                    assert(front[i] == v[i]);
                }
            }
        }
        if forall|i: int| 0 <= i < v.len() ==> #[trigger] v[i] is Text {
            assert forall|i: int| 0 <= i < front.len() implies #[trigger] front[i] is Text by {
                assert(front[i] == v[i]);
            }
            assert(v[v.len() - 1] is Text);
        }
    }
}

proof fn lemma_all_texts(v: Seq<JsonView>, l: Seq<Seq<char>>)
    ensures
        all_texts(v) == Some(l) <==> v.len() == l.len() && forall|i: int|
            0 <= i < v.len() ==> #[trigger] v[i] == JsonView::Text(l[i]),
    decreases v.len(),
{
    if v.len() == 0 {
        if l.len() == 0 {
            assert(l =~= Seq::empty());
        }
    } else {
        let front = v.drop_last();
        if l.len() > 0 {
            let less = l.drop_last();
            lemma_all_texts(front, less);
            assert(l =~= less.push(l.last()));
            if all_texts(v) == Some(l) {
                let f = all_texts(front)->0;
                assert(f.push(v.last()->Text_0).drop_last() =~= f);
                assert(f == less);
                assert forall|i: int| 0 <= i < v.len() implies #[trigger] v[i] == JsonView::Text(
                    l[i],
                ) by {
                    if i < front.len() {
                        assert(front[i] == v[i]);
                        assert(less[i] == l[i]);
                    }
                }
            }
            if v.len() == l.len() && forall|i: int|
                0 <= i < v.len() ==> #[trigger] v[i] == JsonView::Text(l[i]) {
                assert forall|i: int| 0 <= i < front.len() implies #[trigger] front[i]
                    == JsonView::Text(less[i]) by {
                    assert(front[i] == v[i]);
                }
                assert(v[v.len() - 1] == JsonView::Text(l[l.len() - 1]));
            }
        }
    }
}

/// A value is a list of integers exactly when it is an array whose elements are
/// these integers, in order.
pub proof fn law_integers_are_read(j: JsonView, l: Seq<i64>)
    ensures
        integers_of(j) == Some(l) <==> (j matches JsonView::Array(v) && v.len() == l.len()
            && forall|i: int| 0 <= i < v.len() ==> #[trigger] v[i] == JsonView::Integer(l[i])),
        integers_of(j) is None <==> !(j matches JsonView::Array(v) && forall|i: int|
            0 <= i < v.len() ==> #[trigger] v[i] is Integer),
{
    if let JsonView::Array(v) = j {
        lemma_all_integers(v, l);
        lemma_some_integers(v);
    }
}

proof fn lemma_some_integers(v: Seq<JsonView>)
    ensures
        all_integers(v) is Some <==> forall|i: int| 0 <= i < v.len() ==> #[trigger] v[i] is Integer,
    decreases v.len(),
{
    if v.len() > 0 {
        let front = v.drop_last();
        lemma_some_integers(front);
        if all_integers(v) is Some {
            assert forall|i: int| 0 <= i < v.len() implies #[trigger] v[i] is Integer by {
                if i < front.len() {
                    assert(front[i] == v[i]);
                }
            }
        }
        if forall|i: int| 0 <= i < v.len() ==> #[trigger] v[i] is Integer {
            assert forall|i: int| 0 <= i < front.len() implies #[trigger] front[i] is Integer by {
                assert(front[i] == v[i]);
            }
            assert(v[v.len() - 1] is Integer);
        }
    }
}

proof fn lemma_all_integers(v: Seq<JsonView>, l: Seq<i64>)
    ensures
        all_integers(v) == Some(l) <==> v.len() == l.len() && forall|i: int|
            0 <= i < v.len() ==> #[trigger] v[i] == JsonView::Integer(l[i]),
    decreases v.len(),
{
    if v.len() == 0 {
        if l.len() == 0 {
            assert(l =~= Seq::empty());
        }
    } else {
        let front = v.drop_last();
        if l.len() > 0 {
            let less = l.drop_last();
            lemma_all_integers(front, less);
            assert(l =~= less.push(l.last()));
            if all_integers(v) == Some(l) {
                let f = all_integers(front)->0;
                assert(f.push(v.last()->Integer_0).drop_last() =~= f);
                assert(f == less);
                assert forall|i: int| 0 <= i < v.len() implies #[trigger] v[i]
                    == JsonView::Integer(l[i]) by {
                    if i < front.len() {
                        assert(front[i] == v[i]);
                        assert(less[i] == l[i]);
                    }
                }
            }
            if v.len() == l.len() && forall|i: int|
                0 <= i < v.len() ==> #[trigger] v[i] == JsonView::Integer(l[i]) {
                assert forall|i: int| 0 <= i < front.len() implies #[trigger] front[i]
                    == JsonView::Integer(less[i]) by {
                    assert(front[i] == v[i]);
                }
                assert(v[v.len() - 1] == JsonView::Integer(l[l.len() - 1]));
            }
        }
    }
}

} // verus!
