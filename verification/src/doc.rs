//! TOML documents, as far as the project reads and keeps raw fields.
use vstd::prelude::*;

use crate::order;
use crate::order::is_text_less;
use crate::text;
use crate::text::{chars_of, is_listed, same};

verus! {

/// A value of the `toml` crate.
#[verifier::external_type_specification]
#[verifier::external_body]
pub struct ExTomlValue(toml::Value);

/// A TOML value.
#[derive(Debug)]
pub enum Doc {
    Text(String),
    Integer(i64),
    Boolean(bool),
    Array(Vec<Doc>),
    /// The fields, by ascending name.
    Table(Vec<Field>),
    /// A number with a fraction, a date or a time, which is only ever kept.
    Other(toml::Value),
}

/// A key of a table and its value.
#[derive(Debug)]
pub struct Field {
    pub name: String,
    pub value: Doc,
}

/// What a [`Doc`] holds.
pub enum DocView {
    Text(Seq<char>),
    Integer(i64),
    Boolean(bool),
    Array(Seq<DocView>),
    Table(Seq<FieldView>),
    Other(toml::Value),
}

/// What a [`Field`] holds.
pub struct FieldView {
    pub name: Seq<char>,
    pub value: DocView,
}

/// What a value of the `toml` crate holds.
pub uninterp spec fn value_holds(v: toml::Value) -> DocView;

/// What a document holds.
pub open spec fn doc_view(d: Doc) -> DocView
    decreases d,
{
    match d {
        Doc::Text(s) => DocView::Text(s@),
        Doc::Integer(i) => DocView::Integer(i),
        Doc::Boolean(b) => DocView::Boolean(b),
        Doc::Array(v) => DocView::Array(
            Seq::new(
                v@.len(),
                |i: int|
                    if 0 <= i < v@.len() {
                        doc_view(v@[i])
                    } else {
                        arbitrary()
                    },
            ),
        ),
        Doc::Table(v) => DocView::Table(
            Seq::new(
                v@.len(),
                |i: int|
                    if 0 <= i < v@.len() {
                        FieldView { name: v@[i].name@, value: doc_view(v@[i].value) }
                    } else {
                        arbitrary()
                    },
            ),
        ),
        Doc::Other(v) => DocView::Other(v),
    }
}

impl View for Doc {
    type V = DocView;

    open spec fn view(&self) -> DocView {
        doc_view(*self)
    }
}

impl View for Field {
    type V = FieldView;

    open spec fn view(&self) -> FieldView {
        FieldView { name: self.name@, value: self.value@ }
    }
}

/// What a list of documents holds.
pub open spec fn docs(v: Seq<Doc>) -> Seq<DocView> {
    v.map_values(|d: Doc| d@)
}

/// What a list of fields holds.
pub open spec fn fields(v: Seq<Field>) -> Seq<FieldView> {
    v.map_values(|f: Field| f@)
}

/// What an array and a table hold, element by element.
pub proof fn lemma_doc_view(d: Doc)
    ensures
        d matches Doc::Array(v) ==> d@ == DocView::Array(docs(v@)),
        d matches Doc::Table(v) ==> d@ == DocView::Table(fields(v@)),
{
    match d {
        Doc::Array(v) => {
            assert(d@->Array_0 =~= docs(v@));
        },
        Doc::Table(v) => {
            assert(d@->Table_0 =~= fields(v@));
        },
        _ => {},
    }
}

/// Whether fields stand by strictly ascending name.
pub open spec fn ascending(f: Seq<FieldView>) -> bool {
    forall|i: int, j: int|
        0 <= i < j < f.len() ==> order::text_less(#[trigger] f[i].name, #[trigger] f[j].name)
}

/// Whether every table in a document stands by strictly ascending name, and
/// what is only kept is neither text, integer, boolean, array nor table, at
/// every level.
pub open spec fn well_formed(d: DocView) -> bool
    decreases d,
{
    match d {
        DocView::Array(s) => forall|i: int| 0 <= i < s.len() ==> well_formed(#[trigger] s[i]),
        DocView::Table(f) => ascending(f) && forall|i: int|
            0 <= i < f.len() ==> well_formed((#[trigger] f[i]).value),
        DocView::Other(v) => value_holds(v) == d,
        _ => true,
    }
}

/// What a document text holds, or the message with which it is refused.
pub uninterp spec fn toml_reads(text: Seq<char>) -> Result<DocView, Seq<char>>;

/// The text of a document, or the message with which it is refused.
pub uninterp spec fn toml_writes(d: DocView) -> Result<Seq<char>, Seq<char>>;

/// The name of the field by which the `toml` crate tells a date from a table
/// while it reads.
pub const DATE_MARK: &'static str = "$__toml_private_datetime";

/// How deep the tables and arrays of a document may nest and surely be read.
pub const NESTING: usize = 64;

/// Whether a document holds the number, date or time `v`, at any level.
pub open spec fn holds(d: DocView, v: toml::Value) -> bool
    decreases d,
{
    match d {
        DocView::Other(x) => x == v,
        DocView::Array(s) => exists|i: int| 0 <= i < s.len() && holds(#[trigger] s[i], v),
        DocView::Table(f) => exists|i: int| 0 <= i < f.len() && holds((#[trigger] f[i]).value, v),
        _ => false,
    }
}

/// Whether a number, a date or a time is one that some text denotes.
pub open spec fn denoted(v: toml::Value) -> bool {
    exists|t: Seq<char>, d: DocView| #[trigger]
        toml_reads(t) == Ok::<DocView, Seq<char>>(d) && #[trigger] holds(d, v)
}

/// Whether a document nests no deeper than `depth` and names no field as the
/// crate marks a date.
pub open spec fn tame(d: DocView, depth: nat) -> bool
    decreases depth,
{
    match d {
        DocView::Array(s) => depth > 0 && forall|i: int|
            0 <= i < s.len() ==> tame(#[trigger] s[i], (depth - 1) as nat),
        DocView::Table(f) => depth > 0 && forall|i: int|
            0 <= i < f.len() ==> (#[trigger] f[i]).name != DATE_MARK@ && tame(
                f[i].value,
                (depth - 1) as nat,
            ),
        _ => true,
    }
}

/// As [`tame`], where in addition each number, date and time is one that some
/// text denotes.
pub open spec fn plain(d: DocView, depth: nat) -> bool
    decreases depth,
{
    match d {
        DocView::Array(s) => depth > 0 && forall|i: int|
            0 <= i < s.len() ==> plain(#[trigger] s[i], (depth - 1) as nat),
        DocView::Table(f) => depth > 0 && forall|i: int|
            0 <= i < f.len() ==> (#[trigger] f[i]).name != DATE_MARK@ && plain(
                f[i].value,
                (depth - 1) as nat,
            ),
        DocView::Other(v) => denoted(v),
        _ => true,
    }
}

/// Whether a document that was read is a table which, once written, is read as
/// it was.
pub open spec fn reads_back(d: DocView) -> bool {
    d is Table && tame(d, NESTING as nat)
}

/// Whether a document is a table which, once written, is read as it was.
pub open spec fn sound(d: DocView) -> bool {
    d is Table && plain(d, NESTING as nat)
}

/// `toml::from_str::<toml::Value>`: the value that a text denotes, or the error
/// as text. What it is depends on the text alone.
#[verifier::external_body]
fn parse_value(text: &str) -> (r: Result<toml::Value, String>)
    ensures
        match r {
            Ok(v) => toml_reads(text@) == Ok::<DocView, Seq<char>>(value_holds(v)),
            Err(e) => toml_reads(text@) == Err::<DocView, Seq<char>>(e@),
        },
{
    toml::from_str::<toml::Value>(text).map_err(|e| e.to_string())
}

/// `toml::to_string_pretty`: the text of a value, or the error as text. What it
/// is depends on what the value holds alone. A table is never refused, and
/// `toml::from_str` reads its text back as the same table, where its numbers,
/// dates and times are such as a text denotes: texts and keys are quoted and
/// escaped as they need, numbers and dates are written in full, empty arrays and
/// empty tables are written out, and what nests no deeper than [`NESTING`] stays
/// clear of the parser's limit.
#[verifier::external_body]
fn write_value(v: &toml::Value) -> (r: Result<String, String>)
    ensures
        match r {
            Ok(s) => toml_writes(value_holds(*v)) == Ok::<Seq<char>, Seq<char>>(s@) && (sound(
                value_holds(*v),
            ) ==> toml_reads(s@) == Ok::<DocView, Seq<char>>(value_holds(*v))),
            Err(e) => toml_writes(value_holds(*v)) == Err::<Seq<char>, Seq<char>>(e@) && !sound(
                value_holds(*v),
            ),
        },
{
    toml::to_string_pretty(v).map_err(|e| e.to_string())
}

/// A [`toml::Value`] taken apart, variant by variant. A `toml::Table` hands its
/// keys out once each and in ascending order, so the document is well formed.
#[verifier::external_body]
fn doc_of(v: toml::Value) -> (r: Doc)
    ensures
        r@ == value_holds(v),
        well_formed(r@),
{
    match v {
        toml::Value::String(s) => Doc::Text(s),
        toml::Value::Integer(i) => Doc::Integer(i),
        toml::Value::Boolean(b) => Doc::Boolean(b),
        toml::Value::Array(a) => Doc::Array(a.into_iter().map(doc_of).collect()),
        toml::Value::Table(t) => Doc::Table(
            t.into_iter().map(|(name, v)| Field { name, value: doc_of(v) }).collect(),
        ),
        other => Doc::Other(other),
    }
}

/// A [`toml::Value`] put together, variant by variant: it holds what the
/// document holds, whose tables name each key once.
#[verifier::external_body]
fn value_of(d: Doc) -> (r: toml::Value)
    requires
        well_formed(d@),
    ensures
        value_holds(r) == d@,
{
    match d {
        Doc::Text(s) => toml::Value::String(s),
        Doc::Integer(i) => toml::Value::Integer(i),
        Doc::Boolean(b) => toml::Value::Boolean(b),
        Doc::Array(a) => toml::Value::Array(a.into_iter().map(value_of).collect()),
        Doc::Table(t) => toml::Value::Table(
            t.into_iter().map(|f| (f.name, value_of(f.value))).collect(),
        ),
        Doc::Other(v) => v,
    }
}

/// [`toml::Value::clone`]: the same value.
#[verifier::external_body]
fn copy_value(v: &toml::Value) -> (r: toml::Value)
    ensures
        r == *v,
{
    v.clone()
}

/// Reads a document.
pub fn read_doc(text: &str) -> (r: Result<Doc, String>)
    ensures
        match r {
            Ok(d) => toml_reads(text@) == Ok::<DocView, Seq<char>>(d@) && well_formed(d@),
            Err(e) => toml_reads(text@) == Err::<DocView, Seq<char>>(e@),
        },
{
    match parse_value(text) {
        Ok(v) => Ok(doc_of(v)),
        Err(e) => Err(e),
    }
}

proof fn lemma_denoted_plain(d: DocView, depth: nat)
    requires
        tame(d, depth),
        forall|v: toml::Value| #[trigger] holds(d, v) ==> denoted(v),
    ensures
        plain(d, depth),
    decreases depth,
{
    match d {
        DocView::Array(s) => {
            assert forall|i: int| 0 <= i < d->Array_0.len() implies plain(
                #[trigger] d->Array_0[i],
                (depth - 1) as nat,
            ) by {
                assert(tame(d->Array_0[i], (depth - 1) as nat));
                assert forall|v: toml::Value| #[trigger] holds(d->Array_0[i], v) implies denoted(
                    v,
                ) by {
                    assert(holds(d, v));
                }
                lemma_denoted_plain(d->Array_0[i], (depth - 1) as nat);
            }
        },
        DocView::Table(f) => {
            assert forall|i: int| 0 <= i < d->Table_0.len() implies (#[trigger] d->Table_0[i]).name
                != DATE_MARK@ && plain(d->Table_0[i].value, (depth - 1) as nat) by {
                assert(tame(d->Table_0[i].value, (depth - 1) as nat));
                assert forall|v: toml::Value| #[trigger]
                    holds(d->Table_0[i].value, v) implies denoted(v) by {
                    assert(holds(d, v));
                }
                lemma_denoted_plain(d->Table_0[i].value, (depth - 1) as nat);
            }
        },
        DocView::Other(v) => {
            assert(holds(d, v));
        },
        _ => {},
    }
}

/// A document that was read and reads back is sound: its numbers, dates and
/// times are those that its text denotes.
pub proof fn lemma_read_is_sound(text: Seq<char>, d: DocView)
    requires
        toml_reads(text) == Ok::<DocView, Seq<char>>(d),
        reads_back(d),
    ensures
        sound(d),
{
    assert forall|v: toml::Value| #[trigger] holds(d, v) implies denoted(v) by {
        assert(toml_reads(text) == Ok::<DocView, Seq<char>>(d) && holds(d, v));
    }
    lemma_denoted_plain(d, NESTING as nat);
}

/// Writes a document.
pub fn write_doc(d: Doc) -> (r: Result<String, String>)
    requires
        well_formed(d@),
    ensures
        match r {
            Ok(s) => toml_writes(d@) == Ok::<Seq<char>, Seq<char>>(s@),
            Err(e) => toml_writes(d@) == Err::<Seq<char>, Seq<char>>(e@),
        },
        sound(d@) ==> r is Ok && toml_reads(r->Ok_0@) == Ok::<DocView, Seq<char>>(d@),
{
    let v = value_of(d);
    write_value(&v)
}

/// The value of the field with the given name.
pub open spec fn lookup(f: Seq<FieldView>, name: Seq<char>) -> Option<DocView>
    decreases f.len(),
{
    if f.len() == 0 {
        None
    } else if f[0].name == name {
        Some(f[0].value)
    } else {
        lookup(f.skip(1), name)
    }
}

/// The value of the field with the given name, where the document is a table.
pub open spec fn field_of(d: DocView, name: Seq<char>) -> Option<DocView> {
    match d {
        DocView::Table(f) => lookup(f, name),
        _ => None,
    }
}

/// The text of an optional value, where it is one.
pub open spec fn text_of(d: Option<DocView>) -> Option<Seq<char>> {
    match d {
        Some(DocView::Text(s)) => Some(s),
        _ => None,
    }
}

/// The integer of an optional value, where it is one.
pub open spec fn integer_of(d: Option<DocView>) -> Option<i64> {
    match d {
        Some(DocView::Integer(i)) => Some(i),
        _ => None,
    }
}

/// The elements of an optional value, where it is an array.
pub open spec fn array_of(d: Option<DocView>) -> Option<Seq<DocView>> {
    match d {
        Some(DocView::Array(s)) => Some(s),
        _ => None,
    }
}

/// What an optional document holds.
pub open spec fn opt_doc(o: Option<&Doc>) -> Option<DocView> {
    match o {
        Some(d) => Some(d@),
        None => None,
    }
}

fn find_field(v: &Vec<Field>, name: &str) -> (r: Option<usize>)
    ensures
        match r {
            Some(i) => i < v.len() && v@[i as int].name@ == name@ && lookup(fields(v@), name@)
                == Some(v@[i as int].value@) && forall|j: int|
                0 <= j < i ==> (#[trigger] v@[j]).name@ != name@,
            None => lookup(fields(v@), name@) is None && forall|j: int|
                0 <= j < v.len() ==> (#[trigger] v@[j]).name@ != name@,
        },
{
    let mut i: usize = 0;
    let ghost all = fields(v@);
    assert(all.skip(0) =~= all);
    while i < v.len()
        invariant
            i <= v.len(),
            all == fields(v@),
            lookup(all, name@) == lookup(all.skip(i as int), name@),
            forall|j: int| 0 <= j < i ==> (#[trigger] v@[j]).name@ != name@,
        decreases v.len() - i,
    {
        assert(all.skip(i as int)[0] == v@[i as int]@);
        if same(v[i].name.as_str(), name) {
            return Some(i);
        }
        assert(all.skip(i as int).skip(1) =~= all.skip(i + 1));
        i += 1;
    }
    None
}

impl Doc {
    /// The value of the field with the given name, where this is a table.
    pub fn get(&self, name: &str) -> (r: Option<&Doc>)
        ensures
            opt_doc(r) == field_of(self@, name@),
            well_formed(self@) ==> (r matches Some(d) ==> well_formed(d@)),
    {
        proof {
            lemma_doc_view(*self);
        }
        match self {
            Doc::Table(v) => match find_field(v, name) {
                Some(i) => {
                    assert(fields(v@)[i as int].value == v@[i as int].value@);
                    Some(&v[i].value)
                },
                None => None,
            },
            _ => None,
        }
    }
}

impl Doc {
    /// The text of this value, where it is one.
    pub fn as_text(&self) -> (r: Option<&str>)
        ensures
            match r {
                Some(s) => text_of(Some(self@)) == Some(s@),
                None => text_of(Some(self@)) is None,
            },
    {
        match self {
            Doc::Text(s) => Some(s.as_str()),
            _ => None,
        }
    }

    /// The integer of this value, where it is one.
    pub fn as_integer(&self) -> (r: Option<i64>)
        ensures
            r == integer_of(Some(self@)),
    {
        match self {
            Doc::Integer(i) => Some(*i),
            _ => None,
        }
    }

    /// The elements of this value, where it is an array.
    pub fn as_array(&self) -> (r: Option<&Vec<Doc>>)
        ensures
            match r {
                Some(v) => self@ == DocView::Array(docs(v@)),
                None => array_of(Some(self@)) is None,
            },
    {
        proof {
            lemma_doc_view(*self);
        }
        match self {
            Doc::Array(v) => Some(v),
            _ => None,
        }
    }

    /// The fields of this value, where it is a table.
    pub fn as_table(&self) -> (r: Option<&Vec<Field>>)
        ensures
            match r {
                Some(v) => self@ == DocView::Table(fields(v@)),
                None => !(self@ is Table),
            },
    {
        proof {
            lemma_doc_view(*self);
        }
        match self {
            Doc::Table(v) => Some(v),
            _ => None,
        }
    }
}

/// The names of fields, in order.
pub open spec fn names(f: Seq<FieldView>) -> Seq<Seq<char>> {
    f.map_values(|x: FieldView| x.name)
}

/// `f` with a field set: in place of the one with its name, or at its place by
/// ascending name.
pub open spec fn put(f: Seq<FieldView>, field: FieldView) -> Seq<FieldView>
    decreases f.len(),
{
    if f.len() == 0 {
        seq![field]
    } else if f[0].name == field.name {
        seq![field] + f.skip(1)
    } else if order::text_less(field.name, f[0].name) {
        seq![field] + f
    } else {
        seq![f[0]] + put(f.skip(1), field)
    }
}

/// `f` without the fields of the given name.
pub open spec fn without(f: Seq<FieldView>, name: Seq<char>) -> Seq<FieldView>
    decreases f.len(),
{
    if f.len() == 0 {
        f
    } else if f[0].name == name {
        without(f.skip(1), name)
    } else {
        seq![f[0]] + without(f.skip(1), name)
    }
}

/// Setting a field gives its value back, and leaves every other field alone.
pub proof fn law_put(f: Seq<FieldView>, field: FieldView, name: Seq<char>)
    ensures
        lookup(put(f, field), name) == (if name == field.name {
            Some(field.value)
        } else {
            lookup(f, name)
        }),
    decreases f.len(),
{
    let r = put(f, field);
    if f.len() == 0 {
        assert(r.skip(1) =~= f);
    } else if f[0].name == field.name {
        assert(r.skip(1) =~= f.skip(1));
    } else if order::text_less(field.name, f[0].name) {
        assert(r.skip(1) =~= f);
    } else {
        assert(r.skip(1) =~= put(f.skip(1), field));
        law_put(f.skip(1), field, name);
    }
}

/// Removing a field takes it away, and leaves every other field alone.
pub proof fn law_without(f: Seq<FieldView>, removed: Seq<char>, name: Seq<char>)
    ensures
        lookup(without(f, removed), name) == (if name == removed {
            None
        } else {
            lookup(f, name)
        }),
    decreases f.len(),
{
    if f.len() > 0 {
        law_without(f.skip(1), removed, name);
        if f[0].name != removed {
            assert(without(f, removed).skip(1) =~= without(f.skip(1), removed));
        }
    }
}

proof fn lemma_skip_ascending(f: Seq<FieldView>)
    requires
        ascending(f),
        f.len() > 0,
    ensures
        ascending(f.skip(1)),
{
    assert forall|i: int, j: int| 0 <= i < j < f.skip(1).len() implies order::text_less(
        #[trigger] f.skip(1)[i].name,
        #[trigger] f.skip(1)[j].name,
    ) by {
        assert(order::text_less(f[i + 1].name, f[j + 1].name));
    }
}

proof fn lemma_prepend_ascending(x: FieldView, f: Seq<FieldView>)
    requires
        ascending(f),
        forall|i: int| 0 <= i < f.len() ==> order::text_less(x.name, (#[trigger] f[i]).name),
    ensures
        ascending(seq![x] + f),
{
    let r = seq![x] + f;
    assert forall|i: int, j: int| 0 <= i < j < r.len() implies order::text_less(
        #[trigger] r[i].name,
        #[trigger] r[j].name,
    ) by {
        if i == 0 {
            assert(r[j] == f[j - 1]);
        } else {
            assert(r[i] == f[i - 1] && r[j] == f[j - 1]);
        }
    }
}

/// Every name that `put` leaves is the new one or was there.
proof fn lemma_put_members(f: Seq<FieldView>, field: FieldView, i: int)
    requires
        0 <= i < put(f, field).len(),
    ensures
        put(f, field)[i] == field || f.contains(put(f, field)[i]),
    decreases f.len(),
{
    let r = put(f, field);
    if f.len() > 0 && f[0].name == field.name {
        if i > 0 {
            assert(r[i] == f[i]);
        }
    } else if f.len() > 0 && order::text_less(field.name, f[0].name) {
        if i > 0 {
            assert(r[i] == f[i - 1]);
        }
    } else if f.len() > 0 {
        if i > 0 {
            lemma_put_members(f.skip(1), field, i - 1);
            assert(r[i] == put(f.skip(1), field)[i - 1]);
            if r[i] != field {
                let k = choose|k: int| 0 <= k < f.skip(1).len() && f.skip(1)[k] == r[i];
                assert(f[k + 1] == r[i]);
            }
        } else {
            assert(r[0] == f[0]);
        }
    }
}

/// Setting a field keeps fields by ascending name.
pub proof fn lemma_put_ascending(f: Seq<FieldView>, field: FieldView)
    requires
        ascending(f),
    ensures
        ascending(put(f, field)),
    decreases f.len(),
{
    if f.len() > 0 {
        lemma_skip_ascending(f);
        if f[0].name == field.name {
            assert forall|i: int| 0 <= i < f.skip(1).len() implies order::text_less(
                field.name,
                (#[trigger] f.skip(1)[i]).name,
            ) by {
                assert(order::text_less(f[0].name, f[i + 1].name));
            }
            lemma_prepend_ascending(field, f.skip(1));
        } else if order::text_less(field.name, f[0].name) {
            assert forall|i: int| 0 <= i < f.len() implies order::text_less(
                field.name,
                (#[trigger] f[i]).name,
            ) by {
                if i > 0 {
                    order::lemma_text_less_chain(field.name, f[0].name, f[i].name);
                }
            }
            lemma_prepend_ascending(field, f);
        } else {
            order::lemma_text_less_total(field.name, f[0].name);
            lemma_put_ascending(f.skip(1), field);
            let rest = put(f.skip(1), field);
            assert forall|i: int| 0 <= i < rest.len() implies order::text_less(
                f[0].name,
                (#[trigger] rest[i]).name,
            ) by {
                lemma_put_members(f.skip(1), field, i);
                if rest[i] != field {
                    let k = choose|k: int| 0 <= k < f.skip(1).len() && f.skip(1)[k] == rest[i];
                    assert(order::text_less(f[0].name, f[k + 1].name));
                }
            }
            lemma_prepend_ascending(f[0], rest);
        }
    }
}

/// Setting a field to a well-formed value keeps a table well formed.
pub proof fn lemma_put_well_formed(f: Seq<FieldView>, field: FieldView)
    requires
        well_formed(DocView::Table(f)),
        well_formed(field.value),
    ensures
        well_formed(DocView::Table(put(f, field))),
{
    lemma_put_ascending(f, field);
    let r = put(f, field);
    assert forall|i: int| 0 <= i < r.len() implies well_formed((#[trigger] r[i]).value) by {
        lemma_put_members(f, field, i);
        if r[i] != field {
            let k = choose|k: int| 0 <= k < f.len() && f[k] == r[i];
            assert(well_formed(f[k].value));
        }
    }
}

proof fn lemma_without_members(f: Seq<FieldView>, name: Seq<char>, i: int)
    requires
        0 <= i < without(f, name).len(),
    ensures
        f.contains(without(f, name)[i]),
    decreases f.len(),
{
    if f.len() > 0 {
        let r = without(f, name);
        let rest = without(f.skip(1), name);
        if f[0].name == name {
            lemma_without_members(f.skip(1), name, i);
            let k = choose|k: int| 0 <= k < f.skip(1).len() && f.skip(1)[k] == r[i];
            assert(f[k + 1] == r[i]);
        } else if i > 0 {
            assert(r[i] == rest[i - 1]);
            lemma_without_members(f.skip(1), name, i - 1);
            let k = choose|k: int| 0 <= k < f.skip(1).len() && f.skip(1)[k] == r[i];
            assert(f[k + 1] == r[i]);
        } else {
            assert(r[0] == f[0]);
        }
    }
}

/// Removing a field keeps fields by ascending name.
proof fn lemma_without_ascending(f: Seq<FieldView>, name: Seq<char>)
    requires
        ascending(f),
    ensures
        ascending(without(f, name)),
    decreases f.len(),
{
    if f.len() > 0 {
        lemma_skip_ascending(f);
        lemma_without_ascending(f.skip(1), name);
        let rest = without(f.skip(1), name);
        if f[0].name != name {
            assert forall|i: int| 0 <= i < rest.len() implies order::text_less(
                f[0].name,
                (#[trigger] rest[i]).name,
            ) by {
                lemma_without_members(f.skip(1), name, i);
                let k = choose|k: int| 0 <= k < f.skip(1).len() && f.skip(1)[k] == rest[i];
                assert(order::text_less(f[0].name, f[k + 1].name));
            }
            lemma_prepend_ascending(f[0], rest);
        }
    }
}

/// Removing a field keeps a table well formed.
pub proof fn lemma_without_well_formed(f: Seq<FieldView>, name: Seq<char>)
    requires
        well_formed(DocView::Table(f)),
    ensures
        well_formed(DocView::Table(without(f, name))),
{
    lemma_without_ascending(f, name);
    let r = without(f, name);
    assert forall|i: int| 0 <= i < r.len() implies well_formed((#[trigger] r[i]).value) by {
        lemma_without_members(f, name, i);
        let k = choose|k: int| 0 <= k < f.len() && f[k] == r[i];
        assert(well_formed(f[k].value));
    }
}

/// Sets a field.
pub fn put_field(v: Vec<Field>, field: Field) -> (r: Vec<Field>)
    ensures
        fields(r@) == put(fields(v@), field@),
{
    let mut out = v;
    let ghost all = fields(out@);
    let ghost x = field@;
    let name = chars_of(field.name.as_str());
    let mut i: usize = 0;
    assert(all.skip(0) =~= all);
    assert(all.take(0) + put(all, x) =~= put(all, x));
    while i < out.len()
        invariant
            i <= out.len(),
            all == fields(out@),
            all == fields(v@),
            x == field@,
            name@ == x.name,
            put(all, x) == all.take(i as int) + put(all.skip(i as int), x),
        decreases out.len() - i,
    {
        let ghost rest = all.skip(i as int);
        assert(rest[0] == out@[i as int]@);
        let other = chars_of(out[i].name.as_str());
        if same(out[i].name.as_str(), field.name.as_str()) {
            out.set(i, field);
            assert(rest.skip(1) =~= all.skip(i + 1));
            assert(fields(out@) =~= all.take(i as int) + (seq![x] + rest.skip(1)));
            return out;
        }
        if is_text_less(&name, &other) {
            out.insert(i, field);
            assert(fields(out@) =~= all.take(i as int) + (seq![x] + rest));
            return out;
        }
        assert(rest.skip(1) =~= all.skip(i + 1));
        assert(all.take(i as int) + (seq![rest[0]] + put(rest.skip(1), x)) =~= all.take(i + 1)
            + put(all.skip(i + 1), x));
        i += 1;
    }
    out.push(field);
    assert(all.skip(i as int).len() == 0);
    assert(fields(out@) =~= all.take(i as int) + seq![x]);
    out
}

/// Removes the fields of the given name.
pub fn remove_field(v: Vec<Field>, name: &str) -> (r: Vec<Field>)
    ensures
        fields(r@) == without(fields(v@), name@),
{
    let mut v = v;
    let ghost all = fields(v@);
    let mut out: Vec<Field> = Vec::new();
    assert(fields(out@) + without(all, name@) =~= without(all, name@));
    while v.len() > 0
        invariant
            fields(out@) + without(fields(v@), name@) == without(all, name@),
        decreases v.len(),
    {
        let ghost rest = fields(v@);
        let ghost before = fields(out@);
        let f = v.remove(0);
        assert(fields(v@) =~= rest.skip(1));
        assert(rest[0] == f@);
        if !same(f.name.as_str(), name) {
            out.push(f);
            assert(fields(out@) =~= before.push(rest[0]));
            assert(before + (seq![rest[0]] + without(rest.skip(1), name@)) =~= fields(out@)
                + without(rest.skip(1), name@));
        }
    }
    assert(fields(out@) + without(fields(v@), name@) =~= fields(out@));
    out
}

/// A copy of a document.
pub fn copy(d: &Doc) -> (r: Doc)
    ensures
        r@ == d@,
    decreases d,
{
    match d {
        Doc::Text(s) => Doc::Text(s.clone()),
        Doc::Integer(i) => Doc::Integer(*i),
        Doc::Boolean(b) => Doc::Boolean(*b),
        Doc::Other(v) => Doc::Other(copy_value(v)),
        Doc::Array(v) => {
            let mut out: Vec<Doc> = Vec::new();
            let mut i: usize = 0;
            while i < v.len()
                invariant
                    *d == Doc::Array(*v),
                    i <= v.len(),
                    out.len() == i,
                    forall|j: int| 0 <= j < i ==> (#[trigger] out@[j])@ == v@[j]@,
                decreases v.len() - i,
            {
                let x = &v[i];
                assert(decreases_to!(*d => d->Array_0));
                assert(decreases_to!(d->Array_0 => v@));
                assert(decreases_to!(v@ => v@[i as int]));
                out.push(copy(x));
                i += 1;
            }
            let r = Doc::Array(out);
            proof {
                lemma_doc_view(*d);
                lemma_doc_view(r);
                assert(docs(out@) =~= docs(v@));
            }
            r
        },
        Doc::Table(v) => {
            let mut out: Vec<Field> = Vec::new();
            let mut i: usize = 0;
            while i < v.len()
                invariant
                    *d == Doc::Table(*v),
                    i <= v.len(),
                    out.len() == i,
                    forall|j: int| 0 <= j < i ==> (#[trigger] out@[j])@ == v@[j]@,
                decreases v.len() - i,
            {
                let x = &v[i];
                assert(decreases_to!(*d => d->Table_0));
                assert(decreases_to!(d->Table_0 => v@));
                assert(decreases_to!(v@ => v@[i as int]));
                assert(decreases_to!(v@[i as int] => v@[i as int].value));
                out.push(Field { name: x.name.clone(), value: copy(&x.value) });
                i += 1;
            }
            let r = Doc::Table(out);
            proof {
                lemma_doc_view(*d);
                lemma_doc_view(r);
                assert(fields(out@) =~= fields(v@));
            }
            r
        },
    }
}

/// `new` with the fields of `old` that are neither known nor already there.
pub open spec fn completed(new: Seq<FieldView>, old: Seq<FieldView>, known: Seq<&str>) -> Seq<
    FieldView,
>
    decreases old.len(),
{
    if old.len() == 0 {
        new
    } else {
        let f = old[0];
        let next = if text::listed(f.name, known) || lookup(new, f.name) is Some {
            new
        } else {
            put(new, f)
        };
        completed(next, old.skip(1), known)
    }
}

/// `new` with the fields of `old` that are not known, in place of its own.
pub open spec fn overlaid(new: Seq<FieldView>, old: Seq<FieldView>, known: Seq<&str>) -> Seq<
    FieldView,
>
    decreases old.len(),
{
    if old.len() == 0 {
        new
    } else {
        let f = old[0];
        let next = if text::listed(f.name, known) {
            new
        } else {
            put(new, f)
        };
        overlaid(next, old.skip(1), known)
    }
}

/// Completing a table keeps every field of its own, takes every unknown field
/// of the old one that it lacks, and nothing else.
pub proof fn law_completed(
    new: Seq<FieldView>,
    old: Seq<FieldView>,
    known: Seq<&str>,
    name: Seq<char>,
)
    ensures
        lookup(completed(new, old, known), name) == (match lookup(new, name) {
            Some(v) => Some(v),
            None => if text::listed(name, known) {
                None
            } else {
                lookup(old, name)
            },
        }),
    decreases old.len(),
{
    if old.len() > 0 {
        let f = old[0];
        let next = if text::listed(f.name, known) || lookup(new, f.name) is Some {
            new
        } else {
            put(new, f)
        };
        law_put(new, f, name);
        law_completed(next, old.skip(1), known, name);
    }
}

/// Overlaying a table takes every unknown field of the old one and keeps the
/// rest of its own, where the old one names no field twice.
pub proof fn law_overlaid(
    new: Seq<FieldView>,
    old: Seq<FieldView>,
    known: Seq<&str>,
    name: Seq<char>,
)
    requires
        ascending(old),
    ensures
        lookup(overlaid(new, old, known), name) == (if text::listed(name, known) || lookup(
            old,
            name,
        ) is None {
            lookup(new, name)
        } else {
            lookup(old, name)
        }),
    decreases old.len(),
{
    if old.len() > 0 {
        let f = old[0];
        let next = if text::listed(f.name, known) {
            new
        } else {
            put(new, f)
        };
        law_put(new, f, name);
        lemma_skip_ascending(old);
        law_overlaid(next, old.skip(1), known, name);
        if f.name == name {
            lemma_first_is_once(old);
        }
    }
}

/// The first of ascending names does not come again.
proof fn lemma_first_is_once(f: Seq<FieldView>)
    requires
        ascending(f),
        f.len() > 0,
    ensures
        lookup(f.skip(1), f[0].name) is None,
{
    assert forall|i: int| 0 <= i < f.skip(1).len() implies (#[trigger] f.skip(1)[i]).name
        != f[0].name by {
        assert(order::text_less(f[0].name, f[i + 1].name));
        order::lemma_text_less_irreflexive(f[0].name);
    }
    lemma_lookup_none(f.skip(1), f[0].name);
}

proof fn lemma_lookup_none(f: Seq<FieldView>, name: Seq<char>)
    requires
        forall|i: int| 0 <= i < f.len() ==> (#[trigger] f[i]).name != name,
    ensures
        lookup(f, name) is None,
    decreases f.len(),
{
    if f.len() > 0 {
        assert(f[0].name != name);
        assert forall|i: int| 0 <= i < f.skip(1).len() implies (#[trigger] f.skip(1)[i]).name
            != name by {
            assert(f[i + 1].name != name);
        }
        lemma_lookup_none(f.skip(1), name);
    }
}

/// Completing and overlaying well-formed tables give well-formed tables.
pub proof fn lemma_merged_well_formed(
    new: Seq<FieldView>,
    old: Seq<FieldView>,
    known: Seq<&str>,
)
    requires
        well_formed(DocView::Table(new)),
        well_formed(DocView::Table(old)),
    ensures
        well_formed(DocView::Table(completed(new, old, known))),
        well_formed(DocView::Table(overlaid(new, old, known))),
    decreases old.len(),
{
    if old.len() > 0 {
        let f = old[0];
        assert(well_formed(old[0].value));
        lemma_skip_ascending(old);
        assert(well_formed(DocView::Table(old.skip(1)))) by {
            assert forall|i: int| 0 <= i < old.skip(1).len() implies well_formed(
                (#[trigger] old.skip(1)[i]).value,
            ) by {
                assert(well_formed(old[i + 1].value));
            }
        }
        lemma_put_well_formed(new, f);
        lemma_merged_well_formed(new, old.skip(1), known);
        lemma_merged_well_formed(put(new, f), old.skip(1), known);
    }
}

/// The value of a field of a plain table is plain.
pub proof fn lemma_lookup_plain(f: Seq<FieldView>, name: Seq<char>, depth: nat)
    requires
        plain(DocView::Table(f), depth),
        lookup(f, name) is Some,
    ensures
        plain(lookup(f, name)->0, (depth - 1) as nat),
    decreases f.len(),
{
    if f[0].name == name {
        assert(plain(f[0].value, (depth - 1) as nat));
    } else {
        lemma_skip_plain(f, depth);
        lemma_lookup_plain(f.skip(1), name, depth);
    }
}

proof fn lemma_skip_plain(f: Seq<FieldView>, depth: nat)
    requires
        plain(DocView::Table(f), depth),
        f.len() > 0,
    ensures
        plain(DocView::Table(f.skip(1)), depth),
{
    let r = f.skip(1);
    assert forall|i: int| 0 <= i < r.len() implies (#[trigger] r[i]).name != DATE_MARK@ && plain(
        r[i].value,
        (depth - 1) as nat,
    ) by {
        assert(plain(f[i + 1].value, (depth - 1) as nat));
    }
}

/// Setting a field to a plain value keeps a table plain.
pub proof fn lemma_put_plain(f: Seq<FieldView>, field: FieldView, depth: nat)
    requires
        plain(DocView::Table(f), depth),
        field.name != DATE_MARK@,
        plain(field.value, (depth - 1) as nat),
    ensures
        plain(DocView::Table(put(f, field)), depth),
{
    let r = put(f, field);
    assert forall|i: int| 0 <= i < r.len() implies (#[trigger] r[i]).name != DATE_MARK@ && plain(
        r[i].value,
        (depth - 1) as nat,
    ) by {
        lemma_put_members(f, field, i);
        if r[i] != field {
            let k = choose|k: int| 0 <= k < f.len() && f[k] == r[i];
            assert(plain(f[k].value, (depth - 1) as nat));
        }
    }
}

/// Removing a field keeps a table plain.
pub proof fn lemma_without_plain(f: Seq<FieldView>, name: Seq<char>, depth: nat)
    requires
        plain(DocView::Table(f), depth),
    ensures
        plain(DocView::Table(without(f, name)), depth),
{
    let r = without(f, name);
    assert forall|i: int| 0 <= i < r.len() implies (#[trigger] r[i]).name != DATE_MARK@ && plain(
        r[i].value,
        (depth - 1) as nat,
    ) by {
        lemma_without_members(f, name, i);
        let k = choose|k: int| 0 <= k < f.len() && f[k] == r[i];
        assert(plain(f[k].value, (depth - 1) as nat));
    }
}

/// Completing and overlaying plain tables give plain tables.
pub proof fn lemma_merged_plain(
    new: Seq<FieldView>,
    old: Seq<FieldView>,
    known: Seq<&str>,
    depth: nat,
)
    requires
        plain(DocView::Table(new), depth),
        plain(DocView::Table(old), depth),
    ensures
        plain(DocView::Table(completed(new, old, known)), depth),
        plain(DocView::Table(overlaid(new, old, known)), depth),
    decreases old.len(),
{
    if old.len() > 0 {
        let f = old[0];
        assert(plain(old[0].value, (depth - 1) as nat));
        lemma_skip_plain(old, depth);
        lemma_put_plain(new, f, depth);
        lemma_merged_plain(new, old.skip(1), known, depth);
        lemma_merged_plain(put(new, f), old.skip(1), known, depth);
    }
}

/// Adds the fields of `old` that are neither known nor already there.
pub fn complete(new: Vec<Field>, old: &Vec<Field>, known: &[&str]) -> (r: Vec<Field>)
    ensures
        fields(r@) == completed(fields(new@), fields(old@), known@),
{
    let mut out = new;
    let ghost target = completed(fields(new@), fields(old@), known@);
    let mut i: usize = 0;
    assert(fields(old@).skip(0) =~= fields(old@));
    while i < old.len()
        invariant
            i <= old.len(),
            target == completed(fields(out@), fields(old@).skip(i as int), known@),
        decreases old.len() - i,
    {
        assert(fields(old@).skip(i as int)[0] == old@[i as int]@);
        assert(fields(old@).skip(i as int).skip(1) =~= fields(old@).skip(i + 1));
        let listed = is_listed(old[i].name.as_str(), known);
        let there = find_field(&out, old[i].name.as_str()).is_some();
        if !listed && !there {
            let field = Field { name: old[i].name.clone(), value: copy(&old[i].value) };
            out = put_field(out, field);
        }
        i += 1;
    }
    out
}

/// Sets the fields of `old` that are not known.
pub fn overlay(new: Vec<Field>, old: &Vec<Field>, known: &[&str]) -> (r: Vec<Field>)
    ensures
        fields(r@) == overlaid(fields(new@), fields(old@), known@),
{
    let mut out = new;
    let ghost target = overlaid(fields(new@), fields(old@), known@);
    let mut i: usize = 0;
    assert(fields(old@).skip(0) =~= fields(old@));
    while i < old.len()
        invariant
            i <= old.len(),
            target == overlaid(fields(out@), fields(old@).skip(i as int), known@),
        decreases old.len() - i,
    {
        assert(fields(old@).skip(i as int)[0] == old@[i as int]@);
        assert(fields(old@).skip(i as int).skip(1) =~= fields(old@).skip(i + 1));
        if !is_listed(old[i].name.as_str(), known) {
            let field = Field { name: old[i].name.clone(), value: copy(&old[i].value) };
            out = put_field(out, field);
        }
        i += 1;
    }
    out
}

/// The elements of a well-formed array are well formed.
pub proof fn lemma_elements_well_formed(s: Seq<DocView>)
    requires
        well_formed(DocView::Array(s)),
    ensures
        forall|i: int| 0 <= i < s.len() ==> well_formed(#[trigger] s[i]),
{
    let d = DocView::Array(s);
    assert forall|i: int| 0 <= i < s.len() implies well_formed(#[trigger] s[i]) by {
        assert(d->Array_0[i] == s[i]);
        assert(well_formed(d->Array_0[i]));
    }
}

/// The elements of a plain array are plain.
pub proof fn lemma_elements_plain(s: Seq<DocView>, depth: nat)
    requires
        plain(DocView::Array(s), depth),
    ensures
        forall|i: int| 0 <= i < s.len() ==> plain(#[trigger] s[i], (depth - 1) as nat),
{
    let d = DocView::Array(s);
    assert forall|i: int| 0 <= i < s.len() implies plain(#[trigger] s[i], (depth - 1) as nat) by {
        assert(d->Array_0[i] == s[i]);
        assert(plain(d->Array_0[i], (depth - 1) as nat));
    }
}

/// A document completed by the fields of the one it replaces that are neither
/// known nor in it.
pub open spec fn completed_doc(new: DocView, old: DocView, known: Seq<&str>) -> DocView {
    match (new, old) {
        (DocView::Table(n), DocView::Table(o)) => DocView::Table(completed(n, o, known)),
        _ => new,
    }
}

/// The text of a document that is written in place of another, completed by the
/// fields of that one that are neither known nor in it.
pub open spec fn completed_text(new: Seq<char>, old: Seq<char>, known: Seq<&str>) -> Result<
    Seq<char>,
    Seq<char>,
> {
    match (toml_reads(new), toml_reads(old)) {
        (Ok(n), Ok(o)) => toml_writes(completed_doc(n, o, known)),
        (Err(e), _) => Err(e),
        (_, Err(e)) => Err(e),
    }
}

/// Completes a document by the fields of the one it replaces that are neither
/// known nor in it.
pub fn complete_doc(new: Doc, old: &Doc, known: &[&str]) -> (r: Doc)
    ensures
        r@ == completed_doc(new@, old@, known@),
        well_formed(new@) && well_formed(old@) ==> well_formed(r@),
{
    proof {
        lemma_doc_view(new);
        lemma_doc_view(*old);
    }
    match (new, old) {
        (Doc::Table(n), Doc::Table(o)) => {
            let all = complete(n, o, known);
            proof {
                lemma_doc_view(Doc::Table(all));
                if well_formed(new@) && well_formed(old@) {
                    lemma_merged_well_formed(fields(n@), fields(o@), known@);
                }
            }
            Doc::Table(all)
        },
        (n, _) => n,
    }
}

/// The text of a document that is written in place of another, completed by the
/// fields of that one that are neither known nor in it. Two documents that read
/// back give a text that is read as the one completed by the other.
pub fn complete_text(new: &str, old: &str, known: &[&str]) -> (r: Result<String, String>)
    ensures
        match r {
            Ok(s) => completed_text(new@, old@, known@) == Ok::<Seq<char>, Seq<char>>(s@),
            Err(e) => completed_text(new@, old@, known@) == Err::<Seq<char>, Seq<char>>(e@),
        },
        match (toml_reads(new@), toml_reads(old@)) {
            (Ok(n), Ok(o)) => reads_back(n) && reads_back(o) ==> r is Ok && toml_reads(r->Ok_0@)
                == Ok::<DocView, Seq<char>>(completed_doc(n, o, known@)),
            _ => true,
        },
{
    let n = match read_doc(new) {
        Ok(d) => d,
        Err(e) => {
            return Err(e);
        },
    };
    let o = match read_doc(old) {
        Ok(d) => d,
        Err(e) => {
            return Err(e);
        },
    };
    proof {
        if reads_back(n@) && reads_back(o@) {
            lemma_read_is_sound(new@, n@);
            lemma_read_is_sound(old@, o@);
            lemma_merged_plain(n@->Table_0, o@->Table_0, known@, NESTING as nat);
        }
    }
    write_doc(complete_doc(n, &o, known))
}

} // verus!
