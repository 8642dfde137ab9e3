//! The doctor: what is reported of a whole project is what is wrong with its parts.
use vstd::prelude::*;

use crate::clock::Instant;
use crate::diag;
use crate::diag::{
    FileRead, FindingView, KbSource, MilestonesSource, ProjectFiles, TaskSource, Timestamp,
};
use crate::doc;
use crate::doc::DocView;
use crate::laws::files;
use crate::laws::files::{error_of, stray, task_text_told, warning_of};
use crate::laws::inspection::{error_at, lemma_push, lies_after, tells, warning_at, Told};
use crate::laws::references;
use crate::laws::references::{file_told, kb_told};
use crate::model;
use crate::model::TaskView;
use crate::text;

verus! {

/// A timestamp lies after another exactly when both are of the same sort, with an
/// offset or naive, and the first is later.
pub proof fn law_timestamps_are_compared(a: Timestamp, b: Timestamp)
    ensures
        diag::after(a, b) <==> match (a, b) {
            (Timestamp::Offset(x), Timestamp::Offset(y)) => lies_after(x, y),
            (Timestamp::Naive(x), Timestamp::Naive(y)) => lies_after(x, y),
            _ => false,
        },
        diag::comparable(a, b) <==> a is Offset && b is Offset || a is Naive && b is Naive,
{
}

/// A text that reads both with an offset and without is taken with it.
pub proof fn law_offsets_come_first(offset: Option<Instant>, naive: Option<Instant>)
    ensures
        offset matches Some(i) ==> diag::picked(offset, naive) == Some(Timestamp::Offset(i)),
        offset is None ==> (naive matches Some(i) ==> diag::picked(offset, naive) == Some(
            Timestamp::Naive(i),
        )),
        offset is None && naive is None ==> diag::picked(offset, naive) is None,
{
}

/// The task files of a folder are the names in `.toml` with something before it, in
/// order.
pub proof fn law_task_files_of_a_folder(names: Seq<Seq<char>>)
    ensures
        diag::toml_names(names) == names.filter(
            |n: Seq<char>| n.len() > 5 && ".toml"@.is_suffix_of(n),
        ),
{
    let f = |n: Seq<char>| n.len() > 5 && ".toml"@.is_suffix_of(n);
    let g = |n: Seq<char>| diag::toml_name(n);
    assert forall|n: Seq<char>| #[trigger] f(n) == g(n) by {
        text::law_ends(n, ".toml"@);
    }
    text::lemma_filter_same(names, f, g);
}

/// Whether an element of an array has a field of that name that is not known.
pub open spec fn stray_in(
    elements: Seq<DocView>,
    known: Seq<&str>,
    i: int,
    n: Seq<char>,
) -> bool {
    elements[i] is Table && stray(elements[i]->Table_0, known, diag::NO_LEGACY_FIELDS@, n)
}

/// Fields of the elements of an array that are not known are reported under their
/// names, as warnings, and nothing else is.
pub proof fn law_elements_are_inspected(
    acc: Seq<FindingView>,
    file: Seq<char>,
    elements: Seq<DocView>,
    known: Seq<&str>,
    what: Seq<char>,
    i: int,
    x: Told,
)
    requires
        0 <= i <= elements.len(),
    ensures
        tells(diag::elements_checked(acc, file, elements, known, what, i), x) <==> tells(acc, x)
            || (x.field is Some && x == warning_at(file, "value.unknown_field"@, x.field->0)
            && exists|k: int|
            i <= k < elements.len() && #[trigger] stray_in(elements, known, k, x.field->0)),
    decreases elements.len() - i,
{
    if i < elements.len() {
        let name = what + "["@ + text::decimal(i) + "]"@;
        let none = diag::NO_LEGACY_FIELDS@;
        let next = diag::unknown_checked(acc, file, elements[i], known, none, name);
        if let DocView::Table(f) = elements[i] {
            files::law_stray_fields_are_reported(acc, file, f, known, none, name, x);
        }
        law_elements_are_inspected(next, file, elements, known, what, i + 1, x);
        if let Some(n) = x.field {
            if exists|k: int| i <= k < elements.len() && #[trigger] stray_in(elements, known, k, n) {
                let k = choose|k: int|
                    i <= k < elements.len() && #[trigger] stray_in(elements, known, k, n);
                if k > i {
                    assert(stray_in(elements, known, k, n));
                }
            }
            if stray_in(elements, known, i, n) && x == warning_at(file, "value.unknown_field"@, n) {
                assert(tells(next, x));
            }
        }
    }
}

/// Whether the elements of a file's array are reported as `x`.
pub open spec fn array_told(
    file: Seq<char>,
    read: Result<DocView, Seq<char>>,
    known: Seq<&str>,
    what: Seq<char>,
    x: Told,
) -> bool {
    &&& read is Ok
    &&& doc::field_of(read->Ok_0, what) matches Some(DocView::Array(l)) && (x.field is Some && x
        == warning_at(file, "value.unknown_field"@, x.field->0) && exists|k: int|
        0 <= k < l.len() && #[trigger] stray_in(l, known, k, x.field->0))
}

proof fn lemma_array(
    acc: Seq<FindingView>,
    file: Seq<char>,
    read: Result<DocView, Seq<char>>,
    known: Seq<&str>,
    what: Seq<char>,
    x: Told,
)
    ensures
        tells(diag::array_checked(acc, file, read, known, what), x) <==> tells(acc, x) || array_told(
            file,
            read,
            known,
            what,
            x,
        ),
{
    if let Ok(d) = read {
        if let Some(DocView::Array(l)) = doc::field_of(d, what) {
            law_elements_are_inspected(acc, file, l, known, what, 0, x);
        }
    }
}

/// Whether the file of the milestones is reported as `x`.
pub open spec fn milestones_told(s: MilestonesSource, x: Told) -> bool {
    let file = diag::milestones_rel();
    match s.read {
        FileRead::Missing => false,
        FileRead::Unreadable(_) => x == error_of(file, "milestones.read_error"@),
        FileRead::Text(t) => {
            ||| array_told(
                file,
                doc::toml_reads(t@),
                diag::KNOWN_MILESTONE_FIELDS@,
                "milestones"@,
                x,
            )
            ||| s.record is Err && x == error_of(file, "milestones.parse_error"@)
            ||| s.record is Ok && x == error_at(file, "milestone.duplicate_id"@, "id"@)
                && exists|k: int|
                0 <= k < s.record->Ok_0@.len() && #[trigger] files::comes_again(
                    model::milestones(s.record->Ok_0@),
                    k,
                )
        },
    }
}

proof fn lemma_milestones(acc: Seq<FindingView>, s: MilestonesSource, x: Told)
    ensures
        tells(diag::milestones_checked(acc, s), x) <==> tells(acc, x) || milestones_told(s, x),
{
    let file = diag::milestones_rel();
    let all = diag::milestones_checked(acc, s);
    match s.read {
        FileRead::Missing => {},
        FileRead::Unreadable(_) => {
            assert(all =~= acc.push(all.last()));
            lemma_push(acc, all.last(), x);
        },
        FileRead::Text(t) => {
            let read = doc::toml_reads(t@);
            let known = diag::array_checked(
                acc,
                file,
                read,
                diag::KNOWN_MILESTONE_FIELDS@,
                "milestones"@,
            );
            lemma_array(acc, file, read, diag::KNOWN_MILESTONE_FIELDS@, "milestones"@, x);
            match s.record {
                Ok(m) => {
                    files::law_milestone_ids_are_inspected(known, model::milestones(m@), 0, x);
                },
                Err(_) => {
                    assert(all =~= known.push(all.last()));
                    lemma_push(known, all.last(), x);
                },
            }
        },
    }
}

/// Whether a task file is reported as `x`: its name, that it cannot be read, that it
/// is no document, or what is wrong with the document and the record.
pub open spec fn source_told(s: TaskSource, x: Told) -> bool {
    let file = diag::task_rel(s.name@);
    let id = text::integer(diag::stem_of(s.name@));
    ||| id is None && x == warning_of(file, "task.nonnumeric_filename"@)
    ||| s.read is Unreadable && x == error_of(file, "task.read_error"@)
    ||| s.read matches FileRead::Text(t) && match doc::toml_reads(t@) {
        Err(_) => x == error_of(file, "task.parse_error"@),
        Ok(d) => task_text_told(file, id, d, diag::record_read(s.record), x),
    }
}

proof fn lemma_source(acc: Seq<FindingView>, s: TaskSource, x: Told)
    ensures
        tells(diag::source_checked(acc, s), x) <==> tells(acc, x) || source_told(s, x),
{
    let named = diag::name_checked(acc, s.name@);
    let all = diag::source_checked(acc, s);
    files::law_task_names_are_inspected(acc, s.name@, x);
    match s.read {
        FileRead::Missing => {},
        FileRead::Unreadable(_) => {
            assert(all =~= named.push(all.last()));
            lemma_push(named, all.last(), x);
        },
        FileRead::Text(t) => {
            files::law_task_texts_are_inspected(
                named,
                s.name@,
                doc::toml_reads(t@),
                diag::record_read(s.record),
                x,
            );
        },
    }
}

/// Task files are reported each on its own: what is reported is what some file is
/// reported for.
pub proof fn law_task_files_are_inspected(acc: Seq<FindingView>, s: Seq<TaskSource>, x: Told)
    ensures
        tells(diag::sources_checked(acc, s), x) <==> tells(acc, x) || exists|k: int|
            0 <= k < s.len() && source_told(#[trigger] s[k], x),
    decreases s.len(),
{
    if s.len() > 0 {
        let front = s.drop_last();
        law_task_files_are_inspected(acc, front, x);
        lemma_source(diag::sources_checked(acc, front), s.last(), x);
        if exists|k: int| 0 <= k < front.len() && source_told(#[trigger] front[k], x) {
            let k = choose|k: int| 0 <= k < front.len() && source_told(#[trigger] front[k], x);
            assert(source_told(s[k], x));
        }
        if exists|k: int| 0 <= k < s.len() && source_told(#[trigger] s[k], x) {
            let k = choose|k: int| 0 <= k < s.len() && source_told(#[trigger] s[k], x);
            if k < front.len() {
                assert(source_told(front[k], x));
            }
        }
        if source_told(s.last(), x) {
            assert(source_told(s[s.len() - 1], x));
        }
    }
}

/// Whether a file of the knowledge base is reported as `x`.
pub open spec fn kb_source_told(tasks: Seq<TaskView>, s: KbSource, x: Told) -> bool {
    let file = diag::kb_rel(s.kind);
    match s.read {
        FileRead::Missing => false,
        FileRead::Unreadable(_) => x == error_of(file, "kb.read_error"@),
        FileRead::Text(t) => {
            ||| array_told(file, doc::toml_reads(t@), diag::KNOWN_KB_ENTRY_FIELDS@, "entries"@, x)
            ||| s.record is Err && x == error_of(file, "kb.parse_error"@)
            ||| s.record is Ok && kb_told(file, s.kind, tasks, s.record->Ok_0@, x)
        },
    }
}

/// Files of the knowledge base are reported each on its own.
pub proof fn law_kb_files_are_inspected(
    acc: Seq<FindingView>,
    tasks: Seq<TaskView>,
    s: Seq<KbSource>,
    x: Told,
)
    ensures
        tells(diag::kb_checked(acc, tasks, s), x) <==> tells(acc, x) || exists|k: int|
            0 <= k < s.len() && kb_source_told(tasks, #[trigger] s[k], x),
    decreases s.len(),
{
    if s.len() > 0 {
        let front = s.drop_last();
        let before = diag::kb_checked(acc, tasks, front);
        law_kb_files_are_inspected(acc, tasks, front, x);
        lemma_kb_source(before, tasks, s.last(), x);
        if exists|k: int| 0 <= k < front.len() && kb_source_told(tasks, #[trigger] front[k], x) {
            let k = choose|k: int|
                0 <= k < front.len() && kb_source_told(tasks, #[trigger] front[k], x);
            assert(kb_source_told(tasks, s[k], x));
        }
        if exists|k: int| 0 <= k < s.len() && kb_source_told(tasks, #[trigger] s[k], x) {
            let k = choose|k: int| 0 <= k < s.len() && kb_source_told(tasks, #[trigger] s[k], x);
            if k < front.len() {
                assert(kb_source_told(tasks, front[k], x));
            }
        }
        if kb_source_told(tasks, s.last(), x) {
            assert(kb_source_told(tasks, s[s.len() - 1], x));
        }
    }
}

proof fn lemma_kb_source(acc: Seq<FindingView>, tasks: Seq<TaskView>, s: KbSource, x: Told)
    ensures
        tells(diag::kb_file_checked(acc, tasks, s), x) <==> tells(acc, x) || kb_source_told(
            tasks,
            s,
            x,
        ),
{
    let file = diag::kb_rel(s.kind);
    let all = diag::kb_file_checked(acc, tasks, s);
    match s.read {
        FileRead::Missing => {},
        FileRead::Unreadable(_) => {
            assert(all =~= acc.push(all.last()));
            lemma_push(acc, all.last(), x);
        },
        FileRead::Text(t) => {
            let read = doc::toml_reads(t@);
            let known = diag::array_checked(acc, file, read, diag::KNOWN_KB_ENTRY_FIELDS@, "entries"@);
            lemma_array(acc, file, read, diag::KNOWN_KB_ENTRY_FIELDS@, "entries"@, x);
            match s.record {
                Ok(f) => {
                    references::law_knowledge_is_inspected(known, s.kind, tasks, f@, x);
                },
                Err(_) => {
                    assert(all =~= known.push(all.last()));
                    lemma_push(known, all.last(), x);
                },
            }
        },
    }
}

/// The record of a task file is there exactly when the file is read, is a document
/// and is a record; and it stands under the path of its file.
pub proof fn law_records_of_task_files(s: Seq<TaskSource>, k: int)
    requires
        0 <= k < s.len(),
    ensures
        ({
            let f = diag::source_files(s);
            let there = s[k].record is Ok && (s[k].read matches FileRead::Text(t)
                && doc::toml_reads(t@) is Ok);
            &&& f.len() == s.len()
            &&& f[k].rel == diag::task_rel(s[k].name@)
            &&& f[k].task is Some <==> there
            &&& there ==> f[k].task == Some(s[k].record->Ok_0@)
        }),
{
}

/// What is reported of a project, dependency cycles aside, is exactly what is wrong
/// with its config, its milestones, its task files, the references among them and its
/// knowledge base.
pub proof fn law_project_is_inspected(p: ProjectFiles, x: Told)
    requires
        x.code != "task.dependency_cycle"@,
    ensures
        ({
            let list = diag::source_files(p.tasks@);
            let milestones = diag::source_milestones(p.milestones);
            let config = diag::project_checked(Seq::empty(), p.config);
            tells(diag::inspected(p), x) <==> {
                ||| tells(config, x)
                ||| milestones_told(p.milestones, x)
                ||| exists|k: int| 0 <= k < p.tasks@.len() && source_told(#[trigger] p.tasks@[k], x)
                ||| exists|k: int|
                    0 <= k < list.len() && #[trigger] file_told(list, milestones, k, x)
                ||| exists|k: int|
                    0 <= k < p.kb@.len() && kb_source_told(
                        diag::file_tasks(list),
                        #[trigger] p.kb@[k],
                        x,
                    )
            }
        }),
{
    let list = diag::source_files(p.tasks@);
    let milestones = diag::source_milestones(p.milestones);
    let a1 = diag::project_checked(Seq::empty(), p.config);
    let a2 = diag::milestones_checked(a1, p.milestones);
    lemma_milestones(a1, p.milestones, x);
    let a3 = diag::sources_checked(a2, p.tasks@);
    law_task_files_are_inspected(a2, p.tasks@, x);
    let a4 = diag::cross_checked(a3, list, milestones);
    references::lemma_cross(a3, list, milestones, x);
    law_kb_files_are_inspected(a4, diag::file_tasks(list), p.kb@, x);
}

/// The milestones of a project are those of its file, where that is read.
pub proof fn law_milestones_of_a_project(s: MilestonesSource)
    ensures
        s.read is Text && s.record is Ok ==> diag::source_milestones(s) == model::milestones(
            s.record->Ok_0@,
        ),
        !(s.read is Text && s.record is Ok) ==> diag::source_milestones(s).len() == 0,
{
}

} // verus!
