//! Inspection of records: what is reported of a task record, and what is not.
use vstd::prelude::*;

use crate::clock;
use crate::clock::Instant;
use crate::diag;
use crate::diag::{FindingView, Severity};
use crate::laws::edits::{is_time, says};
use crate::model::{LifecycleEventView, TaskStatus, TaskView};
use crate::text;

verus! {

/// What a finding is about: how bad it is, the file, the code and the field.
#[verifier::ext_equal]
pub struct Told {
    pub severity: Severity,
    pub file: Seq<char>,
    pub code: Seq<char>,
    pub field: Option<Seq<char>>,
}

/// What a finding is about.
pub open spec fn mark(f: FindingView) -> Told {
    Told { severity: f.severity, file: f.file, code: f.code, field: f.field }
}

/// An error about a field.
pub open spec fn error_at(file: Seq<char>, code: Seq<char>, field: Seq<char>) -> Told {
    Told { severity: Severity::Error, file, code, field: Some(field) }
}

/// A warning about a field.
pub open spec fn warning_at(file: Seq<char>, code: Seq<char>, field: Seq<char>) -> Told {
    Told { severity: Severity::Warning, file, code, field: Some(field) }
}

/// Whether some finding is about `x`.
pub open spec fn tells(fs: Seq<FindingView>, x: Told) -> bool {
    exists|i: int| 0 <= i < fs.len() && mark(#[trigger] fs[i]) == x
}

/// One more finding tells one more thing.
pub proof fn lemma_push(fs: Seq<FindingView>, f: FindingView, x: Told)
    ensures
        tells(fs.push(f), x) == (tells(fs, x) || mark(f) == x),
{
    let all = fs.push(f);
    if tells(fs, x) {
        let i = choose|i: int| 0 <= i < fs.len() && mark(#[trigger] fs[i]) == x;
        assert(mark(all[i]) == x);
    }
    if mark(f) == x {
        assert(mark(all[fs.len() as int]) == x);
    }
    if tells(all, x) {
        let i = choose|i: int| 0 <= i < all.len() && mark(#[trigger] all[i]) == x;
        if i < fs.len() {
            assert(mark(fs[i]) == x);
        }
    }
}

/// Whether two timestamps are of the same sort, with an offset or naive, and the
/// first lies after the second.
pub open spec fn backwards(first: Seq<char>, second: Seq<char>) -> bool {
    let naive = "%Y-%m-%dT%H:%M:%S"@;
    match (clock::rfc3339(first), clock::rfc3339(second)) {
        (Some(a), Some(b)) => lies_after(a, b),
        (None, None) => match (clock::naive_time(first, naive), clock::naive_time(second, naive)) {
            (Some(a), Some(b)) => lies_after(a, b),
            _ => false,
        },
        _ => false,
    }
}

/// Whether the first instant lies after the second.
pub open spec fn lies_after(a: Instant, b: Instant) -> bool {
    b.secs < a.secs || b.secs == a.secs && b.nanos < a.nanos
}

/// As [`backwards`], where both are there.
pub open spec fn opt_backwards(first: Option<Seq<char>>, second: Option<Seq<char>>) -> bool {
    first is Some && second is Some && backwards(first->0, second->0)
}

/// Whether a text is there and is no timestamp.
pub open spec fn no_time(s: Option<Seq<char>>) -> bool {
    s matches Some(v) && !is_time(v)
}

/// A timestamp is reported exactly when it is there and is none.
pub proof fn lemma_stamp(
    acc: Seq<FindingView>,
    file: Seq<char>,
    field: Seq<char>,
    value: Option<Seq<char>>,
    x: Told,
)
    ensures
        tells(diag::opt_stamp_checked(acc, file, field, value), x) == (tells(acc, x) || no_time(
            value,
        ) && x == error_at(file, "value.invalid_timestamp"@, field)),
        diag::opt_stamp_checked(acc, file, field, value).len() == acc.len() + if no_time(value) {
            1int
        } else {
            0int
        },
{
    if let Some(v) = value {
        lemma_push(acc, diag::invalid_timestamp(file, field, v), x);
    }
}

proof fn lemma_order(
    acc: Seq<FindingView>,
    file: Seq<char>,
    earlier: Seq<char>,
    first: Option<Seq<char>>,
    later: Seq<char>,
    second: Option<Seq<char>>,
    x: Told,
)
    ensures
        ({
            let all = diag::order_checked(
                acc,
                file,
                earlier,
                diag::opt_timestamp_of(first),
                later,
                diag::opt_timestamp_of(second),
            );
            &&& tells(all, x) == (tells(acc, x) || opt_backwards(first, second) && x == error_at(
                file,
                "value.timestamp_order"@,
                later,
            ))
            &&& all.len() == acc.len() + if opt_backwards(first, second) {
                1int
            } else {
                0int
            }
        }),
{
    lemma_push(acc, diag::timestamp_order_finding(file, later, earlier), x);
}

/// The name of a field of the `k`-th event of a history.
pub open spec fn event_field(k: int, field: Seq<char>) -> Seq<char> {
    "history["@ + text::decimal(k) + "]."@ + field
}

/// Whether the `k`-th event of a history has timestamps that are timestamps, and
/// does not lie before the event before it.
pub open spec fn event_fits(history: Seq<LifecycleEventView>, k: int) -> bool {
    &&& is_time(history[k].at)
    &&& !no_time(history[k].prior_done_at)
    &&& k > 0 ==> !backwards(history[k - 1].at, history[k].at)
}

spec fn before(history: Seq<LifecycleEventView>, i: int) -> Option<diag::Timestamp> {
    if i > 0 {
        diag::timestamp_of(history[i - 1].at)
    } else {
        None
    }
}

/// Whether the `k`-th event of a history is reported as `x`.
pub open spec fn event_told(
    file: Seq<char>,
    history: Seq<LifecycleEventView>,
    k: int,
    x: Told,
) -> bool {
    ||| !is_time(history[k].at) && x == error_at(
        file,
        "value.invalid_timestamp"@,
        event_field(k, "at"@),
    )
    ||| k > 0 && backwards(history[k - 1].at, history[k].at) && x == error_at(
        file,
        "value.timestamp_order"@,
        event_field(k, "at"@),
    )
    ||| no_time(history[k].prior_done_at) && x == error_at(
        file,
        "value.invalid_timestamp"@,
        event_field(k, "prior_done_at"@),
    )
}

proof fn lemma_history(
    acc: Seq<FindingView>,
    file: Seq<char>,
    history: Seq<LifecycleEventView>,
    i: int,
    x: Told,
)
    requires
        0 <= i <= history.len(),
    ensures
        ({
            let all = diag::history_checked(acc, file, history, i, before(history, i));
            &&& tells(all, x) <==> tells(acc, x) || exists|k: int|
                i <= k < history.len() && #[trigger] event_told(file, history, k, x)
            &&& all.len() >= acc.len()
            &&& all.len() == acc.len() <==> forall|k: int|
                i <= k < history.len() ==> #[trigger] event_fits(history, k)
        }),
    decreases history.len() - i,
{
    if i < history.len() {
        let event = history[i];
        let prev = before(history, i);
        let stamped = diag::stamp_checked(acc, file, diag::event_field(i, "at"@), event.at);
        lemma_stamp(acc, file, diag::event_field(i, "at"@), Some(event.at), x);
        let late = k_late(history, i);
        let f = diag::at_field(
            diag::file_error(
                file,
                "value.timestamp_order"@,
                diag::event_field(i, "at"@) + " is before "@ + diag::event_field(i - 1, "at"@),
                "fix the recorded event timestamps"@,
            ),
            diag::event_field(i, "at"@),
        );
        let ordered = if late {
            stamped.push(f)
        } else {
            stamped
        };
        lemma_push(stamped, f, x);
        let done = diag::opt_stamp_checked(
            ordered,
            file,
            diag::event_field(i, "prior_done_at"@),
            event.prior_done_at,
        );
        lemma_stamp(
            ordered,
            file,
            diag::event_field(i, "prior_done_at"@),
            event.prior_done_at,
            x,
        );
        lemma_history(done, file, history, i + 1, x);
        let all = diag::history_checked(acc, file, history, i, prev);
        assert(all == diag::history_checked(done, file, history, i + 1, before(history, i + 1)));
        assert(tells(done, x) <==> tells(acc, x) || event_told(file, history, i, x));
        assert(done.len() == acc.len() <==> event_fits(history, i));
        if tells(all, x) && !tells(acc, x) {
            if event_told(file, history, i, x) {
            } else {
                let k = choose|k: int|
                    i + 1 <= k < history.len() && #[trigger] event_told(file, history, k, x);
                assert(event_told(file, history, k, x));
            }
        }
        if exists|k: int| i <= k < history.len() && #[trigger] event_told(file, history, k, x) {
            let k = choose|k: int|
                i <= k < history.len() && #[trigger] event_told(file, history, k, x);
            if k > i {
                assert(event_told(file, history, k, x));
            }
        }
        if all.len() == acc.len() {
            assert forall|k: int| i <= k < history.len() implies #[trigger] event_fits(
                history,
                k,
            ) by {}
        }
        if forall|k: int| i <= k < history.len() ==> #[trigger] event_fits(history, k) {
            assert(event_fits(history, i));
        }
    }
}

spec fn k_late(history: Seq<LifecycleEventView>, i: int) -> bool {
    i > 0 && backwards(history[i - 1].at, history[i].at)
}

proof fn lemma_record_codes()
    ensures
        "task.filename_id_mismatch"@.len() == 25,
        "value.invalid_timestamp"@.len() == 23,
        "value.timestamp_order"@.len() == 21,
        "task.closed_missing_done_at"@.len() == 27,
        "task.closed_missing_result"@.len() == 26,
        "task.closed_missing_validation"@.len() == 30,
        "created_at"@.len() == 10,
        "updated_at"@.len() == 10,
        "started_at"@.len() == 10,
        "done_at"@.len() == 7,
        "created_at"@[0] == 'c',
        "updated_at"@[0] == 'u',
        "started_at"@[0] == 's',
        "done_at"@[0] == 'd',
        forall|k: int, f: Seq<char>| #[trigger] event_field(k, f).len() > 0 && event_field(k, f)[0]
            == 'h',
{
    reveal_strlit("task.filename_id_mismatch");
    reveal_strlit("value.invalid_timestamp");
    reveal_strlit("value.timestamp_order");
    reveal_strlit("task.closed_missing_done_at");
    reveal_strlit("task.closed_missing_result");
    reveal_strlit("task.closed_missing_validation");
    reveal_strlit("created_at");
    reveal_strlit("updated_at");
    reveal_strlit("started_at");
    reveal_strlit("done_at");
    reveal_strlit("history[");
}

/// Whether a text is missing or says nothing.
pub open spec fn unsaid(s: Option<Seq<char>>) -> bool {
    s is None || !says(s->0)
}

/// Whether a task record is in order: the file has its name, every timestamp is
/// one, none lies before one that it should follow, and a closed record has its
/// evidence.
pub open spec fn record_fits(file_id: Option<i64>, t: TaskView) -> bool {
    &&& file_id is None || file_id == Some(t.id)
    &&& is_time(t.created_at) && is_time(t.updated_at)
    &&& !no_time(t.started_at) && !no_time(t.done_at)
    &&& !opt_backwards(Some(t.created_at), t.started_at)
    &&& !opt_backwards(t.started_at, t.done_at)
    &&& !opt_backwards(Some(t.created_at), t.done_at)
    &&& !backwards(t.created_at, t.updated_at)
    &&& forall|k: int| 0 <= k < t.history.len() ==> #[trigger] event_fits(t.history, k)
    &&& t.status == TaskStatus::Closed ==> t.done_at is Some && !unsaid(t.report_result) && !unsaid(
        t.report_validation,
    )
}

/// Whether a task record is reported as `x`.
pub open spec fn record_told(file: Seq<char>, file_id: Option<i64>, t: TaskView, x: Told) -> bool {
    let order = "value.timestamp_order"@;
    let closed = t.status == TaskStatus::Closed;
    ||| file_id is Some && file_id != Some(t.id) && x == error_at(
        file,
        "task.filename_id_mismatch"@,
        "id"@,
    )
    ||| !is_time(t.created_at) && x == error_at(file, "value.invalid_timestamp"@, "created_at"@)
    ||| !is_time(t.updated_at) && x == error_at(file, "value.invalid_timestamp"@, "updated_at"@)
    ||| no_time(t.started_at) && x == error_at(file, "value.invalid_timestamp"@, "started_at"@)
    ||| no_time(t.done_at) && x == error_at(file, "value.invalid_timestamp"@, "done_at"@)
    ||| opt_backwards(Some(t.created_at), t.started_at) && x == error_at(file, order, "started_at"@)
    ||| opt_backwards(t.started_at, t.done_at) && x == error_at(file, order, "done_at"@)
    ||| opt_backwards(Some(t.created_at), t.done_at) && x == error_at(file, order, "done_at"@)
    ||| backwards(t.created_at, t.updated_at) && x == error_at(file, order, "updated_at"@)
    ||| exists|k: int| 0 <= k < t.history.len() && #[trigger] event_told(file, t.history, k, x)
    ||| closed && t.done_at is None && x == error_at(
        file,
        "task.closed_missing_done_at"@,
        "done_at"@,
    )
    ||| closed && unsaid(t.report_result) && x == error_at(
        file,
        "task.closed_missing_result"@,
        "report_result"@,
    )
    ||| closed && unsaid(t.report_validation) && x == error_at(
        file,
        "task.closed_missing_validation"@,
        "report_validation"@,
    )
}

proof fn lemma_evidence(acc: Seq<FindingView>, file: Seq<char>, t: TaskView, x: Told)
    ensures
        ({
            let all = diag::evidence_checked(acc, file, t);
            let closed = t.status == TaskStatus::Closed;
            &&& tells(all, x) <==> {
                ||| tells(acc, x)
                ||| closed && t.done_at is None && x == error_at(
                    file,
                    "task.closed_missing_done_at"@,
                    "done_at"@,
                )
                ||| closed && unsaid(t.report_result) && x == error_at(
                    file,
                    "task.closed_missing_result"@,
                    "report_result"@,
                )
                ||| closed && unsaid(t.report_validation) && x == error_at(
                    file,
                    "task.closed_missing_validation"@,
                    "report_validation"@,
                )
            }
            &&& all.len() >= acc.len()
            &&& all.len() == acc.len() <==> (closed ==> t.done_at is Some && !unsaid(
                t.report_result,
            ) && !unsaid(t.report_validation))
        }),
{
    let f1 = diag::at_field(
        diag::file_error(
            file,
            "task.closed_missing_done_at"@,
            "closed task has no done_at timestamp"@,
            "set done_at (jay repair can migrate a legacy closed_at) or record the real completion time"@,
        ),
        "done_at"@,
    );
    let f2 = diag::at_field(
        diag::file_error(
            file,
            "task.closed_missing_result"@,
            "closed task has no nonblank report_result"@,
            "update the task with the real result — jay never fabricates completion evidence"@,
        ),
        "report_result"@,
    );
    let f3 = diag::at_field(
        diag::file_error(
            file,
            "task.closed_missing_validation"@,
            "closed task has no nonblank report_validation"@,
            "update the task with the real validation — jay never fabricates completion evidence"@,
        ),
        "report_validation"@,
    );
    lemma_push(acc, f1, x);
    let dated = if t.done_at is None {
        acc.push(f1)
    } else {
        acc
    };
    lemma_push(dated, f2, x);
    let resulted = if unsaid(t.report_result) {
        dated.push(f2)
    } else {
        dated
    };
    lemma_push(resulted, f3, x);
    assert(text::opt_blank(t.report_result) == unsaid(t.report_result));
    assert(text::opt_blank(t.report_validation) == unsaid(t.report_validation));
}

/// Inspecting a record adds nothing to the findings exactly when the record is in
/// order; and what it adds is an error for each thing that is not, about the
/// field in question.
pub proof fn law_records_are_inspected(
    acc: Seq<FindingView>,
    file: Seq<char>,
    file_id: Option<i64>,
    t: TaskView,
    x: Told,
)
    ensures
        ({
            let all = diag::record_checked(acc, file, file_id, t);
            &&& tells(all, x) <==> tells(acc, x) || record_told(file, file_id, t, x)
            &&& all.len() >= acc.len()
            &&& all.len() == acc.len() <==> record_fits(file_id, t)
        }),
{
    let created = Some(t.created_at);
    let updated = Some(t.updated_at);
    let c = diag::timestamp_of(t.created_at);
    let u = diag::timestamp_of(t.updated_at);
    let s = diag::opt_timestamp_of(t.started_at);
    let d = diag::opt_timestamp_of(t.done_at);
    let a0 = diag::id_checked(acc, file, file_id, t);
    if let Some(fid) = file_id {
        lemma_push(
            acc,
            diag::at_field(
                diag::file_error(
                    file,
                    "task.filename_id_mismatch"@,
                    "file name says id "@ + text::decimal(fid as int)
                        + " but the record says id "@ + text::decimal(t.id as int),
                    "rename the file to <id>.toml or fix the id field"@,
                ),
                "id"@,
            ),
            x,
        );
    }
    let a1 = diag::stamp_checked(a0, file, "created_at"@, t.created_at);
    lemma_stamp(a0, file, "created_at"@, created, x);
    let a2 = diag::stamp_checked(a1, file, "updated_at"@, t.updated_at);
    lemma_stamp(a1, file, "updated_at"@, updated, x);
    let a3 = diag::opt_stamp_checked(a2, file, "started_at"@, t.started_at);
    lemma_stamp(a2, file, "started_at"@, t.started_at, x);
    let a4 = diag::opt_stamp_checked(a3, file, "done_at"@, t.done_at);
    lemma_stamp(a3, file, "done_at"@, t.done_at, x);
    let a5 = diag::order_checked(a4, file, "created_at"@, c, "started_at"@, s);
    lemma_order(a4, file, "created_at"@, created, "started_at"@, t.started_at, x);
    let a6 = diag::order_checked(a5, file, "started_at"@, s, "done_at"@, d);
    lemma_order(a5, file, "started_at"@, t.started_at, "done_at"@, t.done_at, x);
    let a7 = diag::order_checked(a6, file, "created_at"@, c, "done_at"@, d);
    lemma_order(a6, file, "created_at"@, created, "done_at"@, t.done_at, x);
    let a8 = diag::order_checked(a7, file, "created_at"@, c, "updated_at"@, u);
    lemma_order(a7, file, "created_at"@, created, "updated_at"@, updated, x);
    let a9 = diag::history_checked(a8, file, t.history, 0, None);
    lemma_history(a8, file, t.history, 0, x);
    lemma_evidence(a9, file, t, x);
}

/// Each sort of finding about a record comes exactly when it should: none stands
/// for another.
pub proof fn law_record_findings(file: Seq<char>, file_id: Option<i64>, t: TaskView)
    ensures
        ({
            let fs = diag::record_checked(Seq::empty(), file, file_id, t);
            let bad = "value.invalid_timestamp"@;
            let order = "value.timestamp_order"@;
            let closed = t.status == TaskStatus::Closed;
            &&& tells(fs, error_at(file, "task.filename_id_mismatch"@, "id"@)) <==> file_id is Some
                && file_id != Some(t.id)
            &&& tells(fs, error_at(file, bad, "created_at"@)) <==> !is_time(t.created_at)
            &&& tells(fs, error_at(file, bad, "updated_at"@)) <==> !is_time(t.updated_at)
            &&& tells(fs, error_at(file, bad, "started_at"@)) <==> no_time(t.started_at)
            &&& tells(fs, error_at(file, bad, "done_at"@)) <==> no_time(t.done_at)
            &&& tells(fs, error_at(file, order, "started_at"@)) <==> opt_backwards(
                Some(t.created_at),
                t.started_at,
            )
            &&& tells(fs, error_at(file, order, "done_at"@)) <==> opt_backwards(
                t.started_at,
                t.done_at,
            ) || opt_backwards(Some(t.created_at), t.done_at)
            &&& tells(fs, error_at(file, order, "updated_at"@)) <==> backwards(
                t.created_at,
                t.updated_at,
            )
            &&& tells(fs, error_at(file, "task.closed_missing_done_at"@, "done_at"@)) <==> closed
                && t.done_at is None
            &&& tells(fs, error_at(file, "task.closed_missing_result"@, "report_result"@)) <==> closed
                && unsaid(t.report_result)
            &&& tells(
                fs,
                error_at(file, "task.closed_missing_validation"@, "report_validation"@),
            ) <==> closed && unsaid(t.report_validation)
        }),
{
    let none = Seq::<FindingView>::empty();
    let bad = "value.invalid_timestamp"@;
    let order = "value.timestamp_order"@;
    lemma_record_codes();
    law_records_are_inspected(
        none,
        file,
        file_id,
        t,
        error_at(file, "task.filename_id_mismatch"@, "id"@),
    );
    law_records_are_inspected(none, file, file_id, t, error_at(file, bad, "created_at"@));
    law_records_are_inspected(none, file, file_id, t, error_at(file, bad, "updated_at"@));
    law_records_are_inspected(none, file, file_id, t, error_at(file, bad, "started_at"@));
    law_records_are_inspected(none, file, file_id, t, error_at(file, bad, "done_at"@));
    law_records_are_inspected(none, file, file_id, t, error_at(file, order, "started_at"@));
    law_records_are_inspected(none, file, file_id, t, error_at(file, order, "done_at"@));
    law_records_are_inspected(none, file, file_id, t, error_at(file, order, "updated_at"@));
    law_records_are_inspected(
        none,
        file,
        file_id,
        t,
        error_at(file, "task.closed_missing_done_at"@, "done_at"@),
    );
    law_records_are_inspected(
        none,
        file,
        file_id,
        t,
        error_at(file, "task.closed_missing_result"@, "report_result"@),
    );
    law_records_are_inspected(
        none,
        file,
        file_id,
        t,
        error_at(file, "task.closed_missing_validation"@, "report_validation"@),
    );
}

} // verus!
