//! What holds of every trace.
use crate::digest::content_digest_of;
use crate::label::{join_permits_what_both_permit, Decision, LabelView};
use crate::line::{attempts, attempts_end_at_the_first_failure, lemma_first_works, line_of};
use crate::trace::{
    computation_record, enter_record, observe_record, output_record, publication_record,
    record_keeps_bounds, source_record, tool_result_record, ContextView, DependenciesView,
    DomainView, Exposure, Operation, RecordView, TraceView, ValueView, VALUES_KEPT,
};
use vstd::prelude::*;

verus! {

/// A join of many labels permits exactly the audiences that the start and every one of them
/// permit.
pub proof fn join_all_permits_what_each_permits(
    trace: TraceView,
    start: LabelView,
    references: Seq<Seq<char>>,
    audience: LabelView,
)
    ensures
        trace.join_all(start, references).permits(audience) == (start.permits(audience) && forall|
            i: int,
        |
            0 <= i < references.len() ==> trace.resolve(#[trigger] references[i]).permits(audience)),
    decreases references.len(),
{
    if references.len() > 0 {
        let rest = references.drop_last();
        join_all_permits_what_each_permits(trace, start, rest, audience);
        join_permits_what_both_permit(
            trace.join_all(start, rest),
            trace.resolve(references.last()),
            audience,
        );
        if trace.join_all(start, references).permits(audience) {
            assert forall|i: int| 0 <= i < references.len() implies trace.resolve(
                #[trigger] references[i],
            ).permits(audience) by {
                if i < rest.len() {
                    assert(trace.resolve(rest[i]).permits(audience));
                }
            }
        } else if start.permits(audience) && trace.join_all(start, rest).permits(audience) {
            assert(!trace.resolve(references[references.len() - 1]).permits(audience));
        } else if start.permits(audience) {
            let i = choose|i: int|
                0 <= i < rest.len() && !trace.resolve(#[trigger] rest[i]).permits(audience);
            assert(!trace.resolve(references[i]).permits(audience));
        }
    }
}

/// A model call with all its inputs known permits exactly the audiences that its context and
/// every one of its dependencies permit, whatever their role.
pub proof fn computation_permits_what_every_input_permits(
    trace: TraceView,
    id: Seq<char>,
    context: ContextView,
    dependencies: DependenciesView,
    audience: LabelView,
)
    ensures
        computation_record(trace, id, context, dependencies, true).value().label.permits(audience)
            == (context.current.label.permits(audience) && forall|i: int|
            0 <= i < dependencies.references().len() ==> trace.resolve(
                #[trigger] dependencies.references()[i],
            ).permits(audience)),
{
    join_all_permits_what_each_permits(
        trace,
        context.current.label,
        dependencies.references(),
        audience,
    );
}

/// A model call with inputs that are not known is unknown.
pub proof fn incomplete_inputs_are_unknown(
    trace: TraceView,
    id: Seq<char>,
    context: ContextView,
    dependencies: DependenciesView,
)
    ensures
        computation_record(trace, id, context, dependencies, false).value().label
            == LabelView::Unknown,
{
}

/// A delivered value narrows the context to the audiences that both permit, whatever the check
/// of the audience came to.
pub proof fn delivery_narrows(
    trace: TraceView,
    id: Seq<char>,
    context: ContextView,
    reference: Seq<char>,
    audience: LabelView,
)
    ensures
        observe_record(trace, id, context, reference, Exposure::Delivered).value().label.permits(
            audience,
        ) == (context.current.label.permits(audience) && trace.resolve(reference).permits(audience)),
{
    join_permits_what_both_permit(context.current.label, trace.resolve(reference), audience);
}

/// What is recorded has a label that is unknown wherever it has no realm.
pub proof fn recorded_labels_are_normal(record: RecordView)
    ensures
        record.value().normal(),
{
}

/// A withheld value leaves the label of the context as it was.
pub proof fn withholding_changes_no_label(
    trace: TraceView,
    id: Seq<char>,
    context: ContextView,
    reference: Seq<char>,
)
    requires
        context.normal(),
    ensures
        observe_record(trace, id, context, reference, Exposure::Withheld).value().label
            == context.current.label,
{
}

/// The check that is recorded does not depend on whether the value was delivered.
pub proof fn decision_is_apart_from_exposure(
    trace: TraceView,
    id: Seq<char>,
    context: ContextView,
    reference: Seq<char>,
)
    ensures
        observe_record(trace, id, context, reference, Exposure::Withheld).decision
            == observe_record(trace, id, context, reference, Exposure::Delivered).decision,
{
}

/// No operation widens the audiences of a context.
pub proof fn contexts_never_widen(
    trace: TraceView,
    id: Seq<char>,
    context: ContextView,
    reference: Seq<char>,
    actual: Exposure,
    dependencies: DependenciesView,
    inputs_complete: bool,
    destination: LabelView,
    control: Seq<Seq<char>>,
    audience: LabelView,
)
    ensures
        observe_record(trace, id, context, reference, actual).value().label.permits(audience)
            ==> context.current.label.permits(audience),
        computation_record(
            trace,
            id,
            context,
            dependencies,
            inputs_complete,
        ).value().label.permits(audience) ==> context.current.label.permits(audience),
        publication_record(
            trace,
            id,
            context,
            reference,
            destination,
            control,
        ).value().label.permits(audience) ==> context.current.label.permits(audience),
{
    delivery_narrows(trace, id, context, reference, audience);
    join_all_permits_what_each_permits(
        trace,
        context.current.label,
        dependencies.references(),
        audience,
    );
    let published = publication_record(trace, id, context, reference, destination, control);
    join_all_permits_what_each_permits(
        trace,
        context.current.label,
        published.dependencies.references(),
        audience,
    );
}

pub(crate) proof fn lemma_unknown_start(trace: TraceView, references: Seq<Seq<char>>)
    ensures
        trace.join_all(LabelView::Unknown, references) == LabelView::Unknown,
    decreases references.len(),
{
    if references.len() > 0 {
        lemma_unknown_start(trace, references.drop_last());
    }
}

/// A context that became unknown stays unknown.
pub proof fn unknown_contexts_do_not_recover(
    trace: TraceView,
    id: Seq<char>,
    context: ContextView,
    reference: Seq<char>,
    actual: Exposure,
    dependencies: DependenciesView,
    inputs_complete: bool,
    destination: LabelView,
    control: Seq<Seq<char>>,
)
    requires
        context.current.label == LabelView::Unknown,
    ensures
        observe_record(trace, id, context, reference, actual).value().label == LabelView::Unknown,
        computation_record(trace, id, context, dependencies, inputs_complete).value().label
            == LabelView::Unknown,
        publication_record(trace, id, context, reference, destination, control).value().label
            == LabelView::Unknown,
{
    lemma_unknown_start(trace, dependencies.references());
    let published = publication_record(trace, id, context, reference, destination, control);
    lemma_unknown_start(trace, published.dependencies.references());
}

/// A domain is entered with the audiences that both its audience and what it retains permit.
pub proof fn retained_context_contributes(id: Seq<char>, domain: DomainView, audience: LabelView)
    ensures
        enter_record(id, domain).value().label.permits(audience) == (domain.audience.permits(
            audience,
        ) && domain.retained_context.permits(audience)),
{
    join_permits_what_both_permit(
        domain.audience.normalized(),
        domain.retained_context.normalized(),
        audience,
    );
}

/// A publication would be allowed exactly where the context, the value and everything that
/// controlled the choice permit the destination.
pub proof fn publication_needs_every_control(
    trace: TraceView,
    id: Seq<char>,
    context: ContextView,
    reference: Seq<char>,
    destination: LabelView,
    control: Seq<Seq<char>>,
)
    ensures
        publication_record(trace, id, context, reference, destination, control).decision == Some(
            Decision::WouldAllow,
        ) <==> (context.current.label.permits(destination) && trace.resolve(reference).permits(
            destination,
        ) && forall|i: int|
            0 <= i < control.len() ==> trace.resolve(#[trigger] control[i]).permits(destination)),
{
    let all = publication_record(
        trace,
        id,
        context,
        reference,
        destination,
        control,
    ).dependencies.references();
    assert(all =~= seq![reference] + control);
    join_all_permits_what_each_permits(trace, context.current.label, all, destination);
    if trace.join_all(context.current.label, all).permits(destination) {
        assert(trace.resolve(all[0]).permits(destination));
        assert forall|i: int| 0 <= i < control.len() implies trace.resolve(
            #[trigger] control[i],
        ).permits(destination) by {
            assert(trace.resolve(all[i + 1]).permits(destination));
        }
    } else if context.current.label.permits(destination) {
        let i = choose|i: int|
            0 <= i < all.len() && !trace.resolve(#[trigger] all[i]).permits(destination);
        if i > 0 {
            assert(!trace.resolve(control[i - 1]).permits(destination));
        }
    }
}

/// A tool's result permits no audience that the request or the source does not, and none at
/// all without a request.
pub proof fn tool_results_inherit_the_request(
    id: Seq<char>,
    request: Option<ValueView>,
    source: ValueView,
    encoding: Option<Seq<u8>>,
    audience: LabelView,
)
    ensures
        tool_result_record(id, request, source, encoding).value().label.permits(audience) == (request
            is Some && encoding is Some && request->0.label.permits(audience)
            && source.label.permits(audience)),
{
    if request is Some {
        join_permits_what_both_permit(request->0.label, source.label, audience);
    }
}

/// An output has the label of the invocation, unless it is an error or has no encoding: then
/// it is unknown.
pub proof fn outputs_inherit_the_invocation(
    id: Seq<char>,
    invocation: ValueView,
    operation: Operation,
    encoding: Option<Seq<u8>>,
)
    requires
        invocation.normal(),
    ensures
        output_record(id, invocation, operation, encoding).value().label == (if encoding is Some
            && operation != Operation::Error {
            invocation.label
        } else {
            LabelView::Unknown
        }),
{
}

/// Two payloads with the same digest leave the same record: of a payload a trace holds nothing
/// but its digest and whether it has one.
pub proof fn records_hold_only_digests(
    id: Seq<char>,
    label: LabelView,
    invocation: ValueView,
    operation: Operation,
    request: Option<ValueView>,
    left: Option<Seq<u8>>,
    right: Option<Seq<u8>>,
)
    requires
        content_digest_of(left) == content_digest_of(right),
    ensures
        source_record(id, left, label) == source_record(id, right, label),
        output_record(id, invocation, operation, left) == output_record(
            id,
            invocation,
            operation,
            right,
        ),
        tool_result_record(id, request, invocation, left) == tool_result_record(
            id,
            request,
            invocation,
            right,
        ),
{
}

/// Whether writing works changes neither the labels nor what is remembered.
pub proof fn failed_logging_does_not_interrupt(trace: TraceView, record: RecordView)
    ensures
        (TraceView { logging_failed: true, ..trace }).record(record).labels == trace.record(
            record,
        ).labels,
        (TraceView { logging_failed: true, ..trace }).record(record).order == trace.record(
            record,
        ).order,
        trace.logging_failed ==> trace.record(record).pending == trace.pending,
{
}

/// Lines are tried in order up to and with the first that cannot be written. Writing has failed
/// from then on if and only if there is one, and nothing else of the trace changes.
pub proof fn writing_stops_at_the_first_failure(trace: TraceView, works: Seq<bool>)
    requires
        works.len() == trace.pending.len(),
    ensures
        trace.flush(works).0 == trace.lines().take(attempts(works) as int),
        trace.flush(works).1 == (TraceView {
            pending: Seq::empty(),
            logging_failed: trace.logging_failed || works.contains(false),
            ..trace
        }),
    decreases trace.pending.len(),
{
    attempts_end_at_the_first_failure(works);
    if trace.pending.len() > 0 {
        let next = trace.taken().noted(works[0]);
        lemma_first_works(works);
        if works[0] {
            writing_stops_at_the_first_failure(next, works.drop_first());
            attempts_end_at_the_first_failure(works.drop_first());
            assert(next.lines() =~= trace.lines().drop_first());
        } else {
            assert(next.flush(works.drop_first()) == (Seq::<Seq<u8>>::empty(), next));
        }
        assert(trace.flush(works).0 =~= trace.lines().take(attempts(works) as int));
    } else {
        assert(!works.contains(false));
        assert(trace.flush(works).0 =~= trace.lines().take(0));
    }
}

/// The lines of a trace are those of its records that are to be written, in their order; the next
/// is that of the oldest, and taking it out leaves the others.
pub proof fn lines_are_those_of_the_records(trace: TraceView, i: int)
    ensures
        trace.lines().len() == trace.pending.len(),
        0 <= i < trace.pending.len() ==> trace.lines()[i] == line_of(trace.pending[i].json()),
        trace.pending.len() > 0 ==> {
            &&& trace.next_line() == Some(line_of(trace.pending[0].json()))
            &&& seq![trace.pending[0]] + trace.taken().pending == trace.pending
        },
        trace.pending.len() == 0 ==> trace.next_line() is None && trace.taken() == trace,
{
    if trace.pending.len() > 0 {
        assert(seq![trace.pending[0]] + trace.taken().pending =~= trace.pending);
    } else {
        assert(trace.taken() =~= trace);
    }
}

/// While writing works, a record is written as its own line and nothing else, and writing has
/// failed from then on if and only if that line cannot be written. The labels are the same
/// either way.
pub proof fn records_are_written_as_lines(trace: TraceView, record: RecordView, works: bool)
    requires
        trace.pending.len() == 0,
        !trace.logging_failed,
    ensures
        ({
            let (tried, after) = trace.record(record).flush(seq![works]);
            &&& tried == seq![line_of(record.normalized().json())]
            &&& after.logging_failed == !works
            &&& after.pending.len() == 0
            &&& same_memory(after, trace.record(record))
        }),
{
    let recorded = trace.record(record);
    assert(recorded.pending =~= seq![record.normalized()]);
    writing_stops_at_the_first_failure(recorded, seq![works]);
    assert(seq![works][0] == works);
    assert(seq![works].contains(false) == !works);
    assert(seq![works].drop_first() =~= Seq::empty());
    assert(attempts(seq![works]) == 1) by {
        attempts_end_at_the_first_failure(seq![works]);
    }
    assert(recorded.lines().take(1) =~= seq![line_of(record.normalized().json())]);
}

/// Once writing has failed, nothing is written any more, whatever is recorded, and it stays
/// failed.
pub proof fn failed_traces_stay_silent(
    trace: TraceView,
    record: RecordView,
    written: bool,
    works: Seq<bool>,
)
    requires
        trace.logging_failed,
        trace.pending.len() == 0,
    ensures
        trace.record(record).logging_failed,
        trace.record(record).pending.len() == 0,
        trace.record(record).flush(works) == (Seq::<Seq<u8>>::empty(), trace.record(record)),
        trace.next_line() is None,
        trace.taken() == trace,
        trace.noted(written) == trace,
{
    assert(trace.noted(written) =~= trace);
}

/// A value that was just recorded has its label.
pub proof fn recorded_values_resolve(trace: TraceView, record: RecordView)
    requires
        !trace.order.contains(record.id),
    ensures
        trace.record(record).resolve(record.id) == record.value().label,
{
    let order = trace.order.push(record.id);
    if order.len() > VALUES_KEPT {
        assert(order[0] == trace.order[0]);
    }
}

/// A name that was never recorded is unknown.
pub proof fn fabricated_references_are_unknown(trace: TraceView, reference: Seq<char>)
    requires
        trace.bounded(),
        !trace.order.contains(reference),
    ensures
        trace.resolve(reference) == LabelView::Unknown,
{
}

/// The trace once all the records are in it.
pub open spec fn record_all(trace: TraceView, records: Seq<RecordView>) -> TraceView
    decreases records.len(),
{
    if records.len() == 0 {
        trace
    } else {
        record_all(trace, records.drop_last()).record(records.last())
    }
}

proof fn lemma_order_after(trace: TraceView, records: Seq<RecordView>)
    requires
        trace.bounded(),
    ensures
        record_all(trace, records).bounded(),
        ({
            let names = trace.order + records.map_values(|record: RecordView| record.id);
            let kept = if names.len() > VALUES_KEPT {
                VALUES_KEPT as int
            } else {
                names.len() as int
            };
            record_all(trace, records).order == names.subrange(names.len() - kept, names.len() as int)
        }),
    decreases records.len(),
{
    let id = |record: RecordView| record.id;
    let names = trace.order + records.map_values(id);
    if records.len() == 0 {
        assert(names =~= trace.order);
        assert(names.subrange(0, names.len() as int) =~= trace.order);
    } else {
        let rest = records.drop_last();
        lemma_order_after(trace, rest);
        record_keeps_bounds(record_all(trace, rest), records.last());
        let fewer = trace.order + rest.map_values(id);
        assert(names =~= fewer.push(records.last().id));
        let kept = if names.len() > VALUES_KEPT {
            VALUES_KEPT as int
        } else {
            names.len() as int
        };
        assert(record_all(trace, records).order =~= names.subrange(
            names.len() - kept,
            names.len() as int,
        ));
    }
}

/// A name is unknown once as many other values were recorded after it as the trace keeps.
pub proof fn evicted_references_are_unknown(
    trace: TraceView,
    records: Seq<RecordView>,
    reference: Seq<char>,
)
    requires
        trace.bounded(),
        records.len() >= VALUES_KEPT,
        forall|i: int| 0 <= i < records.len() ==> (#[trigger] records[i]).id != reference,
    ensures
        record_all(trace, records).resolve(reference) == LabelView::Unknown,
{
    lemma_order_after(trace, records);
    let names = trace.order + records.map_values(|record: RecordView| record.id);
    let after = record_all(trace, records);
    if after.labels.contains_key(reference) {
        let i = choose|i: int| 0 <= i < after.order.len() && after.order[i] == reference;
        let j = names.len() - VALUES_KEPT + i;
        assert(names[j] == reference);
        assert(records[j - trace.order.len()].id == reference);
    }
}

/// The names of some records.
pub open spec fn record_names(records: Seq<RecordView>) -> Seq<Seq<char>> {
    records.map_values(|record: RecordView| record.id)
}

/// Each of the most recent names, as many as the trace keeps, resolves to its label, where no
/// name was used twice.
pub proof fn recent_references_resolve(trace: TraceView, records: Seq<RecordView>, i: int)
    requires
        trace.bounded(),
        record_names(records).no_duplicates(),
        0 <= i < records.len(),
        records.len() - VALUES_KEPT <= i,
        !trace.order.contains(records[i].id),
    ensures
        record_all(trace, records).resolve(records[i].id) == records[i].value().label,
    decreases records.len(),
{
    let rest = records.drop_last();
    let before = record_all(trace, rest);
    let names = record_names(records);
    let id = records[i].id;
    lemma_order_after(trace, rest);
    assert(record_names(rest) =~= names.drop_last());
    if i < rest.len() {
        assert(rest[i] == records[i]);
        recent_references_resolve(trace, rest, i);
        assert(names[i] != names[records.len() - 1]);
    }
    let order = before.order.push(records.last().id);
    if order.len() > VALUES_KEPT {
        let all = trace.order + rest.map_values(|record: RecordView| record.id);
        let oldest = all.len() - VALUES_KEPT;
        assert(order[0] == all[oldest]);
        if oldest < trace.order.len() {
            assert(trace.order.contains(all[oldest]));
        } else {
            assert(all[oldest] == names[oldest - trace.order.len()]);
            assert(names[i] == id);
        }
        assert(order[0] != id);
    }
}

/// Whether two traces remember the same.
pub open spec fn same_memory(left: TraceView, right: TraceView) -> bool {
    left.labels == right.labels && left.order == right.order
}

pub(crate) proof fn lemma_same_records(
    left: TraceView,
    right: TraceView,
    records: Seq<RecordView>,
)
    requires
        same_memory(left, right),
    ensures
        same_memory(record_all(left, records), record_all(right, records)),
    decreases records.len(),
{
    if records.len() > 0 {
        lemma_same_records(left, right, records.drop_last());
    }
}

/// Whether a trace remembers what one does that began empty and got the records in order.
pub open spec fn has_history(trace: TraceView, records: Seq<RecordView>) -> bool {
    same_memory(trace, record_all(TraceView::empty(), records))
}

/// Every trace has a history: a new one an empty one, and each record adds itself to it. Taking
/// out what is to be written, and no longer writing, leave it as it is.
pub proof fn histories_grow(
    trace: TraceView,
    records: Seq<RecordView>,
    record: RecordView,
    written: bool,
)
    ensures
        has_history(TraceView::empty(), Seq::empty()),
        has_history(trace, records) ==> has_history(trace.record(record), records.push(record)),
        has_history(trace, records) ==> has_history(
            TraceView { pending: Seq::empty(), ..trace },
            records,
        ),
        has_history(trace, records) ==> has_history(trace.taken(), records),
        has_history(trace, records) ==> has_history(trace.noted(written), records),
{
    assert(records.push(record).drop_last() =~= records);
}

/// What a trace says of a name, given all that was recorded under different names: the label of
/// the value where it is among the most recent ones that the trace keeps, and unknown where it
/// is not or was never recorded.
pub proof fn names_resolve_while_recent(
    trace: TraceView,
    records: Seq<RecordView>,
    reference: Seq<char>,
)
    requires
        has_history(trace, records),
        record_names(records).no_duplicates(),
    ensures
        forall|i: int|
            0 <= i < records.len() && records.len() - VALUES_KEPT <= i ==> trace.resolve(
                (#[trigger] records[i]).id,
            ) == records[i].value().label,
        (forall|i: int|
            0 <= i < records.len() && records.len() - VALUES_KEPT <= i ==> (#[trigger] records[i]).id
                != reference) ==> trace.resolve(reference) == LabelView::Unknown,
{
    let empty = TraceView::empty();
    assert forall|i: int|
        0 <= i < records.len() && records.len() - VALUES_KEPT <= i implies trace.resolve(
        (#[trigger] records[i]).id,
    ) == records[i].value().label by {
        recent_references_resolve(empty, records, i);
    }
    lemma_order_after(empty, records);
    if trace.labels.contains_key(reference) {
        let names = empty.order + records.map_values(|record: RecordView| record.id);
        let k = trace.order.index_of(reference);
        let kept = if names.len() > VALUES_KEPT {
            VALUES_KEPT as int
        } else {
            names.len() as int
        };
        assert(trace.order[k] == names[names.len() - kept + k]);
        assert(records[names.len() - kept + k].id == reference);
    }
}

} // verus!
