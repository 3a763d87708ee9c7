//! What each operation on a trace records.
use crate::digest::{content_digest_of, digest_of};
use crate::label::{Decision, LabelView};
use crate::trace::{
    computation_record, enter_record, observe_record, output_record, publication_record,
    source_record, tool_result_record, ContextView, DependenciesView, DomainView, Exposure,
    Operation, RecordView, TraceView, ValueView,
};
use vstd::prelude::*;

verus! {

/// The decision that an exposure records is to allow exactly where the label of the observed
/// value permits the audience of the context's domain: whatever the context has seen so far, and
/// whether or not the value is delivered.
pub proof fn exposures_are_checked_against_the_audience(
    trace: TraceView,
    id: Seq<char>,
    context: ContextView,
    reference: Seq<char>,
    actual: Exposure,
)
    ensures
        ({
            let decision = observe_record(trace, id, context, reference, actual).decision;
            &&& decision == Some(Decision::WouldAllow) <==> trace.resolve(reference).permits(
                context.domain.audience,
            )
            &&& decision == Some(Decision::WouldDeny) <==> !trace.resolve(reference).permits(
                context.domain.audience,
            )
        }),
{
}

/// Two contexts of one domain get the same decision on a value, whatever each has seen.
pub proof fn what_was_seen_decides_no_exposure(
    trace: TraceView,
    first: Seq<char>,
    second: Seq<char>,
    context: ContextView,
    seen: ValueView,
    reference: Seq<char>,
    actual: Exposure,
    other: Exposure,
)
    ensures
        observe_record(trace, first, context, reference, actual).decision == observe_record(
            trace,
            second,
            ContextView { current: seen, ..context },
            reference,
            other,
        ).decision,
{
}

/// A second delivery is held against the audience as the first was: the first one narrows the
/// context, and not the audience.
pub proof fn deliveries_are_decided_apart(
    trace: TraceView,
    first: Seq<char>,
    second: Seq<char>,
    context: ContextView,
    one: Seq<char>,
    other: Seq<char>,
    actual: Exposure,
)
    requires
        trace.record(observe_record(trace, first, context, one, actual)).resolve(other)
            == trace.resolve(other),
    ensures
        ({
            let shown = observe_record(trace, first, context, one, actual);
            let later = observe_record(
                trace.record(shown),
                second,
                ContextView { current: shown.value(), ..context },
                other,
                Exposure::Delivered,
            );
            later.decision == Some(Decision::WouldAllow) <==> trace.resolve(other).permits(
                context.domain.audience,
            )
        }),
{
}

/// Whether a record has nothing but what every record has: a version, a name, an operation, a
/// label and dependencies.
pub open spec fn says_no_more(record: RecordView) -> bool {
    &&& record.domain is None
    &&& record.decision is None
    &&& record.exposure is None
    &&& record.checked_ref is None
    &&& record.destination is None
}

/// An exposure is recorded with its context, the value that was checked, and whether it was
/// delivered. It depends on the value, and its label is joined with that of the value, only where
/// it was delivered.
pub proof fn exposures_are_recorded(
    trace: TraceView,
    id: Seq<char>,
    context: ContextView,
    reference: Seq<char>,
    actual: Exposure,
)
    ensures
        ({
            let record = observe_record(trace, id, context, reference, actual);
            &&& record.version == 1
            &&& record.id == id
            &&& record.operation == Operation::Exposure
            &&& record.context_ref == Some(context.current.reference)
            &&& record.checked_ref == Some(reference)
            &&& record.exposure == Some(actual)
            &&& record.decision is Some
            &&& record.inputs_complete
            &&& record.content_digest is None && record.domain is None && record.destination is None
            &&& actual == Exposure::Delivered ==> {
                &&& record.label == context.current.label.join(trace.resolve(reference))
                &&& record.dependencies.inputs == seq![reference]
                &&& record.dependencies.references() == seq![reference]
            }
            &&& actual == Exposure::Withheld ==> {
                &&& record.label == context.current.label
                &&& record.dependencies.references().len() == 0
            }
        }),
{
    let record = observe_record(trace, id, context, reference, actual);
    assert(record.dependencies.references() =~= record.dependencies.inputs);
}

/// A source is recorded with the digest of its encoding and the label that it was given; one that
/// has no encoding has no digest and is unknown. It depends on nothing.
pub proof fn sources_are_recorded(id: Seq<char>, encoding: Option<Seq<u8>>, label: LabelView)
    ensures
        ({
            let record = source_record(id, encoding, label);
            &&& record.version == 1
            &&& record.id == id
            &&& record.operation == Operation::Source
            &&& record.inputs_complete
            &&& record.context_ref is None
            &&& says_no_more(record)
            &&& record.dependencies.references().len() == 0
            &&& encoding matches Some(bytes) ==> record.label == label && record.content_digest
                == Some(digest_of(bytes))
            &&& encoding is None ==> record.label == LabelView::Unknown && record.content_digest
                is None
        }),
{
}

/// Entering a domain is recorded with the domain, in which what has no realm is unknown. The
/// context starts with the join of the audience and of what is retained.
pub proof fn entries_are_recorded(id: Seq<char>, domain: DomainView)
    ensures
        ({
            let record = enter_record(id, domain);
            &&& record.version == 1
            &&& record.id == id
            &&& record.operation == Operation::EnterContext
            &&& record.inputs_complete
            &&& record.context_ref is None && record.content_digest is None
            &&& record.decision is None && record.exposure is None
            &&& record.checked_ref is None && record.destination is None
            &&& record.dependencies.references().len() == 0
            &&& record.domain matches Some(entered) && {
                &&& entered.audience == domain.audience.normalized()
                &&& entered.retained_context == domain.retained_context.normalized()
                &&& entered.policy_epoch == domain.policy_epoch
            }
            &&& record.label == domain.audience.normalized().join(
                domain.retained_context.normalized(),
            )
        }),
{
}

/// A model call is recorded with its context, its dependencies by role, and whether its inputs
/// are all known. Where they are, its label is that of the context joined with those of all the
/// dependencies, of whatever role; where they are not, it is unknown.
pub proof fn model_calls_are_recorded(
    trace: TraceView,
    id: Seq<char>,
    context: ContextView,
    dependencies: DependenciesView,
    inputs_complete: bool,
)
    ensures
        ({
            let record = computation_record(trace, id, context, dependencies, inputs_complete);
            &&& record.version == 1
            &&& record.id == id
            &&& record.operation == Operation::ModelCall
            &&& record.context_ref == Some(context.current.reference)
            &&& record.dependencies == dependencies
            &&& record.inputs_complete == inputs_complete
            &&& record.content_digest is None
            &&& says_no_more(record)
            &&& !inputs_complete ==> record.label == LabelView::Unknown
            &&& inputs_complete ==> record.label == trace.join_all(
                context.current.label,
                dependencies.inputs + dependencies.instructions + dependencies.history
                    + dependencies.schemas + dependencies.settings + dependencies.control,
            )
        }),
{
}

/// Joining with two lists of references, one behind the other, is joining with the one and then
/// with the other; joining with one reference is joining with its label, and with none changes
/// nothing.
pub proof fn joins_go_reference_by_reference(
    trace: TraceView,
    start: LabelView,
    first: Seq<Seq<char>>,
    second: Seq<Seq<char>>,
    reference: Seq<char>,
)
    ensures
        trace.join_all(start, first + second) == trace.join_all(
            trace.join_all(start, first),
            second,
        ),
        trace.join_all(start, seq![reference]) == start.join(trace.resolve(reference)),
        trace.join_all(start, Seq::empty()) == start,
    decreases second.len(),
{
    let one = seq![reference];
    assert(one.drop_last() =~= Seq::empty());
    reveal_with_fuel(TraceView::join_all, 2);
    if second.len() == 0 {
        assert(first + second =~= first);
    } else {
        joins_go_reference_by_reference(trace, start, first, second.drop_last(), reference);
        assert((first + second).drop_last() =~= first + second.drop_last());
        assert((first + second).last() == second.last());
    }
}

/// The label of a name is the one that is remembered under it, and unknown where none is.
pub proof fn names_have_the_label_that_is_remembered(trace: TraceView, reference: Seq<char>)
    ensures
        trace.labels.contains_key(reference) ==> trace.resolve(reference)
            == trace.labels[reference],
        !trace.labels.contains_key(reference) ==> trace.resolve(reference) == LabelView::Unknown,
{
}

/// An output is recorded with the digest of its encoding, as something that its invocation alone
/// gave. It has the label of the invocation, unless it is an error or has no encoding.
pub proof fn outputs_are_recorded(
    id: Seq<char>,
    invocation: ValueView,
    operation: Operation,
    encoding: Option<Seq<u8>>,
)
    ensures
        ({
            let record = output_record(id, invocation, operation, encoding);
            &&& record.version == 1
            &&& record.id == id
            &&& record.operation == operation
            &&& record.context_ref is None
            &&& record.inputs_complete
            &&& says_no_more(record)
            &&& record.dependencies.inputs == seq![invocation.reference]
            &&& record.dependencies.references() == seq![invocation.reference]
            &&& encoding matches Some(bytes) ==> record.content_digest == Some(digest_of(bytes))
            &&& encoding is None ==> record.content_digest is None
            &&& encoding is Some && operation != Operation::Error ==> record.label
                == invocation.label
            &&& encoding is None || operation == Operation::Error ==> record.label
                == LabelView::Unknown
        }),
{
    let record = output_record(id, invocation, operation, encoding);
    assert(record.dependencies.references() =~= record.dependencies.inputs);
}

/// The result of a tool is recorded with the digest of its encoding, as something that its source
/// gave and its request controlled. Its label is the join of both; without a request or an
/// encoding it is unknown.
pub proof fn tool_results_are_recorded(
    id: Seq<char>,
    request: Option<ValueView>,
    source: ValueView,
    encoding: Option<Seq<u8>>,
)
    ensures
        ({
            let record = tool_result_record(id, request, source, encoding);
            &&& record.version == 1
            &&& record.id == id
            &&& record.operation == Operation::ToolResult
            &&& record.context_ref is None
            &&& record.inputs_complete
            &&& says_no_more(record)
            &&& record.dependencies.inputs == seq![source.reference]
            &&& encoding matches Some(bytes) ==> record.content_digest == Some(digest_of(bytes))
            &&& encoding is None ==> record.content_digest is None
            &&& request matches Some(value) ==> {
                &&& record.dependencies.control == seq![value.reference]
                &&& record.dependencies.references() == seq![source.reference, value.reference]
                &&& encoding is Some ==> record.label == value.label.join(source.label)
            }
            &&& request is None ==> record.dependencies.references() == seq![source.reference]
            &&& request is None || encoding is None ==> record.label == LabelView::Unknown
        }),
{
    let record = tool_result_record(id, request, source, encoding);
    match request {
        Some(value) => {
            assert(record.dependencies.references() =~= seq![source.reference, value.reference]);
        },
        None => {
            assert(record.dependencies.references() =~= seq![source.reference]);
        },
    }
}

/// A publication check is recorded with its context, the value, the destination and what
/// controlled the choice. Its label is that of the context joined with those of the value and of
/// all the control, and it would allow exactly where that label permits the destination.
pub proof fn publication_checks_are_recorded(
    trace: TraceView,
    id: Seq<char>,
    context: ContextView,
    reference: Seq<char>,
    destination: LabelView,
    control: Seq<Seq<char>>,
)
    ensures
        ({
            let record = publication_record(
                trace,
                id,
                context,
                reference,
                destination,
                control,
            );
            &&& record.version == 1
            &&& record.id == id
            &&& record.operation == Operation::PublicationCheck
            &&& record.context_ref == Some(context.current.reference)
            &&& record.checked_ref == Some(reference)
            &&& record.destination == Some(destination.normalized())
            &&& record.content_digest is None && record.domain is None && record.exposure is None
            &&& record.inputs_complete
            &&& record.dependencies.inputs == seq![reference]
            &&& record.dependencies.control == control
            &&& record.dependencies.references() == seq![reference] + control
            &&& record.label == trace.join_all(context.current.label, seq![reference] + control)
            &&& record.decision == Some(Decision::WouldAllow) <==> record.label.permits(destination)
            &&& record.decision == Some(Decision::WouldDeny) <==> !record.label.permits(destination)
        }),
{
    let record = publication_record(trace, id, context, reference, destination, control);
    assert(record.dependencies.references() =~= seq![reference] + control);
}

/// What is recorded is remembered under its name and is the value that the operation gives, with
/// a label that is unknown where it has no realm. While writing works the record is the next to
/// be written behind the others, and nothing else of the trace changes but what is forgotten.
pub proof fn records_are_remembered_and_written(trace: TraceView, record: RecordView)
    ensures
        record.value().reference == record.id,
        record.value().label == record.label.normalized(),
        trace.order.len() < 4096 ==> {
            &&& trace.record(record).order == trace.order.push(record.id)
            &&& trace.record(record).labels == trace.labels.insert(
                record.id,
                record.label.normalized(),
            )
        },
        trace.order.len() == 4096 ==> {
            &&& trace.record(record).order == trace.order.drop_first().push(record.id)
            &&& trace.record(record).labels == trace.labels.insert(
                record.id,
                record.label.normalized(),
            ).remove(trace.order[0])
        },
        !trace.logging_failed ==> trace.record(record).pending == trace.pending.push(
            RecordView { label: record.label.normalized(), ..record },
        ),
        trace.logging_failed ==> trace.record(record).pending == trace.pending,
        trace.record(record).logging_failed == trace.logging_failed,
{
    if trace.order.len() == 4096 {
        assert(trace.order.push(record.id).drop_first() =~= trace.order.drop_first().push(
            record.id,
        ));
    }
}

/// A digest is there exactly where there is an encoding, and is that of its bytes.
pub proof fn encodings_have_digests(encoding: Option<Seq<u8>>)
    ensures
        encoding is None ==> content_digest_of(encoding) is None,
        encoding matches Some(bytes) ==> content_digest_of(encoding) == Some(digest_of(bytes)),
{
}

/// A new trace remembers nothing and has nothing to write: every name is unknown.
pub proof fn new_traces_hold_nothing(reference: Seq<char>)
    ensures
        TraceView::empty().resolve(reference) == LabelView::Unknown,
        TraceView::empty().order.len() == 0,
        TraceView::empty().pending.len() == 0,
        !TraceView::empty().logging_failed,
        TraceView::empty().bounded(),
{
}

/// A context stands at the value that was last recorded in it, and stays in its domain.
pub proof fn contexts_stand_at_what_was_recorded(context: ContextView, value: ValueView)
    ensures
        context.moved_to(value).current == value,
        context.moved_to(value).domain == context.domain,
{
}

} // verus!
